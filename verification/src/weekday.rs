//! Days of the week, sets of them, and the two ways they are written: as
//! English names in raw input and as two-letter codes in rule text.

use vstd::prelude::*;
use vstd::string::*;
use crate::text::{free_of, lemma_free_of_join};

verus! {

/// A day of the week, in calendar order from Monday.
#[derive(Clone, Copy, Debug, PartialEq, Eq, PartialOrd, Ord, Hash, Structural)]
pub enum Weekday {
    Monday,
    Tuesday,
    Wednesday,
    Thursday,
    Friday,
    Saturday,
    Sunday,
}

/// The weekday at place `i` of the week, 0 for Monday; Sunday beyond 5.
pub open spec fn weekday_at(i: int) -> Weekday {
    if i <= 0 {
        Weekday::Monday
    } else if i == 1 {
        Weekday::Tuesday
    } else if i == 2 {
        Weekday::Wednesday
    } else if i == 3 {
        Weekday::Thursday
    } else if i == 4 {
        Weekday::Friday
    } else if i == 5 {
        Weekday::Saturday
    } else {
        Weekday::Sunday
    }
}

impl Weekday {
    /// Place in the week, 0 for Monday to 6 for Sunday.
    pub open spec fn index(self) -> int {
        match self {
            Weekday::Monday => 0,
            Weekday::Tuesday => 1,
            Weekday::Wednesday => 2,
            Weekday::Thursday => 3,
            Weekday::Friday => 4,
            Weekday::Saturday => 5,
            Weekday::Sunday => 6,
        }
    }

    /// The two-letter code of the weekday in rule text.
    pub open spec fn code(self) -> Seq<char> {
        match self {
            Weekday::Monday => seq!['M', 'O'],
            Weekday::Tuesday => seq!['T', 'U'],
            Weekday::Wednesday => seq!['W', 'E'],
            Weekday::Thursday => seq!['T', 'H'],
            Weekday::Friday => seq!['F', 'R'],
            Weekday::Saturday => seq!['S', 'A'],
            Weekday::Sunday => seq!['S', 'U'],
        }
    }

    /// Executable form of [`Weekday::index`].
    pub fn to_index(&self) -> (r: u8)
        ensures
            r == self.index(),
            r < 7,
            weekday_at(r as int) == *self,
    {
        match self {
            Weekday::Monday => 0,
            Weekday::Tuesday => 1,
            Weekday::Wednesday => 2,
            Weekday::Thursday => 3,
            Weekday::Friday => 4,
            Weekday::Saturday => 5,
            Weekday::Sunday => 6,
        }
    }

    /// Executable form of [`weekday_at`].
    pub fn from_index(i: u8) -> (r: Weekday)
        ensures
            r == weekday_at(i as int),
            i < 7 ==> r.index() == i,
    {
        if i == 0 {
            Weekday::Monday
        } else if i == 1 {
            Weekday::Tuesday
        } else if i == 2 {
            Weekday::Wednesday
        } else if i == 3 {
            Weekday::Thursday
        } else if i == 4 {
            Weekday::Friday
        } else if i == 5 {
            Weekday::Saturday
        } else {
            Weekday::Sunday
        }
    }

    /// The code of the weekday as a string slice.
    pub fn code_text(&self) -> (r: &'static str)
        ensures
            r@ == self.code(),
    {
        proof {
            reveal_strlit("MO");
            reveal_strlit("TU");
            reveal_strlit("WE");
            reveal_strlit("TH");
            reveal_strlit("FR");
            reveal_strlit("SA");
            reveal_strlit("SU");
        }
        let r = match self {
            Weekday::Monday => "MO",
            Weekday::Tuesday => "TU",
            Weekday::Wednesday => "WE",
            Weekday::Thursday => "TH",
            Weekday::Friday => "FR",
            Weekday::Saturday => "SA",
            Weekday::Sunday => "SU",
        };
        assert(r@ =~= self.code());
        r
    }
}

/// The weekday that the two letters `a`, `b` are the code of.
pub open spec fn weekday_of_code(a: char, b: char) -> Option<Weekday> {
    if a == 'M' && b == 'O' {
        Some(Weekday::Monday)
    } else if a == 'T' && b == 'U' {
        Some(Weekday::Tuesday)
    } else if a == 'W' && b == 'E' {
        Some(Weekday::Wednesday)
    } else if a == 'T' && b == 'H' {
        Some(Weekday::Thursday)
    } else if a == 'F' && b == 'R' {
        Some(Weekday::Friday)
    } else if a == 'S' && b == 'A' {
        Some(Weekday::Saturday)
    } else if a == 'S' && b == 'U' {
        Some(Weekday::Sunday)
    } else {
        None
    }
}

/// Executable form of [`weekday_of_code`].
pub fn read_code(a: char, b: char) -> (r: Option<Weekday>)
    ensures
        r == weekday_of_code(a, b),
{
    if a == 'M' && b == 'O' {
        Some(Weekday::Monday)
    } else if a == 'T' && b == 'U' {
        Some(Weekday::Tuesday)
    } else if a == 'W' && b == 'E' {
        Some(Weekday::Wednesday)
    } else if a == 'T' && b == 'H' {
        Some(Weekday::Thursday)
    } else if a == 'F' && b == 'R' {
        Some(Weekday::Friday)
    } else if a == 'S' && b == 'A' {
        Some(Weekday::Saturday)
    } else if a == 'S' && b == 'U' {
        Some(Weekday::Sunday)
    } else {
        None
    }
}

/// A set of weekdays, one flag for each day.
#[derive(Clone, Copy, Debug, PartialEq, Eq, Structural)]
pub struct WeekdaySet {
    pub monday: bool,
    pub tuesday: bool,
    pub wednesday: bool,
    pub thursday: bool,
    pub friday: bool,
    pub saturday: bool,
    pub sunday: bool,
}

impl WeekdaySet {
    /// The set without any day.
    pub open spec fn none() -> WeekdaySet {
        WeekdaySet {
            monday: false,
            tuesday: false,
            wednesday: false,
            thursday: false,
            friday: false,
            saturday: false,
            sunday: false,
        }
    }

    /// Whether `day` is in the set.
    pub open spec fn contains(self, day: Weekday) -> bool {
        match day {
            Weekday::Monday => self.monday,
            Weekday::Tuesday => self.tuesday,
            Weekday::Wednesday => self.wednesday,
            Weekday::Thursday => self.thursday,
            Weekday::Friday => self.friday,
            Weekday::Saturday => self.saturday,
            Weekday::Sunday => self.sunday,
        }
    }

    /// The set with `day` added.
    pub open spec fn with(self, day: Weekday) -> WeekdaySet {
        match day {
            Weekday::Monday => WeekdaySet { monday: true, ..self },
            Weekday::Tuesday => WeekdaySet { tuesday: true, ..self },
            Weekday::Wednesday => WeekdaySet { wednesday: true, ..self },
            Weekday::Thursday => WeekdaySet { thursday: true, ..self },
            Weekday::Friday => WeekdaySet { friday: true, ..self },
            Weekday::Saturday => WeekdaySet { saturday: true, ..self },
            Weekday::Sunday => WeekdaySet { sunday: true, ..self },
        }
    }

    /// The days that are in `self` or in `other`.
    pub open spec fn union(self, other: WeekdaySet) -> WeekdaySet {
        WeekdaySet {
            monday: self.monday || other.monday,
            tuesday: self.tuesday || other.tuesday,
            wednesday: self.wednesday || other.wednesday,
            thursday: self.thursday || other.thursday,
            friday: self.friday || other.friday,
            saturday: self.saturday || other.saturday,
            sunday: self.sunday || other.sunday,
        }
    }

    /// The days of the set that come before place `i` of the week.
    pub open spec fn before(self, i: int) -> WeekdaySet {
        WeekdaySet {
            monday: self.monday && 0 < i,
            tuesday: self.tuesday && 1 < i,
            wednesday: self.wednesday && 2 < i,
            thursday: self.thursday && 3 < i,
            friday: self.friday && 4 < i,
            saturday: self.saturday && 5 < i,
            sunday: self.sunday && 6 < i,
        }
    }

    /// No day is in the set.
    pub open spec fn is_none(self) -> bool {
        self == WeekdaySet::none()
    }

    /// The empty set.
    pub fn empty() -> (r: WeekdaySet)
        ensures
            r == WeekdaySet::none(),
    {
        WeekdaySet {
            monday: false,
            tuesday: false,
            wednesday: false,
            thursday: false,
            friday: false,
            saturday: false,
            sunday: false,
        }
    }

    /// Executable form of [`WeekdaySet::is_none`].
    pub fn is_empty(&self) -> (r: bool)
        ensures
            r == self.is_none(),
    {
        !(self.monday || self.tuesday || self.wednesday || self.thursday || self.friday
            || self.saturday || self.sunday)
    }

    /// Executable form of [`WeekdaySet::contains`].
    pub fn has(&self, day: Weekday) -> (r: bool)
        ensures
            r == self.contains(day),
    {
        match day {
            Weekday::Monday => self.monday,
            Weekday::Tuesday => self.tuesday,
            Weekday::Wednesday => self.wednesday,
            Weekday::Thursday => self.thursday,
            Weekday::Friday => self.friday,
            Weekday::Saturday => self.saturday,
            Weekday::Sunday => self.sunday,
        }
    }

    /// Adds `day` to the set; a day that is in it already changes nothing.
    pub fn insert(&mut self, day: Weekday)
        ensures
            *final(self) == old(self).with(day),
    {
        match day {
            Weekday::Monday => {
                self.monday = true;
            },
            Weekday::Tuesday => {
                self.tuesday = true;
            },
            Weekday::Wednesday => {
                self.wednesday = true;
            },
            Weekday::Thursday => {
                self.thursday = true;
            },
            Weekday::Friday => {
                self.friday = true;
            },
            Weekday::Saturday => {
                self.saturday = true;
            },
            Weekday::Sunday => {
                self.sunday = true;
            },
        }
    }
}

/// The codes of the days of `set` that come before place `i` of the week,
/// in calendar order with a comma between two.
pub open spec fn codes_before(set: WeekdaySet, i: int) -> Seq<char>
    decreases i,
{
    if i <= 0 {
        Seq::empty()
    } else {
        let earlier = codes_before(set, i - 1);
        let day = weekday_at(i - 1);
        if !set.contains(day) {
            earlier
        } else if earlier.len() == 0 {
            day.code()
        } else {
            earlier + seq![','] + day.code()
        }
    }
}

/// The value of the by-weekday field for `set`: the codes of its days in
/// calendar order, comma-joined.
pub open spec fn weekday_list_text(set: WeekdaySet) -> Seq<char> {
    codes_before(set, 7)
}

/// The set that a comma-joined list of weekday codes names. The list holds
/// at least one code; order is free and a repeated code counts once.
pub open spec fn parse_weekday_list(s: Seq<char>) -> Option<WeekdaySet>
    decreases s.len(),
{
    if s.len() < 2 {
        None
    } else {
        match weekday_of_code(s[s.len() - 2], s[s.len() - 1]) {
            None => None,
            Some(day) => {
                if s.len() == 2 {
                    Some(WeekdaySet::none().with(day))
                } else if s[s.len() - 3] != ',' {
                    None
                } else {
                    match parse_weekday_list(s.take(s.len() - 3)) {
                        None => None,
                        Some(set) => Some(set.with(day)),
                    }
                }
            },
        }
    }
}

/// A list that parses names at least one day.
pub proof fn lemma_parsed_weekday_list_not_empty(s: Seq<char>)
    ensures
        parse_weekday_list(s) matches Some(set) ==> !set.is_none(),
{
}

/// Reading the list written for a set gives the set back; an empty set
/// writes nothing.
pub proof fn lemma_weekday_list_round_trip(set: WeekdaySet)
    ensures
        set.is_none() ==> weekday_list_text(set).len() == 0,
        !set.is_none() ==> parse_weekday_list(weekday_list_text(set)) == Some(set),
{
    lemma_codes_before(set, 7);
    assert(set.before(7) == set);
}

/// The codes written for the days before place `i` are read back as those
/// days.
proof fn lemma_codes_before(set: WeekdaySet, i: int)
    requires
        0 <= i <= 7,
    ensures
        set.before(i).is_none() ==> codes_before(set, i).len() == 0,
        !set.before(i).is_none() ==> parse_weekday_list(codes_before(set, i)) == Some(
            set.before(i),
        ),
    decreases i,
{
    if i > 0 {
        lemma_codes_before(set, i - 1);
        let earlier = codes_before(set, i - 1);
        let day = weekday_at(i - 1);
        let text = codes_before(set, i);
        if set.contains(day) {
            assert(weekday_of_code(day.code()[0], day.code()[1]) == Some(day));
            assert(set.before(i) == set.before(i - 1).with(day));
            if earlier.len() == 0 {
                assert(text == day.code());
                if !set.before(i - 1).is_none() {
                    assert(parse_weekday_list(earlier) is Some);
                }
            } else {
                assert(text.len() == earlier.len() + 3);
                assert(text[text.len() - 2] == day.code()[0]);
                assert(text[text.len() - 1] == day.code()[1]);
                assert(text[text.len() - 3] == ',');
                assert(text.take(text.len() - 3) =~= earlier);
            }
        } else {
            assert(set.before(i) == set.before(i - 1));
        }
    }
}

/// The codes of a weekday set hold capital letters and `,` only.
pub proof fn lemma_weekday_list_text_plain(set: WeekdaySet, c: char)
    requires
        !('A' <= c <= 'Z'),
        c != ',',
    ensures
        free_of(weekday_list_text(set), c),
{
    lemma_codes_plain(set, 7, c);
}

/// The codes of the days before place `i` hold capital letters and `,` only.
proof fn lemma_codes_plain(set: WeekdaySet, i: int, c: char)
    requires
        !('A' <= c <= 'Z'),
        c != ',',
    ensures
        free_of(codes_before(set, i), c),
    decreases i,
{
    if i > 0 {
        lemma_codes_plain(set, i - 1, c);
        let earlier = codes_before(set, i - 1);
        let day = weekday_at(i - 1);
        assert(free_of(day.code(), c));
        if set.contains(day) && earlier.len() > 0 {
            lemma_free_of_join(earlier, seq![','], c);
            lemma_free_of_join(earlier + seq![','], day.code(), c);
        }
    }
}

/// Appends [`weekday_list_text`] of `set` to `out`.
pub fn append_weekday_list(out: &mut String, set: &WeekdaySet)
    ensures
        final(out)@ == old(out)@ + weekday_list_text(*set),
{
    let mut any = false;
    let mut i: u8 = 0;
    while i < 7
        invariant
            i <= 7,
            out@ == old(out)@ + codes_before(*set, i as int),
            any == (codes_before(*set, i as int).len() > 0),
        decreases 7 - i,
    {
        let day = Weekday::from_index(i);
        let ghost before = out@;
        if set.has(day) {
            if any {
                out.append(",");
                proof {
                    reveal_strlit(",");
                    assert(","@ =~= seq![',']);
                }
            }
            out.append(day.code_text());
            any = true;
        }
        i = i + 1;
        assert(out@ =~= old(out)@ + codes_before(*set, i as int));
    }
}

/// Executable form of [`parse_weekday_list`].
pub fn read_weekday_list(v: &Vec<char>) -> (r: Option<WeekdaySet>)
    ensures
        r == parse_weekday_list(v@),
{
    let mut found = WeekdaySet::empty();
    let mut end: usize = v.len();
    assert(v@.take(end as int) =~= v@);
    assert(forall|set: WeekdaySet| #[trigger] set.union(found) == set);
    loop
        invariant
            end <= v.len(),
            parse_weekday_list(v@) == (match parse_weekday_list(v@.take(end as int)) {
                None => None,
                Some(set) => Some(set.union(found)),
            }),
        decreases end,
    {
        if end < 2 {
            return None;
        }
        let ghost head = v@.take(end as int);
        assert(head[head.len() - 2] == v@[end - 2] && head[head.len() - 1] == v@[end - 1]);
        match read_code(v[end - 2], v[end - 1]) {
            None => {
                return None;
            },
            Some(day) => {
                if end == 2 {
                    assert(WeekdaySet::none().with(day).union(found) == found.with(day));
                    found.insert(day);
                    return Some(found);
                }
                assert(head[head.len() - 3] == v@[end - 3]);
                if v[end - 3] != ',' {
                    return None;
                }
                assert(head.take(head.len() - 3) =~= v@.take(end - 3));
                assert(forall|set: WeekdaySet| #[trigger]
                    set.with(day).union(found) == set.union(found.with(day)));
                found.insert(day);
                end = end - 3;
            },
        }
    }
}

/// What a name in raw input says: a word stands for `lower`, a word of
/// small letters, when it has the same letters, each small or capital.
pub open spec fn spells(name: Seq<char>, lower: Seq<char>) -> bool {
    &&& name.len() == lower.len()
    &&& forall|i: int|
        0 <= i < name.len() ==> (#[trigger] name[i] == lower[i] || name[i] as int + 32
            == lower[i] as int)
}

/// The weekday that `name` names: its English name or the first three
/// letters of it, in small or capital letters.
pub open spec fn weekday_named(name: Seq<char>) -> Option<Weekday> {
    if spells(name, "mon"@) || spells(name, "monday"@) {
        Some(Weekday::Monday)
    } else if spells(name, "tue"@) || spells(name, "tuesday"@) {
        Some(Weekday::Tuesday)
    } else if spells(name, "wed"@) || spells(name, "wednesday"@) {
        Some(Weekday::Wednesday)
    } else if spells(name, "thu"@) || spells(name, "thursday"@) {
        Some(Weekday::Thursday)
    } else if spells(name, "fri"@) || spells(name, "friday"@) {
        Some(Weekday::Friday)
    } else if spells(name, "sat"@) || spells(name, "saturday"@) {
        Some(Weekday::Saturday)
    } else if spells(name, "sun"@) || spells(name, "sunday"@) {
        Some(Weekday::Sunday)
    } else {
        None
    }
}

/// Reads a weekday name with `chrono`'s `FromStr` for `chrono::Weekday`.
///
/// Trusted: the parser takes the three-letter and the full English names
/// without regard to ASCII case and nothing else, which is what
/// [`weekday_named`] says; the result is carried over variant by variant.
#[verifier::external_body]
pub(crate) fn weekday_from_name(name: &str) -> (r: Option<Weekday>)
    ensures
        r == weekday_named(name@),
{
    match name.parse::<chrono::Weekday>() {
        Ok(chrono::Weekday::Mon) => Some(Weekday::Monday),
        Ok(chrono::Weekday::Tue) => Some(Weekday::Tuesday),
        Ok(chrono::Weekday::Wed) => Some(Weekday::Wednesday),
        Ok(chrono::Weekday::Thu) => Some(Weekday::Thursday),
        Ok(chrono::Weekday::Fri) => Some(Weekday::Friday),
        Ok(chrono::Weekday::Sat) => Some(Weekday::Saturday),
        Ok(chrono::Weekday::Sun) => Some(Weekday::Sunday),
        Err(_) => None,
    }
}

/// The days that a list of names selects. A name that names no weekday
/// selects none; a day named twice is selected once.
pub open spec fn weekdays_selected(names: Seq<String>) -> WeekdaySet
    decreases names.len(),
{
    if names.len() == 0 {
        WeekdaySet::none()
    } else {
        let earlier = weekdays_selected(names.drop_last());
        match weekday_named(names.last()@) {
            Some(day) => earlier.with(day),
            None => earlier,
        }
    }
}

/// Executable form of [`weekdays_selected`].
pub fn select_weekdays(names: &Vec<String>) -> (r: WeekdaySet)
    ensures
        r == weekdays_selected(names@),
{
    let mut set = WeekdaySet::empty();
    let mut i: usize = 0;
    while i < names.len()
        invariant
            i <= names.len(),
            set == weekdays_selected(names@.take(i as int)),
        decreases names.len() - i,
    {
        assert(names@.take(i + 1).drop_last() =~= names@.take(i as int));
        assert(names@.take(i + 1).last() == names@[i as int]);
        match weekday_from_name(names[i].as_str()) {
            Some(day) => {
                set.insert(day);
            },
            None => {},
        }
        i = i + 1;
    }
    assert(names@.take(names.len() as int) =~= names@);
    set
}

} // verus!
