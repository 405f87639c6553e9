//! Instants qualified by their zone: a civil date and time of day together
//! with the offset of the zone from UTC, and their ISO 8601 text.

use vstd::prelude::*;
use vstd::string::*;
use crate::calendar::{lemma_calendar_ends, lemma_day_number_bounds, last_date, Date};
use crate::text::{
    append_four_digits, append_two_digits, four_digit_field, four_digits, free_of, is_digit,
    lemma_digit_char, lemma_free_of_join, read_four_digits, read_two_digits, two_digit_field,
    two_digits,
};

verus! {

/// Largest distance of a zone from UTC, in minutes: 23 hours 59 minutes.
pub const MAX_OFFSET_MINUTES: i16 = 1439;

/// A moment in time as a clock in some zone shows it. `offset_minutes` is
/// what the zone's clock is ahead of UTC.
#[derive(Clone, Copy, Debug, PartialEq, Eq, Structural)]
pub struct Instant {
    pub date: Date,
    pub hour: u8,
    pub minute: u8,
    pub second: u8,
    pub offset_minutes: i16,
}

impl Instant {
    /// The fields name a day of the calendar, a time of that day and a zone.
    pub open spec fn is_valid(self) -> bool {
        &&& self.date.is_valid()
        &&& self.hour < 24
        &&& self.minute < 60
        &&& self.second < 60
        &&& -MAX_OFFSET_MINUTES <= self.offset_minutes <= MAX_OFFSET_MINUTES
    }

    /// Seconds of the day that have passed on the zone's clock.
    pub open spec fn second_of_day(self) -> int {
        self.hour * 3600 + self.minute * 60 + self.second
    }

    /// Position on the time line: seconds since 0001-01-01T00:00:00 UTC. Two
    /// instants are the same moment exactly when their timestamps are equal.
    pub open spec fn timestamp(self) -> int {
        self.date.day_number() * 86400 + self.second_of_day() - self.offset_minutes * 60
    }

    /// Midnight at the start of `date` in the zone `offset_minutes` ahead of UTC.
    pub open spec fn midnight(date: Date, offset_minutes: i16) -> Instant {
        Instant { date, hour: 0, minute: 0, second: 0, offset_minutes }
    }

    /// The same time of day in the same zone, on `date`.
    pub open spec fn on(self, date: Date) -> Instant {
        Instant { date, ..self }
    }

    /// The instant with the given fields, where they are valid.
    pub fn new(date: Date, hour: u8, minute: u8, second: u8, offset_minutes: i16) -> (r: Option<
        Instant,
    >)
        ensures
            r == (if (Instant { date, hour, minute, second, offset_minutes }).is_valid() {
                Some(Instant { date, hour, minute, second, offset_minutes })
            } else {
                None
            }),
    {
        let i = Instant { date, hour, minute, second, offset_minutes };
        if i.valid() {
            Some(i)
        } else {
            None
        }
    }

    /// Executable form of [`Instant::is_valid`].
    pub fn valid(&self) -> (r: bool)
        ensures
            r == self.is_valid(),
    {
        self.date.valid() && self.hour < 24 && self.minute < 60 && self.second < 60
            && -MAX_OFFSET_MINUTES <= self.offset_minutes && self.offset_minutes
            <= MAX_OFFSET_MINUTES
    }

    /// Executable form of [`Instant::midnight`].
    pub fn at_midnight(date: Date, offset_minutes: i16) -> (r: Instant)
        ensures
            r == Instant::midnight(date, offset_minutes),
    {
        Instant { date, hour: 0, minute: 0, second: 0, offset_minutes }
    }

    /// Executable form of [`Instant::on`].
    pub fn on_date(&self, date: Date) -> (r: Instant)
        ensures
            r == self.on(date),
    {
        Instant {
            date,
            hour: self.hour,
            minute: self.minute,
            second: self.second,
            offset_minutes: self.offset_minutes,
        }
    }

    /// Executable form of [`Instant::timestamp`].
    pub fn to_timestamp(&self) -> (r: i64)
        requires
            self.is_valid(),
        ensures
            r == self.timestamp(),
    {
        let days: i64 = self.date.to_day_number() as i64;
        let clock: i64 = self.hour as i64 * 3600 + self.minute as i64 * 60 + self.second as i64;
        days * 86400 + clock - self.offset_minutes as i64 * 60
    }

    /// Whether `self` is the same moment as `other` or an earlier one.
    pub fn not_after(&self, other: &Instant) -> (r: bool)
        requires
            self.is_valid(),
            other.is_valid(),
        ensures
            r == (self.timestamp() <= other.timestamp()),
    {
        self.to_timestamp() <= other.to_timestamp()
    }
}

/// The earliest instant: the first midnight of the calendar in the zone
/// that is furthest ahead of UTC.
pub open spec fn earliest_instant() -> Instant {
    Instant::midnight(Date { year: 1, month: 1, day: 1 }, MAX_OFFSET_MINUTES)
}

/// The latest instant: the last second of the calendar in the zone that
/// is furthest behind UTC.
pub open spec fn latest_instant() -> Instant {
    Instant {
        date: last_date(),
        hour: 23,
        minute: 59,
        second: 59,
        offset_minutes: (-MAX_OFFSET_MINUTES) as i16,
    }
}

/// No valid instant is before the earliest or after the latest.
pub proof fn lemma_instant_range(i: Instant)
    requires
        i.is_valid(),
    ensures
        earliest_instant().is_valid(),
        latest_instant().is_valid(),
        earliest_instant().timestamp() <= i.timestamp() <= latest_instant().timestamp(),
{
    lemma_calendar_ends();
    lemma_day_number_bounds(i.date);
}

impl Instant {
    /// Executable form of [`earliest_instant`].
    pub fn earliest() -> (r: Instant)
        ensures
            r == earliest_instant(),
            r.is_valid(),
    {
        Instant {
            date: Date { year: 1, month: 1, day: 1 },
            hour: 0,
            minute: 0,
            second: 0,
            offset_minutes: MAX_OFFSET_MINUTES,
        }
    }

    /// Executable form of [`latest_instant`].
    pub fn latest() -> (r: Instant)
        ensures
            r == latest_instant(),
            r.is_valid(),
    {
        Instant {
            date: Date { year: 9999, month: 12, day: 31 },
            hour: 23,
            minute: 59,
            second: 59,
            offset_minutes: -MAX_OFFSET_MINUTES,
        }
    }
}

/// A date as `YYYY-MM-DD`.
pub open spec fn date_text(d: Date) -> Seq<char> {
    four_digits(d.year as int) + seq!['-'] + two_digits(d.month as int) + seq!['-'] + two_digits(
        d.day as int,
    )
}

/// The distance of a zone from UTC as `+HH:MM` or `-HH:MM`.
pub open spec fn offset_text(offset_minutes: int) -> Seq<char> {
    if offset_minutes < 0 {
        seq!['-'] + two_digits((-offset_minutes) / 60) + seq![':'] + two_digits(
            (-offset_minutes) % 60,
        )
    } else {
        seq!['+'] + two_digits(offset_minutes / 60) + seq![':'] + two_digits(offset_minutes % 60)
    }
}

/// An instant as `YYYY-MM-DDTHH:MM:SS+HH:MM`: date and time as the zone's
/// clock shows them, then the zone's offset from UTC.
pub open spec fn instant_text(i: Instant) -> Seq<char> {
    date_text(i.date) + seq!['T'] + two_digits(i.hour as int) + seq![':'] + two_digits(
        i.minute as int,
    ) + seq![':'] + two_digits(i.second as int) + offset_text(i.offset_minutes as int)
}

/// The date that the ten characters of `s` at `at` write as `YYYY-MM-DD`,
/// if they do and the calendar has that day.
pub open spec fn date_field(s: Seq<char>, at: int) -> Option<Date> {
    let year = four_digit_field(s, at);
    let month = two_digit_field(s, at + 5);
    let day = two_digit_field(s, at + 8);
    if 0 <= at && at + 10 <= s.len() && year is Some && s[at + 4] == '-' && month is Some && s[at
        + 7] == '-' && day is Some {
        let d = Date { year: year->0 as u16, month: month->0 as u8, day: day->0 as u8 };
        if d.is_valid() {
            Some(d)
        } else {
            None
        }
    } else {
        None
    }
}

/// What a run of characters means as a date: `YYYY-MM-DD`, nothing before
/// or after, naming a day of the calendar.
pub open spec fn parse_date(s: Seq<char>) -> Option<Date> {
    if s.len() == 10 {
        date_field(s, 0)
    } else {
        None
    }
}

/// The offset that the characters of `s` from `at` to the end write: `Z`
/// for UTC, or `+HH:MM` or `-HH:MM` with hours below 24 and minutes below 60.
pub open spec fn offset_field(s: Seq<char>, at: int) -> Option<int> {
    let hours = two_digit_field(s, at + 1);
    let minutes = two_digit_field(s, at + 4);
    if 0 <= at && s.len() == at + 1 && s[at] == 'Z' {
        Some(0)
    } else if 0 <= at && s.len() == at + 6 && (s[at] == '+' || s[at] == '-') && hours is Some
        && s[at + 3] == ':' && minutes is Some && hours->0 < 24 && minutes->0 < 60 {
        if s[at] == '-' {
            Some(-(hours->0 * 60 + minutes->0))
        } else {
            Some(hours->0 * 60 + minutes->0)
        }
    } else {
        None
    }
}

/// What a run of characters means as an instant: date, `T`, time as
/// `HH:MM:SS`, then the zone, with valid fields and nothing else.
pub open spec fn parse_instant(s: Seq<char>) -> Option<Instant> {
    let date = date_field(s, 0);
    let hour = two_digit_field(s, 11);
    let minute = two_digit_field(s, 14);
    let second = two_digit_field(s, 17);
    let offset = offset_field(s, 19);
    if s.len() >= 20 && date is Some && s[10] == 'T' && hour is Some && s[13] == ':' && minute
        is Some && s[16] == ':' && second is Some && offset is Some {
        let i = Instant {
            date: date->0,
            hour: hour->0 as u8,
            minute: minute->0 as u8,
            second: second->0 as u8,
            offset_minutes: offset->0 as i16,
        };
        if i.is_valid() {
            Some(i)
        } else {
            None
        }
    } else {
        None
    }
}

/// Two digits are read back as the number they write.
proof fn lemma_two_digits(n: int)
    requires
        0 <= n < 100,
    ensures
        two_digits(n).len() == 2,
        two_digit_field(two_digits(n), 0) == Some(n),
{
    lemma_digit_char(n / 10);
    lemma_digit_char(n % 10);
}

/// Four digits are read back as the number they write.
proof fn lemma_four_digits(n: int)
    requires
        0 <= n < 10000,
    ensures
        four_digits(n).len() == 4,
        four_digit_field(four_digits(n), 0) == Some(n),
{
    let a = n / 1000;
    let b = (n / 100) % 10;
    let c = (n / 10) % 10;
    let d = n % 10;
    assert(0 <= a <= 9 && 0 <= b <= 9 && 0 <= c <= 9 && 0 <= d <= 9);
    assert(n == a * 1000 + b * 100 + c * 10 + d);
    lemma_digit_char(n / 1000);
    lemma_digit_char((n / 100) % 10);
    lemma_digit_char((n / 10) % 10);
    lemma_digit_char(n % 10);
}

/// A two-digit field read inside a longer text is the field read alone.
proof fn lemma_two_digit_field_at(s: Seq<char>, at: int, n: int)
    requires
        0 <= n < 100,
        0 <= at,
        at + 2 <= s.len(),
        s.subrange(at, at + 2) == two_digits(n),
    ensures
        two_digit_field(s, at) == Some(n),
{
    lemma_two_digits(n);
    let f = s.subrange(at, at + 2);
    assert(f[0] == s[at] && f[1] == s[at + 1]);
}

/// A four-digit field read inside a longer text is the field read alone.
proof fn lemma_four_digit_field_at(s: Seq<char>, at: int, n: int)
    requires
        0 <= n < 10000,
        0 <= at,
        at + 4 <= s.len(),
        s.subrange(at, at + 4) == four_digits(n),
    ensures
        four_digit_field(s, at) == Some(n),
{
    lemma_four_digits(n);
    let f = s.subrange(at, at + 4);
    assert(f[0] == s[at] && f[1] == s[at + 1] && f[2] == s[at + 2] && f[3] == s[at + 3]);
}

/// A date read at the head of a longer text is the date read alone.
proof fn lemma_date_field_at(t: Seq<char>, d: Date)
    requires
        d.is_valid(),
        t.len() >= 10,
        t.subrange(0, 10) == date_text(d),
    ensures
        date_field(t, 0) == Some(d),
{
    let h = date_text(d);
    assert(h.len() == 10);
    assert(h[4] == '-' && h[7] == '-');
    assert(t[4] == t.subrange(0, 10)[4] && t[7] == t.subrange(0, 10)[7]);
    assert(t.subrange(0, 4) =~= h.subrange(0, 4));
    assert(t.subrange(5, 7) =~= h.subrange(5, 7));
    assert(t.subrange(8, 10) =~= h.subrange(8, 10));
    assert(h.subrange(0, 4) =~= four_digits(d.year as int));
    assert(h.subrange(5, 7) =~= two_digits(d.month as int));
    assert(h.subrange(8, 10) =~= two_digits(d.day as int));
    lemma_four_digit_field_at(t, 0, d.year as int);
    lemma_two_digit_field_at(t, 5, d.month as int);
    lemma_two_digit_field_at(t, 8, d.day as int);
}

/// A time of day read inside a longer text.
proof fn lemma_time_fields_at(t: Seq<char>, hour: int, minute: int, second: int)
    requires
        0 <= hour < 24,
        0 <= minute < 60,
        0 <= second < 60,
        t.len() >= 19,
        t.subrange(10, 19) == seq!['T'] + two_digits(hour) + seq![':'] + two_digits(minute) + seq![
            ':',
        ] + two_digits(second),
    ensures
        t[10] == 'T',
        t[13] == ':',
        t[16] == ':',
        two_digit_field(t, 11) == Some(hour),
        two_digit_field(t, 14) == Some(minute),
        two_digit_field(t, 17) == Some(second),
{
    let h = t.subrange(10, 19);
    assert(h.len() == 9);
    assert(t[10] == h[0] && t[13] == h[3] && t[16] == h[6]);
    assert(t.subrange(11, 13) =~= h.subrange(1, 3));
    assert(t.subrange(14, 16) =~= h.subrange(4, 6));
    assert(t.subrange(17, 19) =~= h.subrange(7, 9));
    assert(h.subrange(1, 3) =~= two_digits(hour));
    assert(h.subrange(4, 6) =~= two_digits(minute));
    assert(h.subrange(7, 9) =~= two_digits(second));
    lemma_two_digit_field_at(t, 11, hour);
    lemma_two_digit_field_at(t, 14, minute);
    lemma_two_digit_field_at(t, 17, second);
}

/// An offset read at the end of a longer text.
proof fn lemma_offset_field_at(t: Seq<char>, at: int, offset: int)
    requires
        -MAX_OFFSET_MINUTES <= offset <= MAX_OFFSET_MINUTES,
        0 <= at,
        t.len() == at + 6,
        t.subrange(at, at + 6) == offset_text(offset),
    ensures
        offset_field(t, at) == Some(offset),
{
    let h = t.subrange(at, at + 6);
    let dist = if offset < 0 {
        -offset
    } else {
        offset
    };
    assert(h.len() == 6);
    assert(t[at] == h[0] && t[at + 3] == h[3]);
    assert(t.subrange(at + 1, at + 3) =~= h.subrange(1, 3));
    assert(t.subrange(at + 4, at + 6) =~= h.subrange(4, 6));
    assert(h.subrange(1, 3) =~= two_digits(dist / 60));
    assert(h.subrange(4, 6) =~= two_digits(dist % 60));
    lemma_two_digit_field_at(t, at + 1, dist / 60);
    lemma_two_digit_field_at(t, at + 4, dist % 60);
}

/// Reading the text of a valid date gives the date back.
pub proof fn lemma_date_round_trip(d: Date)
    requires
        d.is_valid(),
    ensures
        date_text(d).len() == 10,
        parse_date(date_text(d)) == Some(d),
{
    let t = date_text(d);
    assert(t.subrange(0, 10) =~= t);
    lemma_date_field_at(t, d);
}

/// Reading the text of a valid instant gives the instant back.
pub proof fn lemma_instant_round_trip(i: Instant)
    requires
        i.is_valid(),
    ensures
        instant_text(i).len() == 25,
        parse_instant(instant_text(i)) == Some(i),
{
    let t = instant_text(i);
    let clock = seq!['T'] + two_digits(i.hour as int) + seq![':'] + two_digits(i.minute as int)
        + seq![':'] + two_digits(i.second as int);
    assert(date_text(i.date).len() == 10);
    assert(clock.len() == 9);
    assert(offset_text(i.offset_minutes as int).len() == 6);
    assert(t =~= date_text(i.date) + clock + offset_text(i.offset_minutes as int));
    assert(t.subrange(0, 10) =~= date_text(i.date));
    assert(t.subrange(10, 19) =~= clock);
    assert(t.subrange(19, 25) =~= offset_text(i.offset_minutes as int));
    lemma_date_field_at(t, i.date);
    lemma_time_fields_at(t, i.hour as int, i.minute as int, i.second as int);
    lemma_offset_field_at(t, 19, i.offset_minutes as int);
}

/// Two digits hold digits only.
proof fn lemma_two_digits_plain(n: int, c: char)
    requires
        0 <= n < 100,
        !is_digit(c),
    ensures
        free_of(two_digits(n), c),
{
    lemma_digit_char(n / 10);
    lemma_digit_char(n % 10);
}

/// Four digits hold digits only.
proof fn lemma_four_digits_plain(n: int, c: char)
    requires
        0 <= n < 10000,
        !is_digit(c),
    ensures
        free_of(four_digits(n), c),
{
    lemma_digit_char(n / 1000);
    lemma_digit_char((n / 100) % 10);
    lemma_digit_char((n / 10) % 10);
    lemma_digit_char(n % 10);
}

/// The text of an instant holds digits and the marks `-`, `:`, `T` and
/// `+` only.
pub proof fn lemma_instant_text_plain(i: Instant, c: char)
    requires
        i.is_valid(),
        !is_digit(c),
        c != '-' && c != ':' && c != 'T' && c != '+',
    ensures
        free_of(instant_text(i), c),
{
    let d = i.date;
    let off = i.offset_minutes as int;
    let dist = if off < 0 {
        -off
    } else {
        off
    };
    lemma_four_digits_plain(d.year as int, c);
    lemma_two_digits_plain(d.month as int, c);
    lemma_two_digits_plain(d.day as int, c);
    lemma_two_digits_plain(i.hour as int, c);
    lemma_two_digits_plain(i.minute as int, c);
    lemma_two_digits_plain(i.second as int, c);
    lemma_two_digits_plain(dist / 60, c);
    lemma_two_digits_plain(dist % 60, c);
    let t1 = four_digits(d.year as int) + seq!['-'];
    lemma_free_of_join(four_digits(d.year as int), seq!['-'], c);
    let t2 = t1 + two_digits(d.month as int);
    lemma_free_of_join(t1, two_digits(d.month as int), c);
    let t3 = t2 + seq!['-'];
    lemma_free_of_join(t2, seq!['-'], c);
    let t4 = t3 + two_digits(d.day as int);
    lemma_free_of_join(t3, two_digits(d.day as int), c);
    assert(t4 == date_text(d));
    let t5 = t4 + seq!['T'];
    lemma_free_of_join(t4, seq!['T'], c);
    let t6 = t5 + two_digits(i.hour as int);
    lemma_free_of_join(t5, two_digits(i.hour as int), c);
    let t7 = t6 + seq![':'];
    lemma_free_of_join(t6, seq![':'], c);
    let t8 = t7 + two_digits(i.minute as int);
    lemma_free_of_join(t7, two_digits(i.minute as int), c);
    let t9 = t8 + seq![':'];
    lemma_free_of_join(t8, seq![':'], c);
    let t10 = t9 + two_digits(i.second as int);
    lemma_free_of_join(t9, two_digits(i.second as int), c);
    let sign = if off < 0 {
        seq!['-']
    } else {
        seq!['+']
    };
    let o1 = sign + two_digits(dist / 60);
    lemma_free_of_join(sign, two_digits(dist / 60), c);
    let o2 = o1 + seq![':'];
    lemma_free_of_join(o1, seq![':'], c);
    let o3 = o2 + two_digits(dist % 60);
    lemma_free_of_join(o2, two_digits(dist % 60), c);
    assert(o3 == offset_text(off));
    lemma_free_of_join(t10, o3, c);
}

/// Executable form of [`date_field`].
pub fn read_date_field(v: &Vec<char>, at: usize) -> (r: Option<Date>)
    ensures
        r == date_field(v@, at as int),
{
    if at > v.len() || v.len() - at < 10 {
        return None;
    }
    let year = read_four_digits(v, at);
    let month = read_two_digits(v, at + 5);
    let day = read_two_digits(v, at + 8);
    match (year, month, day) {
        (Some(y), Some(m), Some(d)) => {
            if v[at + 4] == '-' && v[at + 7] == '-' {
                Date::new(y, m, d)
            } else {
                None
            }
        },
        _ => None,
    }
}

/// Executable form of [`parse_date`].
pub fn read_date(v: &Vec<char>) -> (r: Option<Date>)
    ensures
        r == parse_date(v@),
{
    if v.len() == 10 {
        read_date_field(v, 0)
    } else {
        None
    }
}

/// Executable form of [`offset_field`].
pub fn read_offset_field(v: &Vec<char>, at: usize) -> (r: Option<i16>)
    ensures
        match offset_field(v@, at as int) {
            Some(n) => r == Some(n as i16) && -MAX_OFFSET_MINUTES <= n <= MAX_OFFSET_MINUTES,
            None => r is None,
        },
{
    if at >= v.len() {
        return None;
    }
    if v.len() - at == 1 {
        if v[at] == 'Z' {
            return Some(0);
        }
        return None;
    }
    if v.len() - at != 6 {
        return None;
    }
    let sign = v[at];
    let hours = read_two_digits(v, at + 1);
    let minutes = read_two_digits(v, at + 4);
    match (hours, minutes) {
        (Some(h), Some(m)) => {
            if (sign == '+' || sign == '-') && v[at + 3] == ':' && h < 24 && m < 60 {
                let dist: i16 = h as i16 * 60 + m as i16;
                if sign == '-' {
                    Some(-dist)
                } else {
                    Some(dist)
                }
            } else {
                None
            }
        },
        _ => None,
    }
}

/// Executable form of [`parse_instant`].
pub fn read_instant(v: &Vec<char>) -> (r: Option<Instant>)
    ensures
        r == parse_instant(v@),
{
    if v.len() < 20 {
        return None;
    }
    let date = read_date_field(v, 0);
    let hour = read_two_digits(v, 11);
    let minute = read_two_digits(v, 14);
    let second = read_two_digits(v, 17);
    let offset = read_offset_field(v, 19);
    match (date, hour, minute, second, offset) {
        (Some(d), Some(h), Some(m), Some(s), Some(o)) => {
            if v[10] == 'T' && v[13] == ':' && v[16] == ':' {
                Instant::new(d, h, m, s, o)
            } else {
                None
            }
        },
        _ => None,
    }
}

/// Appends [`date_text`] of `d` to `out`.
pub fn append_date(out: &mut String, d: &Date)
    requires
        d.is_valid(),
    ensures
        final(out)@ == old(out)@ + date_text(*d),
{
    proof {
        reveal_strlit("-");
        assert("-"@ =~= seq!['-']);
    }
    append_four_digits(out, d.year);
    out.append("-");
    append_two_digits(out, d.month);
    out.append("-");
    append_two_digits(out, d.day);
    assert(final(out)@ =~= old(out)@ + date_text(*d));
}

/// Appends [`instant_text`] of `i` to `out`.
pub fn append_instant(out: &mut String, i: &Instant)
    requires
        i.is_valid(),
    ensures
        final(out)@ == old(out)@ + instant_text(*i),
{
    proof {
        reveal_strlit("T");
        reveal_strlit(":");
        reveal_strlit("+");
        reveal_strlit("-");
        assert("T"@ =~= seq!['T']);
        assert(":"@ =~= seq![':']);
        assert("+"@ =~= seq!['+']);
        assert("-"@ =~= seq!['-']);
    }
    append_date(out, &i.date);
    out.append("T");
    append_two_digits(out, i.hour);
    out.append(":");
    append_two_digits(out, i.minute);
    out.append(":");
    append_two_digits(out, i.second);
    let ghost mid = out@;
    assert(mid =~= old(out)@ + (date_text(i.date) + seq!['T'] + two_digits(i.hour as int) + seq![
        ':',
    ] + two_digits(i.minute as int) + seq![':'] + two_digits(i.second as int)));
    let dist: u16 = if i.offset_minutes < 0 {
        out.append("-");
        (-i.offset_minutes) as u16
    } else {
        out.append("+");
        i.offset_minutes as u16
    };
    append_two_digits(out, (dist / 60) as u8);
    out.append(":");
    append_two_digits(out, (dist % 60) as u8);
    assert(final(out)@ =~= mid + offset_text(i.offset_minutes as int));
    assert(final(out)@ =~= old(out)@ + instant_text(*i));
}

} // verus!
