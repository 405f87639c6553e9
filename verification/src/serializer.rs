//! The rule text: one line of `KEY=VALUE` fields with `;` between them,
//! written in a fixed order and read in any.

use vstd::prelude::*;
use vstd::string::*;
use crate::instant::{
    append_instant, instant_text, lemma_instant_round_trip, lemma_instant_text_plain,
    parse_instant, read_instant, Instant,
};
use crate::recurrence::{Cadence, Frequency, RecurrenceSpec, Termination};
use crate::text::{
    append_decimal, chars_of, decimal_text, find_char, first_index_of, free_of, is_digit,
    last_index_of, lemma_decimal_round_trip, lemma_decimal_text_plain, lemma_first_index_of,
    lemma_free_of_join, lemma_last_index_of, parse_decimal, read_decimal, same_text, slice_of,
};
use crate::weekday::{
    append_weekday_list, lemma_weekday_list_round_trip, lemma_weekday_list_text_plain,
    parse_weekday_list, read_weekday_list, weekday_list_text, WeekdaySet,
};

verus! {

/// Why a text is no rule.
#[derive(Clone, Copy, Debug, PartialEq, Eq, Structural)]
pub enum ParseError {
    /// A field that the rule needs is missing, is there twice or has a
    /// value that cannot be read, or the fields do not fit together.
    MalformedRule,
}

/// The value of the frequency field.
pub open spec fn frequency_text(f: Frequency) -> Seq<char> {
    match f {
        Frequency::Daily => "DAILY"@,
        Frequency::Weekly => "WEEKLY"@,
        Frequency::Monthly => "MONTHLY"@,
    }
}

/// A field of rule text: key, `=`, value.
pub open spec fn field_text(key: Seq<char>, value: Seq<char>) -> Seq<char> {
    key + seq!['='] + value
}

/// The field that only the rule's frequency has, with the `;` before it:
/// the weekdays of a weekly rule, the day of the month of a monthly rule,
/// nothing for a daily rule.
pub open spec fn cadence_text(c: Cadence) -> Seq<char> {
    match c {
        Cadence::Daily => Seq::empty(),
        Cadence::Weekly { by_weekday } => seq![';'] + field_text(
            "BYDAY"@,
            weekday_list_text(by_weekday),
        ),
        Cadence::Monthly { by_month_day } => seq![';'] + field_text(
            "BYMONTHDAY"@,
            decimal_text(by_month_day as nat),
        ),
    }
}

/// The field that says how the rule ends, with the `;` before it.
pub open spec fn termination_text(t: Termination) -> Seq<char> {
    match t {
        Termination::Count(n) => seq![';'] + field_text("COUNT"@, decimal_text(n as nat)),
        Termination::Until(end) => seq![';'] + field_text("UNTIL"@, instant_text(end)),
    }
}

/// The canonical text of a rule: frequency, interval, the field of the
/// frequency if it has one, then the count or the end, with `;` between
/// two fields. The start is not part of the text.
pub open spec fn rule_text(spec: RecurrenceSpec) -> Seq<char> {
    field_text("FREQ"@, frequency_text(spec.cadence.frequency())) + seq![';'] + field_text(
        "INTERVAL"@,
        decimal_text(spec.interval as nat),
    ) + cadence_text(spec.cadence) + termination_text(spec.termination)
}

/// What has been read of each field of a rule so far.
#[derive(Clone, Copy, Debug)]
pub struct RuleFields {
    pub frequency: Option<Frequency>,
    pub interval: Option<u32>,
    pub by_weekday: Option<WeekdaySet>,
    pub by_month_day: Option<u32>,
    pub count: Option<u32>,
    pub until: Option<Instant>,
    /// A known field came twice or with a value that cannot be read.
    pub malformed: bool,
}

impl RuleFields {
    /// Nothing read yet.
    pub open spec fn nothing() -> RuleFields {
        RuleFields {
            frequency: None,
            interval: None,
            by_weekday: None,
            by_month_day: None,
            count: None,
            until: None,
            malformed: false,
        }
    }

    /// The same fields, marked as malformed.
    pub open spec fn spoilt(self) -> RuleFields {
        RuleFields { malformed: true, ..self }
    }
}

/// The frequency that a value names.
pub open spec fn parse_frequency(value: Seq<char>) -> Option<Frequency> {
    if value == "DAILY"@ {
        Some(Frequency::Daily)
    } else if value == "WEEKLY"@ {
        Some(Frequency::Weekly)
    } else if value == "MONTHLY"@ {
        Some(Frequency::Monthly)
    } else {
        None
    }
}

/// The fields after one more field, `KEY=VALUE`, has been read. A field is
/// split at its first `=`. A field without `=` or with a key that is not
/// known is passed over. A known key that was read before, or whose value
/// cannot be read, spoils the rule.
pub open spec fn with_field(acc: RuleFields, field: Seq<char>) -> RuleFields {
    let at = first_index_of(field, '=');
    let key = field.take(at);
    let value = field.skip(at + 1);
    if at >= field.len() {
        acc
    } else if key == "FREQ"@ {
        match parse_frequency(value) {
            Some(f) if acc.frequency is None => RuleFields { frequency: Some(f), ..acc },
            _ => acc.spoilt(),
        }
    } else if key == "INTERVAL"@ {
        match parse_decimal(value) {
            Some(n) if acc.interval is None => RuleFields { interval: Some(n), ..acc },
            _ => acc.spoilt(),
        }
    } else if key == "BYDAY"@ {
        match parse_weekday_list(value) {
            Some(days) if acc.by_weekday is None => RuleFields { by_weekday: Some(days), ..acc },
            _ => acc.spoilt(),
        }
    } else if key == "BYMONTHDAY"@ {
        match parse_decimal(value) {
            Some(n) if acc.by_month_day is None => RuleFields { by_month_day: Some(n), ..acc },
            _ => acc.spoilt(),
        }
    } else if key == "COUNT"@ {
        match parse_decimal(value) {
            Some(n) if acc.count is None => RuleFields { count: Some(n), ..acc },
            _ => acc.spoilt(),
        }
    } else if key == "UNTIL"@ {
        match parse_instant(value) {
            Some(end) if acc.until is None => RuleFields { until: Some(end), ..acc },
            _ => acc.spoilt(),
        }
    } else {
        acc
    }
}

/// The fields of a text, read one after the other; `;` stands between two
/// fields.
pub open spec fn fields_of(s: Seq<char>) -> RuleFields
    decreases s.len(),
{
    let at = last_index_of(s, ';');
    if 0 <= at < s.len() {
        with_field(fields_of(s.take(at)), s.skip(at + 1))
    } else {
        with_field(RuleFields::nothing(), s)
    }
}

/// The cadence that the fields give: the frequency with its own field and
/// without the field of another frequency.
pub open spec fn cadence_of_fields(f: RuleFields) -> Option<Cadence> {
    match f.frequency {
        Some(Frequency::Daily) => if f.by_weekday is None && f.by_month_day is None {
            Some(Cadence::Daily)
        } else {
            None
        },
        Some(Frequency::Weekly) => if f.by_weekday is Some && f.by_month_day is None {
            Some(Cadence::Weekly { by_weekday: f.by_weekday->0 })
        } else {
            None
        },
        Some(Frequency::Monthly) => if f.by_month_day is Some && f.by_weekday is None
            && f.by_month_day->0 <= 31 {
            Some(Cadence::Monthly { by_month_day: f.by_month_day->0 as u8 })
        } else {
            None
        },
        None => None,
    }
}

/// The termination that the fields give: the count or the end, not both.
pub open spec fn termination_of_fields(f: RuleFields) -> Option<Termination> {
    if f.count is Some && f.until is None {
        Some(Termination::Count(f.count->0))
    } else if f.count is None && f.until is Some {
        Some(Termination::Until(f.until->0))
    } else {
        None
    }
}

/// The rule that the fields and the start make, where they make a valid one.
pub open spec fn rule_of_fields(f: RuleFields, start: Instant) -> Result<
    RecurrenceSpec,
    ParseError,
> {
    let cadence = cadence_of_fields(f);
    let termination = termination_of_fields(f);
    if !f.malformed && f.interval is Some && cadence is Some && termination is Some {
        let spec = RecurrenceSpec {
            cadence: cadence->0,
            interval: f.interval->0,
            termination: termination->0,
            start,
        };
        if spec.is_valid() {
            Ok(spec)
        } else {
            Err(ParseError::MalformedRule)
        }
    } else {
        Err(ParseError::MalformedRule)
    }
}

/// What a text means as the rule of a schedule that starts at `start`.
pub open spec fn parse_rule(text: Seq<char>, start: Instant) -> Result<RecurrenceSpec, ParseError> {
    rule_of_fields(fields_of(text), start)
}

/// A field after a `;`, itself without `;`, is read last.
pub proof fn lemma_fields_of_push(before: Seq<char>, field: Seq<char>)
    requires
        free_of(field, ';'),
    ensures
        fields_of(before + seq![';'] + field) == with_field(fields_of(before), field),
{
    let s = before + seq![';'] + field;
    let at = before.len() as int;
    assert(s[at] == ';');
    assert forall|i: int| at < i < s.len() implies s[i] != ';' by {
        assert(s[i] == field[i - at - 1]);
    }
    lemma_last_index_of(s, ';', at);
    assert(s.take(at) =~= before);
    assert(s.skip(at + 1) =~= field);
}

/// A text without `;` is one field.
pub proof fn lemma_fields_of_single(field: Seq<char>)
    requires
        free_of(field, ';'),
    ensures
        fields_of(field) == with_field(RuleFields::nothing(), field),
{
    lemma_last_index_of(field, ';', -1);
}

/// A field written as key, `=` and value is split back into the two.
pub proof fn lemma_split_field(key: Seq<char>, value: Seq<char>)
    requires
        free_of(key, '='),
    ensures
        first_index_of(field_text(key, value), '=') == key.len(),
        field_text(key, value).take(key.len() as int) == key,
        field_text(key, value).skip(key.len() as int + 1) == value,
{
    let s = field_text(key, value);
    let at = key.len() as int;
    assert(s[at] == '=');
    assert forall|i: int| 0 <= i < at implies s[i] != '=' by {
        assert(s[i] == key[i]);
    }
    lemma_first_index_of(s, '=', at);
    assert(s.take(at) =~= key);
    assert(s.skip(at + 1) =~= value);
}

/// A field is free of a character other than `=` when its key and its
/// value are.
pub proof fn lemma_field_text_plain(key: Seq<char>, value: Seq<char>, c: char)
    requires
        c != '=',
        free_of(key, c),
        free_of(value, c),
    ensures
        free_of(field_text(key, value), c),
{
    lemma_free_of_join(key, seq!['='], c);
    lemma_free_of_join(key + seq!['='], value, c);
}

/// The keys of the known fields are capital letters only.
proof fn lemma_keys_plain(c: char)
    requires
        !('A' <= c <= 'Z'),
    ensures
        free_of("FREQ"@, c),
        free_of("INTERVAL"@, c),
        free_of("BYDAY"@, c),
        free_of("BYMONTHDAY"@, c),
        free_of("COUNT"@, c),
        free_of("UNTIL"@, c),
{
    reveal_strlit("FREQ");
    reveal_strlit("INTERVAL");
    reveal_strlit("BYDAY");
    reveal_strlit("BYMONTHDAY");
    reveal_strlit("COUNT");
    reveal_strlit("UNTIL");
}

/// The keys of the known fields differ from each other.
proof fn lemma_keys_differ()
    ensures
        "FREQ"@.len() == 4,
        "INTERVAL"@.len() == 8,
        "BYDAY"@.len() == 5,
        "BYMONTHDAY"@.len() == 10,
        "COUNT"@.len() == 5,
        "UNTIL"@.len() == 5,
        "BYDAY"@[0] == 'B',
        "COUNT"@[0] == 'C',
        "UNTIL"@[0] == 'U',
{
    reveal_strlit("FREQ");
    reveal_strlit("INTERVAL");
    reveal_strlit("BYDAY");
    reveal_strlit("BYMONTHDAY");
    reveal_strlit("COUNT");
    reveal_strlit("UNTIL");
}

/// The names of the frequencies are read back as they are written, and
/// are letters only.
proof fn lemma_frequency_text(f: Frequency)
    ensures
        parse_frequency(frequency_text(f)) == Some(f),
        forall|c: char| !('A' <= c <= 'Z') ==> free_of(frequency_text(f), c),
{
    reveal_strlit("DAILY");
    reveal_strlit("WEEKLY");
    reveal_strlit("MONTHLY");
    assert("DAILY"@.len() == 5 && "WEEKLY"@.len() == 6 && "MONTHLY"@.len() == 7);
}

/// What reading a frequency field does.
proof fn lemma_with_frequency(acc: RuleFields, f: Frequency)
    requires
        acc.frequency is None,
    ensures
        with_field(acc, field_text("FREQ"@, frequency_text(f))) == (RuleFields {
            frequency: Some(f),
            ..acc
        }),
{
    lemma_keys_plain('=');
    lemma_frequency_text(f);
    lemma_split_field("FREQ"@, frequency_text(f));
}

/// What reading an interval field does.
proof fn lemma_with_interval(acc: RuleFields, n: u32)
    requires
        acc.interval is None,
    ensures
        with_field(acc, field_text("INTERVAL"@, decimal_text(n as nat))) == (RuleFields {
            interval: Some(n),
            ..acc
        }),
{
    lemma_keys_plain('=');
    lemma_keys_differ();
    lemma_decimal_round_trip(n as nat);
    lemma_split_field("INTERVAL"@, decimal_text(n as nat));
}

/// What reading a weekday field does.
proof fn lemma_with_weekdays(acc: RuleFields, days: WeekdaySet)
    requires
        acc.by_weekday is None,
        !days.is_none(),
    ensures
        with_field(acc, field_text("BYDAY"@, weekday_list_text(days))) == (RuleFields {
            by_weekday: Some(days),
            ..acc
        }),
{
    lemma_keys_plain('=');
    lemma_keys_differ();
    lemma_weekday_list_round_trip(days);
    lemma_split_field("BYDAY"@, weekday_list_text(days));
}

/// What reading a month-day field does.
proof fn lemma_with_month_day(acc: RuleFields, n: u32)
    requires
        acc.by_month_day is None,
    ensures
        with_field(acc, field_text("BYMONTHDAY"@, decimal_text(n as nat))) == (RuleFields {
            by_month_day: Some(n),
            ..acc
        }),
{
    lemma_keys_plain('=');
    lemma_keys_differ();
    lemma_decimal_round_trip(n as nat);
    lemma_split_field("BYMONTHDAY"@, decimal_text(n as nat));
}

/// What reading a count field does.
proof fn lemma_with_count(acc: RuleFields, n: u32)
    requires
        acc.count is None,
    ensures
        with_field(acc, field_text("COUNT"@, decimal_text(n as nat))) == (RuleFields {
            count: Some(n),
            ..acc
        }),
{
    lemma_keys_plain('=');
    lemma_keys_differ();
    lemma_decimal_round_trip(n as nat);
    lemma_split_field("COUNT"@, decimal_text(n as nat));
}

/// What reading an end field does.
proof fn lemma_with_until(acc: RuleFields, end: Instant)
    requires
        acc.until is None,
        end.is_valid(),
    ensures
        with_field(acc, field_text("UNTIL"@, instant_text(end))) == (RuleFields {
            until: Some(end),
            ..acc
        }),
{
    lemma_keys_plain('=');
    lemma_keys_differ();
    lemma_instant_round_trip(end);
    lemma_split_field("UNTIL"@, instant_text(end));
}

/// The characters that rule text is made of: capital letters, digits, and
/// the marks that separate fields and stand in values.
pub open spec fn is_rule_char(c: char) -> bool {
    ('A' <= c <= 'Z') || is_digit(c) || c == ';' || c == '=' || c == ',' || c == '-' || c == ':'
        || c == '+'
}

/// The canonical text of a valid rule is one line: it holds the
/// characters of rule text only, so no blank and no line break.
pub proof fn lemma_rule_text_is_one_line(spec: RecurrenceSpec)
    requires
        spec.is_valid(),
    ensures
        forall|k: int|
            0 <= k < rule_text(spec).len() ==> is_rule_char(#[trigger] rule_text(spec)[k]),
{
    let text = rule_text(spec);
    assert forall|k: int| 0 <= k < text.len() implies is_rule_char(#[trigger] text[k]) by {
        let c = text[k];
        if !is_rule_char(c) {
            lemma_rule_text_plain(spec, c);
        }
    }
}

/// A character that rule text is not made of is not in the canonical text
/// of a valid rule.
proof fn lemma_rule_text_plain(spec: RecurrenceSpec, c: char)
    requires
        spec.is_valid(),
        !is_rule_char(c),
    ensures
        free_of(rule_text(spec), c),
{
    let f = spec.cadence.frequency();
    lemma_keys_plain(c);
    lemma_frequency_text(f);
    let field1 = field_text("FREQ"@, frequency_text(f));
    lemma_field_text_plain("FREQ"@, frequency_text(f), c);
    let field2 = field_text("INTERVAL"@, decimal_text(spec.interval as nat));
    lemma_decimal_text_plain(spec.interval as nat, c);
    lemma_field_text_plain("INTERVAL"@, decimal_text(spec.interval as nat), c);
    lemma_free_of_join(field1, seq![';'], c);
    lemma_free_of_join(field1 + seq![';'], field2, c);
    let head = field1 + seq![';'] + field2;
    match spec.cadence {
        Cadence::Daily => {},
        Cadence::Weekly { by_weekday } => {
            lemma_weekday_list_text_plain(by_weekday, c);
            lemma_field_text_plain("BYDAY"@, weekday_list_text(by_weekday), c);
            lemma_free_of_join(seq![';'], field_text("BYDAY"@, weekday_list_text(by_weekday)), c);
        },
        Cadence::Monthly { by_month_day } => {
            lemma_decimal_text_plain(by_month_day as nat, c);
            lemma_field_text_plain("BYMONTHDAY"@, decimal_text(by_month_day as nat), c);
            lemma_free_of_join(
                seq![';'],
                field_text("BYMONTHDAY"@, decimal_text(by_month_day as nat)),
                c,
            );
        },
    }
    lemma_free_of_join(head, cadence_text(spec.cadence), c);
    match spec.termination {
        Termination::Count(n) => {
            lemma_decimal_text_plain(n as nat, c);
            lemma_field_text_plain("COUNT"@, decimal_text(n as nat), c);
            lemma_free_of_join(seq![';'], field_text("COUNT"@, decimal_text(n as nat)), c);
        },
        Termination::Until(end) => {
            lemma_instant_text_plain(end, c);
            lemma_field_text_plain("UNTIL"@, instant_text(end), c);
            lemma_free_of_join(seq![';'], field_text("UNTIL"@, instant_text(end)), c);
        },
    }
    lemma_free_of_join(head + cadence_text(spec.cadence), termination_text(spec.termination), c);
}

/// Reading the canonical text of a valid rule, with the rule's own start,
/// gives the rule back.
pub proof fn lemma_round_trip(spec: RecurrenceSpec)
    requires
        spec.is_valid(),
    ensures
        parse_rule(rule_text(spec), spec.start) == Ok::<RecurrenceSpec, ParseError>(spec),
{
    let f = spec.cadence.frequency();
    lemma_keys_plain(';');

    // The frequency field, alone at the head of the text.
    let field1 = field_text("FREQ"@, frequency_text(f));
    lemma_frequency_text(f);
    lemma_field_text_plain("FREQ"@, frequency_text(f), ';');
    lemma_fields_of_single(field1);
    lemma_with_frequency(RuleFields::nothing(), f);
    let got1 = fields_of(field1);

    // The interval.
    let field2 = field_text("INTERVAL"@, decimal_text(spec.interval as nat));
    lemma_decimal_text_plain(spec.interval as nat, ';');
    lemma_field_text_plain("INTERVAL"@, decimal_text(spec.interval as nat), ';');
    lemma_fields_of_push(field1, field2);
    lemma_with_interval(got1, spec.interval);
    let text2 = field1 + seq![';'] + field2;
    let got2 = fields_of(text2);

    // The field of the frequency.
    let text3 = text2 + cadence_text(spec.cadence);
    let got3 = fields_of(text3);
    match spec.cadence {
        Cadence::Daily => {
            assert(text3 =~= text2);
        },
        Cadence::Weekly { by_weekday } => {
            let field3 = field_text("BYDAY"@, weekday_list_text(by_weekday));
            lemma_weekday_list_text_plain(by_weekday, ';');
            lemma_field_text_plain("BYDAY"@, weekday_list_text(by_weekday), ';');
            lemma_fields_of_push(text2, field3);
            lemma_with_weekdays(got2, by_weekday);
            assert(text3 =~= text2 + seq![';'] + field3);
        },
        Cadence::Monthly { by_month_day } => {
            let field3 = field_text("BYMONTHDAY"@, decimal_text(by_month_day as nat));
            lemma_decimal_text_plain(by_month_day as nat, ';');
            lemma_field_text_plain("BYMONTHDAY"@, decimal_text(by_month_day as nat), ';');
            lemma_fields_of_push(text2, field3);
            lemma_with_month_day(got2, by_month_day as u32);
            assert(text3 =~= text2 + seq![';'] + field3);
        },
    }
    assert(cadence_of_fields(got3) == Some(spec.cadence));
    assert(got3.count is None && got3.until is None && !got3.malformed);
    assert(got3.interval == Some(spec.interval));

    // The count or the end.
    let text4 = text3 + termination_text(spec.termination);
    let got4 = fields_of(text4);
    match spec.termination {
        Termination::Count(n) => {
            let field4 = field_text("COUNT"@, decimal_text(n as nat));
            lemma_decimal_text_plain(n as nat, ';');
            lemma_field_text_plain("COUNT"@, decimal_text(n as nat), ';');
            lemma_fields_of_push(text3, field4);
            lemma_with_count(got3, n);
            assert(text4 =~= text3 + seq![';'] + field4);
        },
        Termination::Until(end) => {
            let field4 = field_text("UNTIL"@, instant_text(end));
            lemma_instant_text_plain(end, ';');
            lemma_field_text_plain("UNTIL"@, instant_text(end), ';');
            lemma_fields_of_push(text3, field4);
            lemma_with_until(got3, end);
            assert(text4 =~= text3 + seq![';'] + field4);
        },
    }
    assert(text4 == rule_text(spec));
    assert(termination_of_fields(got4) == Some(spec.termination));
    assert(cadence_of_fields(got4) == Some(spec.cadence));
}

/// The name of a frequency as a string slice.
pub fn frequency_name(f: Frequency) -> (r: &'static str)
    ensures
        r@ == frequency_text(f),
{
    match f {
        Frequency::Daily => "DAILY",
        Frequency::Weekly => "WEEKLY",
        Frequency::Monthly => "MONTHLY",
    }
}

/// Executable form of [`parse_frequency`].
pub fn read_frequency(value: &Vec<char>) -> (r: Option<Frequency>)
    ensures
        r == parse_frequency(value@),
{
    if same_text(value, "DAILY") {
        Some(Frequency::Daily)
    } else if same_text(value, "WEEKLY") {
        Some(Frequency::Weekly)
    } else if same_text(value, "MONTHLY") {
        Some(Frequency::Monthly)
    } else {
        None
    }
}

/// Appends [`field_text`] of a key and nothing yet of its value.
fn append_key(out: &mut String, first: bool, key: &str)
    ensures
        final(out)@ == old(out)@ + (if first {
            Seq::<char>::empty()
        } else {
            seq![';']
        }) + key@ + seq!['='],
{
    proof {
        reveal_strlit(";");
        reveal_strlit("=");
        assert(";"@ =~= seq![';']);
        assert("="@ =~= seq!['=']);
    }
    if !first {
        out.append(";");
    }
    out.append(key);
    out.append("=");
    assert(final(out)@ =~= old(out)@ + (if first {
        Seq::<char>::empty()
    } else {
        seq![';']
    }) + key@ + seq!['=']);
}

/// Writes a rule as its canonical text.
pub fn serialize(spec: &RecurrenceSpec) -> (r: String)
    requires
        spec.is_valid(),
    ensures
        r@ == rule_text(*spec),
{
    let mut out = String::new();
    append_key(&mut out, true, "FREQ");
    out.append(frequency_name(spec.frequency()));
    append_key(&mut out, false, "INTERVAL");
    append_decimal(&mut out, spec.interval);
    let ghost head = out@;
    assert(head =~= field_text("FREQ"@, frequency_text(spec.cadence.frequency())) + seq![';']
        + field_text("INTERVAL"@, decimal_text(spec.interval as nat)));
    match spec.cadence {
        Cadence::Daily => {},
        Cadence::Weekly { by_weekday } => {
            append_key(&mut out, false, "BYDAY");
            append_weekday_list(&mut out, &by_weekday);
        },
        Cadence::Monthly { by_month_day } => {
            append_key(&mut out, false, "BYMONTHDAY");
            append_decimal(&mut out, by_month_day as u32);
        },
    }
    let ghost middle = out@;
    assert(middle =~= head + cadence_text(spec.cadence));
    match spec.termination {
        Termination::Count(n) => {
            append_key(&mut out, false, "COUNT");
            append_decimal(&mut out, n);
        },
        Termination::Until(end) => {
            append_key(&mut out, false, "UNTIL");
            append_instant(&mut out, &end);
        },
    }
    assert(out@ =~= middle + termination_text(spec.termination));
    out
}

/// Executable form of [`with_field`].
pub fn read_field(acc: RuleFields, field: &Vec<char>) -> (r: RuleFields)
    ensures
        r == with_field(acc, field@),
{
    let at = find_char(field, 0, '=');
    proof {
        lemma_first_index_of(field@, '=', at as int);
    }
    if at >= field.len() {
        return acc;
    }
    let key = slice_of(field, 0, at);
    let value = slice_of(field, at + 1, field.len());
    assert(key@ =~= field@.take(at as int));
    assert(value@ =~= field@.skip(at + 1));
    let mut next = acc;
    if same_text(&key, "FREQ") {
        match read_frequency(&value) {
            Some(f) if next.frequency.is_none() => {
                next.frequency = Some(f);
            },
            _ => {
                next.malformed = true;
            },
        }
    } else if same_text(&key, "INTERVAL") {
        match read_decimal(&value) {
            Some(n) if next.interval.is_none() => {
                next.interval = Some(n);
            },
            _ => {
                next.malformed = true;
            },
        }
    } else if same_text(&key, "BYDAY") {
        match read_weekday_list(&value) {
            Some(days) if next.by_weekday.is_none() => {
                next.by_weekday = Some(days);
            },
            _ => {
                next.malformed = true;
            },
        }
    } else if same_text(&key, "BYMONTHDAY") {
        match read_decimal(&value) {
            Some(n) if next.by_month_day.is_none() => {
                next.by_month_day = Some(n);
            },
            _ => {
                next.malformed = true;
            },
        }
    } else if same_text(&key, "COUNT") {
        match read_decimal(&value) {
            Some(n) if next.count.is_none() => {
                next.count = Some(n);
            },
            _ => {
                next.malformed = true;
            },
        }
    } else if same_text(&key, "UNTIL") {
        match read_instant(&value) {
            Some(end) if next.until.is_none() => {
                next.until = Some(end);
            },
            _ => {
                next.malformed = true;
            },
        }
    }
    next
}

/// Executable form of [`fields_of`].
pub fn read_fields(v: &Vec<char>) -> (r: RuleFields)
    ensures
        r == fields_of(v@),
{
    let nothing = RuleFields {
        frequency: None,
        interval: None,
        by_weekday: None,
        by_month_day: None,
        count: None,
        until: None,
        malformed: false,
    };
    let mut end = find_char(v, 0, ';');
    let first = slice_of(v, 0, end);
    proof {
        lemma_last_index_of(first@, ';', -1);
        assert(first@ =~= v@.take(end as int));
    }
    let mut acc = read_field(nothing, &first);
    while end < v.len()
        invariant
            end <= v.len(),
            end < v.len() ==> v@[end as int] == ';',
            acc == fields_of(v@.take(end as int)),
        decreases v.len() - end,
    {
        let mark = end;
        end = find_char(v, mark + 1, ';');
        let field = slice_of(v, mark + 1, end);
        proof {
            let head = v@.take(end as int);
            lemma_last_index_of(head, ';', mark as int);
            assert(head.take(mark as int) =~= v@.take(mark as int));
            assert(head.skip(mark + 1) =~= field@);
        }
        acc = read_field(acc, &field);
    }
    assert(v@.take(end as int) =~= v@);
    acc
}

/// Executable form of [`rule_of_fields`].
pub fn rule_from_fields(f: &RuleFields, start: Instant) -> (r: Result<RecurrenceSpec, ParseError>)
    ensures
        r == rule_of_fields(*f, start),
{
    if f.malformed {
        return Err(ParseError::MalformedRule);
    }
    let cadence = match (f.frequency, f.by_weekday, f.by_month_day) {
        (Some(Frequency::Daily), None, None) => Cadence::Daily,
        (Some(Frequency::Weekly), Some(days), None) => Cadence::Weekly { by_weekday: days },
        (Some(Frequency::Monthly), None, Some(n)) => {
            if n > 31 {
                return Err(ParseError::MalformedRule);
            }
            Cadence::Monthly { by_month_day: n as u8 }
        },
        _ => {
            return Err(ParseError::MalformedRule);
        },
    };
    let termination = match (f.count, f.until) {
        (Some(n), None) => Termination::Count(n),
        (None, Some(end)) => Termination::Until(end),
        _ => {
            return Err(ParseError::MalformedRule);
        },
    };
    let interval = match f.interval {
        Some(n) => n,
        None => {
            return Err(ParseError::MalformedRule);
        },
    };
    let spec = RecurrenceSpec { cadence, interval, termination, start };
    if spec.valid() {
        Ok(spec)
    } else {
        Err(ParseError::MalformedRule)
    }
}

/// Reads the rule of a schedule that starts at `start` from its text.
///
/// The fields may come in any order and fields with other keys may stand
/// among them. The start is taken as given: the text does not hold it.
pub fn parse(text: &str, start: Instant) -> (r: Result<RecurrenceSpec, ParseError>)
    ensures
        r == parse_rule(text@, start),
        r matches Ok(spec) ==> spec.is_valid() && spec.start == start,
{
    let v = chars_of(text);
    let fields = read_fields(&v);
    rule_from_fields(&fields, start)
}

} // verus!
