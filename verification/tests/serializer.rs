use workout_schedule::calendar::Date;
use workout_schedule::instant::Instant;
use workout_schedule::recurrence::{Cadence, RecurrenceSpec, Termination};
use workout_schedule::serializer::{parse, serialize, ParseError};
use workout_schedule::weekday::WeekdaySet;

fn at(year: u16, month: u8, day: u8, hour: u8, minute: u8, second: u8, offset_minutes: i16) -> Instant {
    Instant { date: Date { year, month, day }, hour, minute, second, offset_minutes }
}

fn start() -> Instant {
    at(2024, 3, 1, 0, 0, 0, 60)
}

fn monday_wednesday() -> WeekdaySet {
    WeekdaySet { monday: true, wednesday: true, ..WeekdaySet::empty() }
}

fn weekly() -> RecurrenceSpec {
    RecurrenceSpec {
        cadence: Cadence::Weekly { by_weekday: monday_wednesday() },
        interval: 1,
        termination: Termination::Count(10),
        start: start(),
    }
}

fn monthly_until() -> RecurrenceSpec {
    RecurrenceSpec {
        cadence: Cadence::Monthly { by_month_day: 31 },
        interval: 2,
        termination: Termination::Until(at(2024, 12, 31, 0, 0, 0, 60)),
        start: start(),
    }
}

fn daily() -> RecurrenceSpec {
    RecurrenceSpec {
        cadence: Cadence::Daily,
        interval: 3,
        termination: Termination::Count(5),
        start: start(),
    }
}

const MALFORMED: Result<RecurrenceSpec, ParseError> = Err(ParseError::MalformedRule);

#[test]
fn writes_a_weekly_rule() {
    assert_eq!(serialize(&weekly()), "FREQ=WEEKLY;INTERVAL=1;BYDAY=MO,WE;COUNT=10");
}

#[test]
fn writes_a_monthly_rule_with_an_end() {
    assert_eq!(
        serialize(&monthly_until()),
        "FREQ=MONTHLY;INTERVAL=2;BYMONTHDAY=31;UNTIL=2024-12-31T00:00:00+01:00"
    );
}

#[test]
fn writes_a_daily_rule() {
    assert_eq!(serialize(&daily()), "FREQ=DAILY;INTERVAL=3;COUNT=5");
}

#[test]
fn writes_all_weekdays_in_calendar_order() {
    let all = WeekdaySet {
        monday: true,
        tuesday: true,
        wednesday: true,
        thursday: true,
        friday: true,
        saturday: true,
        sunday: true,
    };
    let spec = RecurrenceSpec { cadence: Cadence::Weekly { by_weekday: all }, ..weekly() };
    assert_eq!(serialize(&spec), "FREQ=WEEKLY;INTERVAL=1;BYDAY=MO,TU,WE,TH,FR,SA,SU;COUNT=10");
    let sunday = WeekdaySet { sunday: true, ..WeekdaySet::empty() };
    let spec = RecurrenceSpec { cadence: Cadence::Weekly { by_weekday: sunday }, ..weekly() };
    assert_eq!(serialize(&spec), "FREQ=WEEKLY;INTERVAL=1;BYDAY=SU;COUNT=10");
}

#[test]
fn writes_the_end_in_its_zone() {
    let spec = RecurrenceSpec {
        termination: Termination::Until(at(2031, 1, 9, 23, 5, 59, -570)),
        ..daily()
    };
    assert_eq!(serialize(&spec), "FREQ=DAILY;INTERVAL=3;UNTIL=2031-01-09T23:05:59-09:30");
    let spec = RecurrenceSpec {
        termination: Termination::Until(at(2024, 3, 1, 0, 0, 0, 0)),
        start: at(2024, 3, 1, 0, 0, 0, 0),
        ..daily()
    };
    assert_eq!(serialize(&spec), "FREQ=DAILY;INTERVAL=3;UNTIL=2024-03-01T00:00:00+00:00");
}

#[test]
fn writes_large_numbers_in_full() {
    let spec = RecurrenceSpec {
        interval: u32::MAX,
        termination: Termination::Count(1_000_000),
        ..daily()
    };
    assert_eq!(serialize(&spec), "FREQ=DAILY;INTERVAL=4294967295;COUNT=1000000");
}

#[test]
fn reading_what_was_written_gives_the_rule_back() {
    for spec in [weekly(), monthly_until(), daily()] {
        assert!(spec.valid());
        assert_eq!(parse(&serialize(&spec), spec.start), Ok(spec));
    }
}

#[test]
fn reads_fields_in_any_order() {
    assert_eq!(parse("COUNT=10;BYDAY=WE,MO;INTERVAL=1;FREQ=WEEKLY", start()), Ok(weekly()));
    assert_eq!(
        parse("UNTIL=2024-12-31T00:00:00+01:00;FREQ=MONTHLY;BYMONTHDAY=31;INTERVAL=2", start()),
        Ok(monthly_until())
    );
}

#[test]
fn passes_over_unknown_keys() {
    assert_eq!(
        parse("FREQ=DAILY;WKST=MO;INTERVAL=3;X-NOTE=a=b;COUNT=5;BYSETPOS=1", start()),
        Ok(daily())
    );
    assert_eq!(parse("FREQ=DAILY;INTERVAL=3;COUNT=5;", start()), Ok(daily()));
    assert_eq!(parse(";FREQ=DAILY;;INTERVAL=3;note;COUNT=5", start()), Ok(daily()));
}

#[test]
fn reads_a_repeated_weekday_once() {
    assert_eq!(parse("FREQ=WEEKLY;INTERVAL=1;BYDAY=MO,WE,MO;COUNT=10", start()), Ok(weekly()));
}

#[test]
fn reads_an_end_in_utc_written_with_z() {
    let spec = parse("FREQ=DAILY;INTERVAL=1;UNTIL=2024-03-02T10:30:00Z", start()).unwrap();
    assert_eq!(spec.termination, Termination::Until(at(2024, 3, 2, 10, 30, 0, 0)));
}

#[test]
fn rule_without_frequency_is_malformed() {
    assert_eq!(parse("INTERVAL=1;COUNT=5", start()), MALFORMED);
    assert_eq!(parse("", start()), MALFORMED);
    assert_eq!(parse("FREQ=YEARLY;INTERVAL=1;COUNT=5", start()), MALFORMED);
    assert_eq!(parse("FREQ=daily;INTERVAL=1;COUNT=5", start()), MALFORMED);
    assert_eq!(parse("freq=DAILY;INTERVAL=1;COUNT=5", start()), MALFORMED);
}

#[test]
fn weekdays_with_a_monthly_rule_are_malformed() {
    assert_eq!(parse("FREQ=MONTHLY;INTERVAL=1;BYDAY=MO;COUNT=5", start()), MALFORMED);
    assert_eq!(parse("FREQ=MONTHLY;INTERVAL=1;BYDAY=MO;BYMONTHDAY=3;COUNT=5", start()), MALFORMED);
    assert_eq!(parse("FREQ=WEEKLY;INTERVAL=1;BYMONTHDAY=3;COUNT=5", start()), MALFORMED);
    assert_eq!(parse("FREQ=WEEKLY;INTERVAL=1;BYDAY=MO;BYMONTHDAY=3;COUNT=5", start()), MALFORMED);
    assert_eq!(parse("FREQ=DAILY;INTERVAL=1;BYDAY=MO;COUNT=5", start()), MALFORMED);
    assert_eq!(parse("FREQ=DAILY;INTERVAL=1;BYMONTHDAY=3;COUNT=5", start()), MALFORMED);
}

#[test]
fn rule_without_its_own_field_is_malformed() {
    assert_eq!(parse("FREQ=WEEKLY;INTERVAL=1;COUNT=5", start()), MALFORMED);
    assert_eq!(parse("FREQ=MONTHLY;INTERVAL=1;COUNT=5", start()), MALFORMED);
    assert_eq!(parse("FREQ=WEEKLY;INTERVAL=1;BYDAY=;COUNT=5", start()), MALFORMED);
}

#[test]
fn rule_needs_exactly_one_way_to_end() {
    assert_eq!(parse("FREQ=DAILY;INTERVAL=1", start()), MALFORMED);
    assert_eq!(
        parse("FREQ=DAILY;INTERVAL=1;COUNT=5;UNTIL=2024-12-31T00:00:00+01:00", start()),
        MALFORMED
    );
}

#[test]
fn rule_without_interval_is_malformed() {
    assert_eq!(parse("FREQ=DAILY;COUNT=5", start()), MALFORMED);
}

#[test]
fn field_given_twice_is_malformed() {
    assert_eq!(parse("FREQ=DAILY;FREQ=DAILY;INTERVAL=1;COUNT=5", start()), MALFORMED);
    assert_eq!(parse("FREQ=DAILY;INTERVAL=1;INTERVAL=1;COUNT=5", start()), MALFORMED);
    assert_eq!(parse("FREQ=DAILY;INTERVAL=1;COUNT=5;COUNT=5", start()), MALFORMED);
}

#[test]
fn values_that_cannot_be_read_are_malformed() {
    for text in [
        "FREQ=DAILY;INTERVAL=0;COUNT=5",
        "FREQ=DAILY;INTERVAL=-1;COUNT=5",
        "FREQ=DAILY;INTERVAL=;COUNT=5",
        "FREQ=DAILY;INTERVAL=1;COUNT=0",
        "FREQ=DAILY;INTERVAL=1;COUNT=five",
        "FREQ=DAILY;INTERVAL=1;COUNT=4294967296",
        "FREQ=MONTHLY;INTERVAL=1;BYMONTHDAY=0;COUNT=5",
        "FREQ=MONTHLY;INTERVAL=1;BYMONTHDAY=32;COUNT=5",
        "FREQ=MONTHLY;INTERVAL=1;BYMONTHDAY=-1;COUNT=5",
        "FREQ=MONTHLY;INTERVAL=1;BYMONTHDAY=1,15;COUNT=5",
        "FREQ=WEEKLY;INTERVAL=1;BYDAY=MO,;COUNT=5",
        "FREQ=WEEKLY;INTERVAL=1;BYDAY=,MO;COUNT=5",
        "FREQ=WEEKLY;INTERVAL=1;BYDAY=MO TU;COUNT=5",
        "FREQ=WEEKLY;INTERVAL=1;BYDAY=mo;COUNT=5",
        "FREQ=WEEKLY;INTERVAL=1;BYDAY=1MO;COUNT=5",
        "FREQ=WEEKLY;INTERVAL=1;BYDAY=MON;COUNT=5",
        "FREQ=DAILY;INTERVAL=1;UNTIL=2024-12-31",
        "FREQ=DAILY;INTERVAL=1;UNTIL=20241231T000000Z",
        "FREQ=DAILY;INTERVAL=1;UNTIL=2024-02-30T00:00:00+01:00",
        "FREQ=DAILY;INTERVAL=1;UNTIL=2024-12-31T24:00:00+01:00",
        "FREQ=DAILY;INTERVAL=1;UNTIL=2024-12-31T00:60:00+01:00",
        "FREQ=DAILY;INTERVAL=1;UNTIL=2024-12-31T00:00:60+01:00",
        "FREQ=DAILY;INTERVAL=1;UNTIL=2024-12-31T00:00:00+24:00",
        "FREQ=DAILY;INTERVAL=1;UNTIL=2024-12-31T00:00:00+01:60",
        "FREQ=DAILY;INTERVAL=1;UNTIL=2024-12-31T00:00:00 01:00",
        "FREQ=DAILY;INTERVAL=1;UNTIL=2024-12-31 00:00:00+01:00",
        "FREQ=DAILY;INTERVAL=1;UNTIL=2024-12-31T00:00:00+01:00Z",
    ] {
        assert_eq!(parse(text, start()), MALFORMED, "text {:?}", text);
    }
}

#[test]
fn end_before_the_start_is_malformed() {
    assert_eq!(
        parse("FREQ=DAILY;INTERVAL=1;UNTIL=2024-02-29T23:59:59+01:00", start()),
        MALFORMED
    );
    // The same moment in another zone is not before the start.
    let spec = parse("FREQ=DAILY;INTERVAL=1;UNTIL=2024-02-29T23:00:00+00:00", start()).unwrap();
    assert_eq!(spec.termination, Termination::Until(at(2024, 2, 29, 23, 0, 0, 0)));
    assert_eq!(
        parse("FREQ=DAILY;INTERVAL=1;UNTIL=2024-02-29T22:59:59+00:00", start()),
        MALFORMED
    );
}

#[test]
fn start_that_is_no_instant_is_malformed() {
    assert_eq!(parse("FREQ=DAILY;INTERVAL=3;COUNT=5", at(2024, 2, 30, 0, 0, 0, 0)), MALFORMED);
    assert_eq!(parse("FREQ=DAILY;INTERVAL=3;COUNT=5", at(2024, 3, 1, 24, 0, 0, 0)), MALFORMED);
}

#[test]
fn the_start_is_taken_as_given() {
    let other = at(1999, 12, 31, 18, 30, 0, -300);
    let spec = parse("FREQ=DAILY;INTERVAL=3;COUNT=5", other).unwrap();
    assert_eq!(spec, RecurrenceSpec { start: other, ..daily() });
}
