use workout_schedule::calendar::Date;
use workout_schedule::instant::Instant;
use workout_schedule::recurrence::{Cadence, RecurrenceSpec, Termination};
use workout_schedule::schedule::{
    authorize, prepare_commit, stored_occurrences, Refusal, TemplateId, UserId,
};
use workout_schedule::serializer::ParseError;

fn noon(year: u16, month: u8, day: u8) -> Instant {
    Instant::new(Date::new(year, month, day).unwrap(), 12, 0, 0, -300).unwrap()
}

fn every_other_day() -> RecurrenceSpec {
    RecurrenceSpec {
        cadence: Cadence::Daily,
        interval: 2,
        termination: Termination::Count(3),
        start: noon(2024, 3, 1),
    }
}

#[test]
fn nobody_logged_in_is_refused() {
    assert_eq!(authorize(None), Err(Refusal::NotLoggedIn));
    assert_eq!(authorize(Some(UserId(7))), Ok(UserId(7)));
    assert!(matches!(
        prepare_commit(None, TemplateId(3), &every_other_day()),
        Err(Refusal::NotLoggedIn)
    ));
}

#[test]
fn commit_hands_the_store_the_rule_text_and_the_start() {
    let request = prepare_commit(Some(UserId(7)), TemplateId(3), &every_other_day()).unwrap();
    assert_eq!(request.user_id, UserId(7));
    assert_eq!(request.template_id, TemplateId(3));
    assert_eq!(request.start, noon(2024, 3, 1));
    assert_eq!(request.rule, "FREQ=DAILY;INTERVAL=2;COUNT=3");
}

#[test]
fn stored_rule_shows_its_occurrences_in_the_window() {
    let got = stored_occurrences(
        "FREQ=DAILY;INTERVAL=2;COUNT=3",
        noon(2024, 3, 1),
        &noon(2024, 3, 2),
        &noon(2024, 3, 31),
    );
    assert_eq!(got, Ok(vec![noon(2024, 3, 3), noon(2024, 3, 5)]));
}

#[test]
fn stored_text_that_is_no_rule_gives_its_error() {
    let got = stored_occurrences("", noon(2024, 3, 1), &noon(2024, 3, 2), &noon(2024, 3, 31));
    assert_eq!(got, Err(ParseError::MalformedRule));
}

#[test]
fn occurrences_keep_the_time_and_zone_of_the_start() {
    let got = stored_occurrences(
        "FREQ=WEEKLY;INTERVAL=1;BYDAY=SA;UNTIL=2024-03-16T17:00:00+00:00",
        noon(2024, 3, 1),
        &Instant::earliest(),
        &Instant::latest(),
    );
    // Noon at five hours behind UTC is 17:00 UTC: the occurrence at the end is kept.
    assert_eq!(got, Ok(vec![noon(2024, 3, 2), noon(2024, 3, 9), noon(2024, 3, 16)]));
    let got = stored_occurrences(
        "FREQ=WEEKLY;INTERVAL=1;BYDAY=SA;UNTIL=2024-03-16T16:59:59+00:00",
        noon(2024, 3, 1),
        &Instant::earliest(),
        &Instant::latest(),
    );
    assert_eq!(got, Ok(vec![noon(2024, 3, 2), noon(2024, 3, 9)]));
}
