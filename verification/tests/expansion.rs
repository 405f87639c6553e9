use workout_schedule::builder::{build, EndType, RawParams};
use workout_schedule::calendar::Date;
use workout_schedule::expander::expand;
use workout_schedule::instant::Instant;
use workout_schedule::recurrence::{Frequency, RecurrenceSpec};

fn raw(
    frequency: Frequency,
    interval: &str,
    weekdays: &[&str],
    month_day: i64,
    count: Option<&str>,
    end_date: Option<&str>,
    start_date: &str,
) -> RawParams {
    RawParams {
        frequency,
        interval: interval.to_string(),
        weekdays: weekdays.iter().map(|d| d.to_string()).collect(),
        month_day,
        end_type: if count.is_some() { EndType::Occurences } else { EndType::EndDate },
        count: count.unwrap_or("1").to_string(),
        end_date: end_date.map(|d| d.to_string()),
        start_date: Some(start_date.to_string()),
        utc_offset_minutes: 60,
    }
}

fn rule(params: RawParams) -> RecurrenceSpec {
    build(&params).expect("a valid rule")
}

fn day(year: u16, month: u8, day: u8) -> Instant {
    Instant::new(Date::new(year, month, day).expect("a date"), 0, 0, 0, 60).expect("an instant")
}

fn first_instant() -> Instant {
    Instant::new(Date::new(1, 1, 1).unwrap(), 0, 0, 0, 1439).unwrap()
}

fn last_instant() -> Instant {
    Instant::new(Date::new(9999, 12, 31).unwrap(), 23, 59, 59, -1439).unwrap()
}

#[test]
fn weekly_on_monday_and_wednesday() {
    let spec = rule(raw(Frequency::Weekly, "1", &["monday", "wednesday"], 1, Some("100"), None, "2024-03-04"));
    let got = expand(&spec, &day(2024, 3, 4), &day(2024, 3, 18));
    assert_eq!(
        got,
        vec![day(2024, 3, 4), day(2024, 3, 6), day(2024, 3, 11), day(2024, 3, 13), day(2024, 3, 18)]
    );
}

#[test]
fn monthly_on_the_31st_skips_short_months() {
    let spec = rule(raw(Frequency::Monthly, "1", &[], 31, Some("100"), None, "2024-01-31"));
    let got = expand(&spec, &day(2024, 1, 1), &day(2024, 4, 30));
    assert_eq!(got, vec![day(2024, 1, 31), day(2024, 3, 31)]);
}

#[test]
fn count_gives_that_many_occurrences() {
    let spec = rule(raw(Frequency::Daily, "3", &[], 1, Some("10"), None, "2024-03-01"));
    let got = expand(&spec, &first_instant(), &last_instant());
    assert_eq!(got.len(), 10);
    assert_eq!(got[0], day(2024, 3, 1));
    assert_eq!(got[1], day(2024, 3, 4));
    assert_eq!(got[9], day(2024, 3, 28));
}

#[test]
fn count_is_taken_from_the_start_not_from_the_window() {
    let spec = rule(raw(Frequency::Daily, "1", &[], 1, Some("5"), None, "2024-03-01"));
    let got = expand(&spec, &day(2024, 3, 4), &day(2024, 3, 31));
    assert_eq!(got, vec![day(2024, 3, 4), day(2024, 3, 5)]);
}

#[test]
fn until_includes_an_occurrence_on_the_end() {
    let spec = rule(raw(Frequency::Daily, "2", &[], 1, None, Some("2024-03-05"), "2024-03-01"));
    let got = expand(&spec, &first_instant(), &last_instant());
    assert_eq!(got, vec![day(2024, 3, 1), day(2024, 3, 3), day(2024, 3, 5)]);
}

#[test]
fn until_excludes_what_comes_after_the_end() {
    let spec = rule(raw(Frequency::Daily, "2", &[], 1, None, Some("2024-03-04"), "2024-03-01"));
    let got = expand(&spec, &first_instant(), &last_instant());
    assert_eq!(got, vec![day(2024, 3, 1), day(2024, 3, 3)]);
}

#[test]
fn expanding_twice_gives_the_same() {
    let spec = rule(raw(Frequency::Weekly, "2", &["fri", "SUNDAY"], 1, Some("7"), None, "2024-02-29"));
    let a = expand(&spec, &day(2024, 1, 1), &day(2024, 12, 31));
    let b = expand(&spec, &day(2024, 1, 1), &day(2024, 12, 31));
    assert_eq!(a, b);
    assert_eq!(a.len(), 7);
}

#[test]
fn every_second_week_counts_weeks_from_the_week_of_the_start() {
    // 2024-03-06 is a Wednesday; its week runs from Monday 2024-03-04.
    let spec = rule(raw(Frequency::Weekly, "2", &["monday", "friday"], 1, Some("4"), None, "2024-03-06"));
    let got = expand(&spec, &first_instant(), &last_instant());
    assert_eq!(got, vec![day(2024, 3, 8), day(2024, 3, 18), day(2024, 3, 22), day(2024, 4, 1)]);
}

#[test]
fn monthly_on_the_29th_of_february_only() {
    let spec = rule(raw(Frequency::Monthly, "12", &[], 29, Some("3"), None, "2023-02-01"));
    let got = expand(&spec, &first_instant(), &last_instant());
    assert_eq!(got, vec![day(2024, 2, 29), day(2028, 2, 29), day(2032, 2, 29)]);
}

#[test]
fn monthly_day_that_never_comes_gives_nothing() {
    let spec = rule(raw(Frequency::Monthly, "12", &[], 30, Some("3"), None, "2024-02-10"));
    let got = expand(&spec, &first_instant(), &last_instant());
    assert!(got.is_empty());
}

#[test]
fn monthly_before_the_start_day_is_left_out() {
    let spec = rule(raw(Frequency::Monthly, "1", &[], 5, Some("2"), None, "2024-01-31"));
    let got = expand(&spec, &first_instant(), &last_instant());
    assert_eq!(got, vec![day(2024, 2, 5), day(2024, 3, 5)]);
}

#[test]
fn rule_at_the_end_of_the_calendar_stops_there() {
    let spec = rule(raw(Frequency::Daily, "1", &[], 1, Some("5"), None, "9999-12-30"));
    let got = expand(&spec, &first_instant(), &last_instant());
    assert_eq!(got, vec![day(9999, 12, 30), day(9999, 12, 31)]);
}

#[test]
fn window_before_the_start_is_empty() {
    let spec = rule(raw(Frequency::Daily, "1", &[], 1, Some("5"), None, "2024-03-10"));
    let got = expand(&spec, &day(2024, 1, 1), &day(2024, 3, 9));
    assert!(got.is_empty());
}
