use chrono::{Datelike, Duration, FixedOffset, NaiveDate, TimeZone};
use workout_schedule::calendar::Date;
use workout_schedule::expander::expand;
use workout_schedule::instant::Instant;
use workout_schedule::recurrence::{Cadence, RecurrenceSpec, Termination};
use workout_schedule::serializer::{parse, serialize};
use workout_schedule::weekday::{Weekday, WeekdaySet};

fn instant(date: (u16, u8, u8), time: (u8, u8, u8), offset_minutes: i16) -> Instant {
    Instant::new(
        Date::new(date.0, date.1, date.2).expect("a date"),
        time.0,
        time.1,
        time.2,
        offset_minutes,
    )
    .expect("an instant")
}

fn seconds(i: &Instant) -> i64 {
    let zone = FixedOffset::east_opt(i.offset_minutes as i32 * 60).unwrap();
    let local = NaiveDate::from_ymd_opt(i.date.year as i32, i.date.month as u32, i.date.day as u32)
        .unwrap()
        .and_hms_opt(i.hour as u32, i.minute as u32, i.second as u32)
        .unwrap();
    zone.from_local_datetime(&local).unwrap().timestamp()
}

fn subset(bits: u8) -> WeekdaySet {
    let mut set = WeekdaySet::empty();
    for i in 0..7u8 {
        if bits & (1 << i) != 0 {
            set.insert(Weekday::from_index(i));
        }
    }
    set
}

/// The occurrences by the definition, day by day with `chrono`, over the
/// `days` days from the start.
fn day_by_day(spec: &RecurrenceSpec, from: &Instant, to: &Instant, days: i64) -> Vec<Instant> {
    let start = spec.start;
    let first =
        NaiveDate::from_ymd_opt(start.date.year as i32, start.date.month as u32, start.date.day as u32)
            .unwrap();
    let first_monday = first - Duration::days(first.weekday().num_days_from_monday() as i64);
    let mut seen = 0u32;
    let mut found = Vec::new();
    for k in 0..days {
        let day = first + Duration::days(k);
        let reached = match spec.cadence {
            Cadence::Daily => k % spec.interval as i64 == 0,
            Cadence::Weekly { by_weekday } => {
                let weeks = (day - first_monday).num_days() / 7;
                weeks % spec.interval as i64 == 0
                    && by_weekday.has(Weekday::from_index(day.weekday().num_days_from_monday() as u8))
            }
            Cadence::Monthly { by_month_day } => {
                let months = (day.year() - first.year()) as i64 * 12 + day.month() as i64
                    - first.month() as i64;
                months % spec.interval as i64 == 0 && day.day() == by_month_day as u32
            }
        };
        if !reached {
            continue;
        }
        seen += 1;
        let here = Instant {
            date: Date { year: day.year() as u16, month: day.month() as u8, day: day.day() as u8 },
            ..start
        };
        let admitted = match spec.termination {
            Termination::Count(count) => seen <= count,
            Termination::Until(end) => seconds(&here) <= seconds(&end),
        };
        if admitted && seconds(from) <= seconds(&here) && seconds(&here) <= seconds(to) {
            found.push(here);
        }
    }
    found
}

fn cadences() -> Vec<Cadence> {
    let mut all = vec![Cadence::Daily];
    for bits in [1u8, 2, 5, 64, 65, 42, 127] {
        all.push(Cadence::Weekly { by_weekday: subset(bits) });
    }
    for day in [1u8, 15, 28, 29, 30, 31] {
        all.push(Cadence::Monthly { by_month_day: day });
    }
    all
}

fn compare_from(start: Instant) {
    let windows = [
        (Instant::earliest(), Instant::latest()),
        (instant((2024, 3, 1), (0, 0, 0), 0), instant((2024, 9, 30), (12, 0, 0), 0)),
        (instant((2025, 1, 1), (0, 0, 0), 60), instant((2024, 1, 1), (0, 0, 0), 60)),
    ];
    let until_a = instant((2024, 12, 31), (23, 59, 59), 0);
    let until_b = Instant { date: Date { year: 2024, month: 5, day: 15 }, ..start };
    let mut compared = 0;
    for cadence in cadences() {
        for interval in [1u32, 2, 3, 12, 13] {
            for termination in [
                Termination::Count(1),
                Termination::Count(5),
                Termination::Until(until_a),
                Termination::Until(until_b),
                Termination::Until(start),
            ] {
                let spec = RecurrenceSpec { cadence, interval, termination, start };
                assert!(spec.valid());
                for (from, to) in &windows {
                    let ours = expand(&spec, from, to);
                    let theirs = day_by_day(&spec, from, to, 9000);
                    assert_eq!(ours, theirs, "{:?} in {:?} to {:?}", spec, from, to);
                    compared += 1;
                }
            }
        }
    }
    assert_eq!(compared, 14 * 5 * 5 * 3);
}

#[test]
fn expansion_is_the_definition_day_by_day_from_new_years_eve() {
    compare_from(instant((2023, 12, 31), (0, 0, 0), 0));
}

#[test]
fn expansion_is_the_definition_day_by_day_from_a_leap_day() {
    compare_from(instant((2024, 2, 29), (18, 30, 0), -300));
}

#[test]
fn expansion_is_the_definition_day_by_day_from_a_wednesday_night() {
    compare_from(instant((2024, 3, 6), (23, 59, 59), 765));
}

#[test]
fn every_rule_is_read_back_from_its_text() {
    let start = instant((2024, 2, 29), (18, 30, 0), -300);
    let mut cadences = vec![Cadence::Daily];
    for bits in 1..128u8 {
        cadences.push(Cadence::Weekly { by_weekday: subset(bits) });
    }
    for day in 1..=31u8 {
        cadences.push(Cadence::Monthly { by_month_day: day });
    }
    let terminations = [
        Termination::Count(1),
        Termination::Count(10),
        Termination::Count(u32::MAX),
        Termination::Until(start),
        Termination::Until(instant((2024, 3, 2), (0, 0, 0), 1439)),
        Termination::Until(instant((9999, 12, 31), (23, 59, 59), -1439)),
        Termination::Until(instant((2031, 10, 9), (7, 8, 9), 5)),
    ];
    for cadence in cadences {
        for interval in [1u32, 9, 10, 99, 100, 65_535, u32::MAX] {
            for termination in terminations {
                let spec = RecurrenceSpec { cadence, interval, termination, start };
                assert!(spec.valid());
                let text = serialize(&spec);
                assert_eq!(parse(&text, start), Ok(spec), "{}", text);
                assert!(!text.contains(' ') && !text.contains('\n'));
            }
        }
    }
}

#[test]
fn occurrences_are_ascending_and_inside_the_window() {
    let start = instant((2024, 1, 31), (6, 0, 0), 120);
    let from = instant((2024, 2, 1), (0, 0, 0), 0);
    let to = instant((2026, 2, 1), (0, 0, 0), 0);
    for cadence in cadences() {
        let spec = RecurrenceSpec { cadence, interval: 2, termination: Termination::Count(400), start };
        let found = expand(&spec, &from, &to);
        assert!(!found.is_empty());
        for pair in found.windows(2) {
            assert!(pair[0].to_timestamp() < pair[1].to_timestamp());
        }
        for i in &found {
            assert!(i.valid());
            assert!(from.not_after(i) && i.not_after(&to) && start.not_after(i));
            assert_eq!((i.hour, i.minute, i.second, i.offset_minutes), (6, 0, 0, 120));
        }
    }
}
