use chrono::{Datelike, NaiveDate, TimeZone, Timelike};
use rrule::{NWeekday, RRule, Tz};
use workout_schedule::calendar::{Date, DAY_COUNT};
use workout_schedule::expander::expand;
use workout_schedule::instant::{append_instant, Instant};
use workout_schedule::recurrence::{Cadence, RecurrenceSpec, Termination};
use workout_schedule::weekday::WeekdaySet;

fn utc_midnight(year: u16, month: u8, day: u8) -> Instant {
    Instant::new(Date::new(year, month, day).unwrap(), 0, 0, 0, 0).unwrap()
}

fn civil(found: &[Instant]) -> Vec<(i32, u32, u32, u32, u32, u32)> {
    found
        .iter()
        .map(|i| {
            (
                i.date.year as i32,
                i.date.month as u32,
                i.date.day as u32,
                i.hour as u32,
                i.minute as u32,
                i.second as u32,
            )
        })
        .collect()
}

fn by_rrule(rule: RRule<rrule::Unvalidated>, start: (i32, u32, u32)) -> Vec<(i32, u32, u32, u32, u32, u32)> {
    let start = Tz::UTC.with_ymd_and_hms(start.0, start.1, start.2, 0, 0, 0).unwrap();
    let set = rule.build(start).expect("a rule that rrule accepts");
    let result = set.all(5000);
    assert!(!result.limited);
    result
        .dates
        .iter()
        .map(|d| (d.year(), d.month(), d.day(), d.hour(), d.minute(), d.second()))
        .collect()
}

#[test]
fn day_numbers_agree_with_chrono() {
    let mut n = 0;
    while n < DAY_COUNT {
        let date = Date::from_day_number(n);
        let theirs =
            NaiveDate::from_ymd_opt(date.year as i32, date.month as u32, date.day as u32).unwrap();
        assert_eq!(theirs.num_days_from_ce() as u32, n + 1);
        assert_eq!(theirs.weekday().num_days_from_monday() as u8, date.weekday_index());
        n += 97;
    }
}

#[test]
fn instant_text_is_read_by_chrono_as_the_same_moment() {
    for (instant, second_of_unix) in [
        (Instant::new(Date::new(1970, 1, 1).unwrap(), 0, 0, 0, 0).unwrap(), 0i64),
        (Instant::new(Date::new(2024, 3, 1).unwrap(), 0, 0, 0, 60).unwrap(), 1_709_247_600),
        (Instant::new(Date::new(2024, 12, 31).unwrap(), 23, 59, 59, -570).unwrap(), 1_735_723_799),
    ] {
        let mut text = String::new();
        append_instant(&mut text, &instant);
        let theirs = chrono::DateTime::parse_from_rfc3339(&text).unwrap();
        assert_eq!(theirs.timestamp(), second_of_unix);
        assert_eq!(instant.to_timestamp() - 719_162 * 86_400, second_of_unix);
        assert_eq!(theirs.offset().local_minus_utc(), instant.offset_minutes as i32 * 60);
    }
}

#[test]
fn weekly_expansion_agrees_with_rrule() {
    let days = WeekdaySet { monday: true, wednesday: true, sunday: true, ..WeekdaySet::empty() };
    for interval in [1u16, 2, 3, 5] {
        let spec = RecurrenceSpec {
            cadence: Cadence::Weekly { by_weekday: days },
            interval: interval as u32,
            termination: Termination::Count(40),
            start: utc_midnight(2024, 2, 28),
        };
        let ours = expand(&spec, &Instant::earliest(), &Instant::latest());
        let rule = RRule::new(rrule::Frequency::Weekly)
            .interval(interval)
            .count(40)
            .by_weekday(vec![
                NWeekday::Every(chrono::Weekday::Mon),
                NWeekday::Every(chrono::Weekday::Wed),
                NWeekday::Every(chrono::Weekday::Sun),
            ]);
        assert_eq!(civil(&ours), by_rrule(rule, (2024, 2, 28)));
        assert_eq!(ours.len(), 40);
    }
}

#[test]
fn daily_expansion_agrees_with_rrule() {
    for interval in [1u16, 7, 30, 365] {
        let spec = RecurrenceSpec {
            cadence: Cadence::Daily,
            interval: interval as u32,
            termination: Termination::Count(25),
            start: utc_midnight(2023, 12, 25),
        };
        let ours = expand(&spec, &Instant::earliest(), &Instant::latest());
        let rule = RRule::new(rrule::Frequency::Daily).interval(interval).count(25);
        assert_eq!(civil(&ours), by_rrule(rule, (2023, 12, 25)));
    }
}

#[test]
fn monthly_expansion_agrees_with_rrule() {
    for (day, interval) in [(31u8, 1u16), (30, 1), (29, 1), (29, 12), (15, 5), (1, 2)] {
        let spec = RecurrenceSpec {
            cadence: Cadence::Monthly { by_month_day: day },
            interval: interval as u32,
            termination: Termination::Count(12),
            start: utc_midnight(2023, 1, 20),
        };
        let ours = expand(&spec, &Instant::earliest(), &Instant::latest());
        let rule = RRule::new(rrule::Frequency::Monthly)
            .interval(interval)
            .count(12)
            .by_month_day(vec![day as i8]);
        assert_eq!(civil(&ours), by_rrule(rule, (2023, 1, 20)), "day {} every {}", day, interval);
    }
}

#[test]
fn expansion_until_an_end_agrees_with_rrule() {
    let spec = RecurrenceSpec {
        cadence: Cadence::Weekly { by_weekday: WeekdaySet { friday: true, ..WeekdaySet::empty() } },
        interval: 2,
        termination: Termination::Until(utc_midnight(2024, 6, 28)),
        start: utc_midnight(2024, 3, 1),
    };
    let ours = expand(&spec, &Instant::earliest(), &Instant::latest());
    let rule = RRule::new(rrule::Frequency::Weekly)
        .interval(2)
        .until(Tz::UTC.with_ymd_and_hms(2024, 6, 28, 0, 0, 0).unwrap())
        .by_weekday(vec![NWeekday::Every(chrono::Weekday::Fri)]);
    let theirs = by_rrule(rule, (2024, 3, 1));
    assert_eq!(civil(&ours), theirs);
    assert_eq!(theirs.first(), Some(&(2024, 3, 1, 0, 0, 0)));
    assert_eq!(theirs.last(), Some(&(2024, 6, 21, 0, 0, 0)));
}
