//! From the raw state of a schedule form to a valid recurrence
//! specification, or to the reason why there is none.

use vstd::prelude::*;
use vstd::string::*;
use crate::calendar::Date;
use crate::instant::{parse_date, read_date, Instant, MAX_OFFSET_MINUTES};
use crate::recurrence::{Cadence, Frequency, RecurrenceSpec, Termination};
use crate::text::{chars_of, parse_decimal, read_decimal};
use crate::weekday::{select_weekdays, weekdays_selected};

verus! {

/// Which of the two ways to end a schedule the form has selected.
#[derive(Clone, Copy, Debug, PartialEq, Eq, Structural)]
pub enum EndType {
    Occurences,
    EndDate,
}

/// The state of the form as entered, checked by nothing yet.
#[derive(Clone, Debug)]
pub struct RawParams {
    /// The selected frequency.
    pub frequency: Frequency,
    /// The interval as typed.
    pub interval: String,
    /// The names of the toggled weekdays.
    pub weekdays: Vec<String>,
    /// The day of the month.
    pub month_day: i64,
    /// The selected way to end.
    pub end_type: EndType,
    /// The number of occurrences as typed.
    pub count: String,
    /// The end date as `YYYY-MM-DD`, if one was picked.
    pub end_date: Option<String>,
    /// The start date as `YYYY-MM-DD`, if one was picked.
    pub start_date: Option<String>,
    /// What the clock of the user's zone is ahead of UTC, in minutes.
    pub utc_offset_minutes: i16,
}

/// Why raw parameters are no schedule.
#[derive(Clone, Copy, Debug, PartialEq, Eq, Structural)]
pub enum ValidationError {
    /// The interval is no number, or not a positive one.
    InvalidInterval,
    /// A weekly schedule without a day of the week.
    EmptyWeekdaySet,
    /// A monthly schedule on a day outside 1 to 31.
    InvalidMonthDay,
    /// The number of occurrences is no number, or not a positive one.
    InvalidCount,
    /// The end date is missing or is no date, or lies before the start.
    EndBeforeStart,
    /// The start date is missing or is no date, or the zone is none.
    MissingStart,
}

/// What typed text means as a positive number: digits only, a value from 1
/// that fits in 32 bits.
pub open spec fn positive_number(s: Seq<char>) -> Option<u32> {
    match parse_decimal(s) {
        Some(n) => if n >= 1 {
            Some(n)
        } else {
            None
        },
        None => None,
    }
}

/// The date that a picked date writes, where one was picked and its text
/// is a date.
pub open spec fn date_of(text: Option<String>) -> Option<Date> {
    match text {
        Some(t) => parse_date(t@),
        None => None,
    }
}

/// Whether a zone can be `offset_minutes` ahead of UTC.
pub open spec fn is_zone(offset_minutes: i16) -> bool {
    -MAX_OFFSET_MINUTES <= offset_minutes <= MAX_OFFSET_MINUTES
}

/// The cadence that the form selects. The weekdays count for a weekly
/// schedule only, the day of the month for a monthly one only.
pub open spec fn cadence_of(raw: RawParams) -> Result<Cadence, ValidationError> {
    match raw.frequency {
        Frequency::Daily => Ok(Cadence::Daily),
        Frequency::Weekly => {
            let days = weekdays_selected(raw.weekdays@);
            if days.is_none() {
                Err(ValidationError::EmptyWeekdaySet)
            } else {
                Ok(Cadence::Weekly { by_weekday: days })
            }
        },
        Frequency::Monthly => {
            if 1 <= raw.month_day <= 31 {
                Ok(Cadence::Monthly { by_month_day: raw.month_day as u8 })
            } else {
                Err(ValidationError::InvalidMonthDay)
            }
        },
    }
}

/// The outcome of building a schedule from `raw`. The checks are made in
/// this order and the first that fails names the error: the interval; the
/// weekdays or the day of the month; the number of occurrences, or that
/// there is an end date; the start date and the zone; that the end is not
/// before the start.
///
/// The start is midnight of the start date in the user's zone, and an end
/// date ends the schedule at midnight of that date in the same zone.
pub open spec fn build_outcome(raw: RawParams) -> Result<RecurrenceSpec, ValidationError> {
    let interval = positive_number(raw.interval@);
    let cadence = cadence_of(raw);
    let count = positive_number(raw.count@);
    let start_date = date_of(raw.start_date);
    let end_date = date_of(raw.end_date);
    let start = Instant::midnight(start_date->0, raw.utc_offset_minutes);
    let end = Instant::midnight(end_date->0, raw.utc_offset_minutes);
    if interval is None {
        Err(ValidationError::InvalidInterval)
    } else if cadence is Err {
        Err(cadence->Err_0)
    } else if raw.end_type == EndType::Occurences && count is None {
        Err(ValidationError::InvalidCount)
    } else if raw.end_type == EndType::EndDate && end_date is None {
        Err(ValidationError::EndBeforeStart)
    } else if start_date is None || !is_zone(raw.utc_offset_minutes) {
        Err(ValidationError::MissingStart)
    } else if raw.end_type == EndType::EndDate && end.timestamp() < start.timestamp() {
        Err(ValidationError::EndBeforeStart)
    } else {
        Ok(
            RecurrenceSpec {
                cadence: cadence->Ok_0,
                interval: interval->0,
                termination: if raw.end_type == EndType::Occurences {
                    Termination::Count(count->0)
                } else {
                    Termination::Until(end)
                },
                start,
            },
        )
    }
}

/// Which raw parameters give which outcome: each error comes exactly when
/// its check is the first that fails, and a schedule when none fails.
pub proof fn lemma_build_outcomes(raw: RawParams)
    ensures
        build_outcome(raw) == Err::<RecurrenceSpec, ValidationError>(
            ValidationError::InvalidInterval,
        ) <==> positive_number(raw.interval@) is None,
        build_outcome(raw) == Err::<RecurrenceSpec, ValidationError>(
            ValidationError::EmptyWeekdaySet,
        ) <==> positive_number(raw.interval@) is Some && raw.frequency == Frequency::Weekly
            && weekdays_selected(raw.weekdays@).is_none(),
        build_outcome(raw) == Err::<RecurrenceSpec, ValidationError>(
            ValidationError::InvalidMonthDay,
        ) <==> positive_number(raw.interval@) is Some && raw.frequency == Frequency::Monthly && !(1
            <= raw.month_day <= 31),
        build_outcome(raw) == Err::<RecurrenceSpec, ValidationError>(ValidationError::InvalidCount)
            <==> positive_number(raw.interval@) is Some && cadence_of(raw) is Ok && raw.end_type
            == EndType::Occurences && positive_number(raw.count@) is None,
        build_outcome(raw) == Err::<RecurrenceSpec, ValidationError>(ValidationError::MissingStart)
            <==> positive_number(raw.interval@) is Some && cadence_of(raw) is Ok && (raw.end_type
            == EndType::Occurences ==> positive_number(raw.count@) is Some) && (raw.end_type
            == EndType::EndDate ==> date_of(raw.end_date) is Some) && (date_of(raw.start_date)
            is None || !is_zone(raw.utc_offset_minutes)),
        build_outcome(raw) == Err::<RecurrenceSpec, ValidationError>(
            ValidationError::EndBeforeStart,
        ) <==> positive_number(raw.interval@) is Some && cadence_of(raw) is Ok && raw.end_type
            == EndType::EndDate && (date_of(raw.end_date) is None || (date_of(raw.start_date)
            is Some && is_zone(raw.utc_offset_minutes) && date_of(raw.end_date)->0.day_number()
            < date_of(raw.start_date)->0.day_number())),
        build_outcome(raw) matches Ok(spec) ==> spec.is_valid() && spec.cadence.frequency()
            == raw.frequency && spec.start.second_of_day() == 0 && spec.start.offset_minutes
            == raw.utc_offset_minutes && (spec.termination matches Termination::Until(end)
            ==> end.second_of_day() == 0 && end.offset_minutes == raw.utc_offset_minutes),
{
}

/// Executable form of [`positive_number`].
pub fn read_positive_number(s: &str) -> (r: Option<u32>)
    ensures
        r == positive_number(s@),
{
    let v = chars_of(s);
    match read_decimal(&v) {
        Some(n) => if n >= 1 {
            Some(n)
        } else {
            None
        },
        None => None,
    }
}

/// Executable form of [`date_of`].
pub fn read_picked_date(text: &Option<String>) -> (r: Option<Date>)
    ensures
        r == date_of(*text),
        r matches Some(date) ==> date.is_valid(),
{
    match text {
        Some(t) => {
            let v = chars_of(t.as_str());
            read_date(&v)
        },
        None => None,
    }
}

/// Executable form of [`cadence_of`].
pub fn read_cadence(raw: &RawParams) -> (r: Result<Cadence, ValidationError>)
    ensures
        r == cadence_of(*raw),
        r matches Ok(c) ==> c.is_valid(),
{
    match raw.frequency {
        Frequency::Daily => Ok(Cadence::Daily),
        Frequency::Weekly => {
            let days = select_weekdays(&raw.weekdays);
            if days.is_empty() {
                Err(ValidationError::EmptyWeekdaySet)
            } else {
                Ok(Cadence::Weekly { by_weekday: days })
            }
        },
        Frequency::Monthly => {
            if 1 <= raw.month_day && raw.month_day <= 31 {
                Ok(Cadence::Monthly { by_month_day: raw.month_day as u8 })
            } else {
                Err(ValidationError::InvalidMonthDay)
            }
        },
    }
}

/// Builds the recurrence specification that the raw parameters describe,
/// or says which of them is at fault. Nothing but `raw` is read.
pub fn build(raw: &RawParams) -> (r: Result<RecurrenceSpec, ValidationError>)
    ensures
        r == build_outcome(*raw),
        r matches Ok(spec) ==> spec.is_valid(),
{
    let interval = match read_positive_number(raw.interval.as_str()) {
        Some(n) => n,
        None => {
            return Err(ValidationError::InvalidInterval);
        },
    };
    let cadence = match read_cadence(raw) {
        Ok(c) => c,
        Err(e) => {
            return Err(e);
        },
    };
    let count = read_positive_number(raw.count.as_str());
    let end_date = read_picked_date(&raw.end_date);
    let by_count = match raw.end_type {
        EndType::Occurences => true,
        EndType::EndDate => false,
    };
    if by_count && count.is_none() {
        return Err(ValidationError::InvalidCount);
    }
    if !by_count && end_date.is_none() {
        return Err(ValidationError::EndBeforeStart);
    }
    let zone = raw.utc_offset_minutes;
    let start = match read_picked_date(&raw.start_date) {
        Some(date) if -MAX_OFFSET_MINUTES <= zone && zone <= MAX_OFFSET_MINUTES => {
            Instant::at_midnight(date, zone)
        },
        _ => {
            return Err(ValidationError::MissingStart);
        },
    };
    let termination = if by_count {
        Termination::Count(count.unwrap())
    } else {
        let end = Instant::at_midnight(end_date.unwrap(), zone);
        if !start.not_after(&end) {
            return Err(ValidationError::EndBeforeStart);
        }
        Termination::Until(end)
    };
    Ok(RecurrenceSpec { cadence, interval, termination, start })
}

} // verus!
