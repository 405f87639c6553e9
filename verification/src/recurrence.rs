//! The recurrence specification: what repeats, how often, from when and
//! until when.

use vstd::prelude::*;
use crate::instant::Instant;
use crate::weekday::WeekdaySet;

verus! {

/// The unit in which a recurrence steps.
#[derive(Clone, Copy, Debug, PartialEq, Eq, Structural)]
pub enum Frequency {
    Daily,
    Weekly,
    Monthly,
}

/// The frequency together with what only that frequency needs: the days of
/// the week for a weekly rule, the day of the month for a monthly one.
#[derive(Clone, Copy, Debug, PartialEq, Eq, Structural)]
pub enum Cadence {
    Daily,
    Weekly { by_weekday: WeekdaySet },
    Monthly { by_month_day: u8 },
}

/// How a recurrence ends: after a number of occurrences, or with the last
/// occurrence that is not after an instant.
#[derive(Clone, Copy, Debug, PartialEq, Eq, Structural)]
pub enum Termination {
    Count(u32),
    Until(Instant),
}

/// A recurrence rule in its canonical form.
#[derive(Clone, Copy, Debug, PartialEq, Eq, Structural)]
pub struct RecurrenceSpec {
    pub cadence: Cadence,
    pub interval: u32,
    pub termination: Termination,
    pub start: Instant,
}

impl Cadence {
    /// The frequency of the cadence.
    pub open spec fn frequency(self) -> Frequency {
        match self {
            Cadence::Daily => Frequency::Daily,
            Cadence::Weekly { .. } => Frequency::Weekly,
            Cadence::Monthly { .. } => Frequency::Monthly,
        }
    }

    /// A weekly cadence names at least one day, a monthly one a day from 1
    /// to 31.
    pub open spec fn is_valid(self) -> bool {
        match self {
            Cadence::Daily => true,
            Cadence::Weekly { by_weekday } => !by_weekday.is_none(),
            Cadence::Monthly { by_month_day } => 1 <= by_month_day <= 31,
        }
    }

    /// Executable form of [`Cadence::is_valid`].
    pub fn valid(&self) -> (r: bool)
        ensures
            r == self.is_valid(),
    {
        match self {
            Cadence::Daily => true,
            Cadence::Weekly { by_weekday } => !by_weekday.is_empty(),
            Cadence::Monthly { by_month_day } => 1 <= *by_month_day && *by_month_day <= 31,
        }
    }
}

impl Termination {
    /// A count is at least 1; an end is a valid instant not before `start`.
    pub open spec fn is_valid_from(self, start: Instant) -> bool {
        match self {
            Termination::Count(n) => n >= 1,
            Termination::Until(end) => end.is_valid() && end.timestamp() >= start.timestamp(),
        }
    }
}

impl RecurrenceSpec {
    /// The invariant of a recurrence specification.
    pub open spec fn is_valid(self) -> bool {
        &&& self.cadence.is_valid()
        &&& self.interval >= 1
        &&& self.start.is_valid()
        &&& self.termination.is_valid_from(self.start)
    }

    /// Executable form of [`RecurrenceSpec::is_valid`].
    pub fn valid(&self) -> (r: bool)
        ensures
            r == self.is_valid(),
    {
        if !(self.cadence.valid() && self.interval >= 1 && self.start.valid()) {
            return false;
        }
        match self.termination {
            Termination::Count(n) => n >= 1,
            Termination::Until(end) => end.valid() && self.start.not_after(&end),
        }
    }

    /// The frequency of the rule.
    pub fn frequency(&self) -> (r: Frequency)
        ensures
            r == self.cadence.frequency(),
    {
        match self.cadence {
            Cadence::Daily => Frequency::Daily,
            Cadence::Weekly { .. } => Frequency::Weekly,
            Cadence::Monthly { .. } => Frequency::Monthly,
        }
    }

    /// The step between occurrences, in units of the frequency.
    pub fn interval(&self) -> (r: u32)
        ensures
            r == self.interval,
    {
        self.interval
    }

    /// The days of the week of a weekly rule.
    pub fn by_weekday(&self) -> (r: Option<WeekdaySet>)
        ensures
            r == (match self.cadence {
                Cadence::Weekly { by_weekday } => Some(by_weekday),
                _ => None,
            }),
    {
        match self.cadence {
            Cadence::Weekly { by_weekday } => Some(by_weekday),
            _ => None,
        }
    }

    /// The day of the month of a monthly rule.
    pub fn by_month_day(&self) -> (r: Option<u8>)
        ensures
            r == (match self.cadence {
                Cadence::Monthly { by_month_day } => Some(by_month_day),
                _ => None,
            }),
    {
        match self.cadence {
            Cadence::Monthly { by_month_day } => Some(by_month_day),
            _ => None,
        }
    }

    /// How the rule ends.
    pub fn termination(&self) -> (r: Termination)
        ensures
            r == self.termination,
    {
        self.termination
    }

    /// The first possible occurrence.
    pub fn start(&self) -> (r: Instant)
        ensures
            r == self.start,
    {
        self.start
    }
}

} // verus!
