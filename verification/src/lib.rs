//! A recurring workout schedule engine: rules that say when a workout
//! repeats, their text form, and the dates they fall on.

pub mod builder;
pub mod calendar;
pub mod expander;
pub mod instant;
pub mod recurrence;
pub mod schedule;
pub mod serializer;
pub mod text;
pub mod weekday;
