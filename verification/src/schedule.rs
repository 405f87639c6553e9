//! The decisions of the schedule service: what is handed to the store when
//! a schedule is confirmed, who may ask for stored data, and what a stored
//! rule shows in a window of the calendar.

use vstd::prelude::*;
use vstd::string::*;
use crate::expander::{expand, expansion};
use crate::instant::Instant;
use crate::recurrence::RecurrenceSpec;
use crate::serializer::{parse, parse_rule, rule_text, serialize, ParseError};

verus! {

/// Identifies a user of the dashboard.
#[derive(Clone, Copy, Debug, PartialEq, Eq, Structural)]
pub struct UserId(pub i64);

/// Identifies a workout template.
#[derive(Clone, Copy, Debug, PartialEq, Eq, Structural)]
pub struct TemplateId(pub i32);

/// Identifies a stored workout instance.
#[derive(Clone, Copy, Debug, PartialEq, Eq, Structural)]
pub struct InstanceId(pub i64);

/// Why the service does not go to the store.
#[derive(Clone, Copy, Debug, PartialEq, Eq, Structural)]
pub enum Refusal {
    /// Nobody is logged in.
    NotLoggedIn,
}

/// A confirmed schedule as the service hands it to the store: whose it
/// is, of which template, from when, and the rule as its canonical text.
#[derive(Clone, Debug)]
pub struct WorkoutInstance {
    pub user_id: UserId,
    pub template_id: TemplateId,
    pub start: Instant,
    pub rule: String,
}

/// Who a request for stored data is made for, if anybody is logged in.
pub fn authorize(user: Option<UserId>) -> (r: Result<UserId, Refusal>)
    ensures
        r == (match user {
            Some(id) => Ok::<UserId, Refusal>(id),
            None => Err::<UserId, Refusal>(Refusal::NotLoggedIn),
        }),
{
    match user {
        Some(id) => Ok(id),
        None => Err(Refusal::NotLoggedIn),
    }
}

/// The instance that confirms a schedule of `template_id` with the rule
/// `spec` for the logged-in user: the rule goes to the store as its
/// canonical text, beside the start that the text does not hold.
pub fn prepare_commit(user: Option<UserId>, template_id: TemplateId, spec: &RecurrenceSpec) -> (r:
    Result<WorkoutInstance, Refusal>)
    requires
        spec.is_valid(),
    ensures
        user is None ==> r == Err::<WorkoutInstance, Refusal>(Refusal::NotLoggedIn),
        user matches Some(id) ==> (r matches Ok(instance) && instance.user_id == id
            && instance.template_id == template_id && instance.start == spec.start
            && instance.rule@ == rule_text(*spec)),
{
    match user {
        Some(id) => Ok(
            WorkoutInstance { user_id: id, template_id, start: spec.start, rule: serialize(spec) },
        ),
        None => Err(Refusal::NotLoggedIn),
    }
}

/// The occurrences that a stored instance, its start and its rule text,
/// has in a window of the calendar; the error of the rule text if it is
/// none.
pub fn stored_occurrences(
    rule: &str,
    start: Instant,
    window_start: &Instant,
    window_end: &Instant,
) -> (r: Result<Vec<Instant>, ParseError>)
    requires
        window_start.is_valid(),
        window_end.is_valid(),
    ensures
        match parse_rule(rule@, start) {
            Ok(spec) => r matches Ok(found) && found@ == expansion(
                spec,
                *window_start,
                *window_end,
            ),
            Err(e) => r matches Err(error) && error == e,
        },
{
    match parse(rule, start) {
        Ok(spec) => Ok(expand(&spec, window_start, window_end)),
        Err(e) => Err(e),
    }
}

} // verus!
