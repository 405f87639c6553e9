//! From a recurrence specification and a window to the occurrences that
//! fall into the window.

use vstd::prelude::*;
use crate::calendar::{
    date_of_day, days_before_month, days_before_year, lemma_date_of_day, lemma_day_has_date,
    lemma_day_number_bounds, lemma_day_number_order, month_length, week_of_day,
    weekday_index_of_day, Date, DAY_COUNT,
};
use crate::instant::{earliest_instant, latest_instant, lemma_instant_range, Instant};
use crate::recurrence::{Cadence, RecurrenceSpec, Termination};
use crate::weekday::{weekday_at, Weekday, WeekdaySet};

verus! {

/// Whether the day at position `n` of the day line is a candidate of the
/// rule: a day from the start on that the cadence reaches.
///
/// A daily rule reaches every `interval`-th day from the start. A weekly
/// rule reaches the listed weekdays of every `interval`-th week, weeks
/// running from Monday and counted from the week of the start. A monthly
/// rule reaches the listed day of every `interval`-th month, counted from
/// the month of the start; a month without that day has no candidate.
pub open spec fn is_candidate_day(spec: RecurrenceSpec, n: int) -> bool {
    let first = spec.start.date.day_number();
    &&& first <= n < DAY_COUNT
    &&& match spec.cadence {
        Cadence::Daily => (n - first) % (spec.interval as int) == 0,
        Cadence::Weekly { by_weekday } => by_weekday.contains(weekday_at(weekday_index_of_day(n)))
            && (week_of_day(n) - week_of_day(first)) % (spec.interval as int) == 0,
        Cadence::Monthly { by_month_day } => date_of_day(n).day == by_month_day && (date_of_day(
            n,
        ).month_index() - spec.start.date.month_index()) % (spec.interval as int) == 0,
    }
}

/// Number of candidate days up to and with day `n`.
pub open spec fn candidates_through(spec: RecurrenceSpec, n: int) -> int
    decreases n - spec.start.date.day_number() + 1,
{
    if n < spec.start.date.day_number() {
        0
    } else {
        candidates_through(spec, n - 1) + if is_candidate_day(spec, n) {
            1int
        } else {
            0int
        }
    }
}

/// The instant that the rule has on day `n`: the time of day and the zone
/// of the start, on that day.
pub open spec fn instant_on_day(spec: RecurrenceSpec, n: int) -> Instant {
    spec.start.on(date_of_day(n))
}

/// Whether day `n` holds an occurrence of the rule: it is a candidate, and
/// the rule has not ended. A count ends the rule with the candidate of
/// that number, windows or not; an end instant ends it with the last
/// candidate that is not after it.
pub open spec fn is_occurrence_day(spec: RecurrenceSpec, n: int) -> bool {
    &&& is_candidate_day(spec, n)
    &&& match spec.termination {
        Termination::Count(count) => candidates_through(spec, n) <= count,
        Termination::Until(end) => instant_on_day(spec, n).timestamp() <= end.timestamp(),
    }
}

/// Whether `i` lies in the window from `from` to `to`, both ends included.
pub open spec fn in_window(i: Instant, from: Instant, to: Instant) -> bool {
    from.timestamp() <= i.timestamp() <= to.timestamp()
}

/// The occurrences of the rule in the window on the days up to and with
/// day `n`, in the order of the days.
pub open spec fn occurrences_through(spec: RecurrenceSpec, from: Instant, to: Instant, n: int) -> Seq<
    Instant,
>
    decreases n - spec.start.date.day_number() + 1,
{
    if n < spec.start.date.day_number() {
        Seq::empty()
    } else {
        let earlier = occurrences_through(spec, from, to, n - 1);
        if is_occurrence_day(spec, n) && in_window(instant_on_day(spec, n), from, to) {
            earlier.push(instant_on_day(spec, n))
        } else {
            earlier
        }
    }
}

/// The occurrences of the rule in the window, in chronological order.
pub open spec fn expansion(spec: RecurrenceSpec, from: Instant, to: Instant) -> Seq<Instant> {
    occurrences_through(spec, from, to, DAY_COUNT - 1)
}

/// The instant of the rule on a day of the calendar is valid, and later by
/// a day's seconds for each day after the start.
pub proof fn lemma_instant_on_day(spec: RecurrenceSpec, n: int)
    requires
        spec.start.is_valid(),
        0 <= n < DAY_COUNT,
    ensures
        instant_on_day(spec, n).is_valid(),
        instant_on_day(spec, n).timestamp() == spec.start.timestamp() + (n
            - spec.start.date.day_number()) * 86400,
{
    lemma_day_has_date(n);
}

/// Days without a candidate add nothing to the count of candidates and
/// nothing to the occurrences.
pub proof fn lemma_no_candidates(spec: RecurrenceSpec, from: Instant, to: Instant, a: int, b: int)
    requires
        a <= b,
        forall|m: int| a < m <= b ==> !is_candidate_day(spec, m),
    ensures
        candidates_through(spec, b) == candidates_through(spec, a),
        occurrences_through(spec, from, to, b) == occurrences_through(spec, from, to, a),
    decreases b - a,
{
    if a < b {
        lemma_no_candidates(spec, from, to, a, b - 1);
    }
}

/// Days without an occurrence in the window add nothing to the occurrences.
pub proof fn lemma_no_occurrences(spec: RecurrenceSpec, from: Instant, to: Instant, a: int, b: int)
    requires
        a <= b,
        forall|m: int|
            a < m <= b ==> !(is_occurrence_day(spec, m) && in_window(
                instant_on_day(spec, m),
                from,
                to,
            )),
    ensures
        occurrences_through(spec, from, to, b) == occurrences_through(spec, from, to, a),
    decreases b - a,
{
    if a < b {
        lemma_no_occurrences(spec, from, to, a, b - 1);
    }
}

/// There are no more candidates than days from the start on.
pub proof fn lemma_candidates_bound(spec: RecurrenceSpec, n: int)
    ensures
        0 <= candidates_through(spec, n),
        candidates_through(spec, n) <= if n < spec.start.date.day_number() {
            0
        } else {
            n - spec.start.date.day_number() + 1
        },
    decreases n - spec.start.date.day_number() + 1,
{
    if n >= spec.start.date.day_number() {
        lemma_candidates_bound(spec, n - 1);
    }
}

/// The count of candidates grows with the days, by at most one a day.
pub proof fn lemma_candidates_grow(spec: RecurrenceSpec, a: int, b: int)
    requires
        a <= b,
    ensures
        candidates_through(spec, a) <= candidates_through(spec, b),
        candidates_through(spec, b) - candidates_through(spec, a) <= b - a,
    decreases b - a,
{
    if a < b {
        lemma_candidates_grow(spec, a, b - 1);
    }
}

/// The day of the rule that an instant of the rule lies on.
pub open spec fn day_of_instant(spec: RecurrenceSpec, i: Instant) -> int {
    spec.start.date.day_number() + (i.timestamp() - spec.start.timestamp()) / 86400
}

/// What the occurrences up to day `n` are, taken together: each is the
/// rule's instant on a day up to `n` that holds an occurrence, and lies in
/// the window; they stand in strictly ascending order; and none is missing.
pub proof fn lemma_occurrences_through(spec: RecurrenceSpec, from: Instant, to: Instant, n: int)
    requires
        spec.start.is_valid(),
    ensures
        forall|i: int|
            0 <= i < occurrences_through(spec, from, to, n).len() ==> {
                let x = #[trigger] occurrences_through(spec, from, to, n)[i];
                let d = day_of_instant(spec, x);
                &&& spec.start.date.day_number() <= d <= n
                &&& is_occurrence_day(spec, d)
                &&& x == instant_on_day(spec, d)
                &&& in_window(x, from, to)
            },
        forall|i: int, j: int|
            0 <= i < j < occurrences_through(spec, from, to, n).len() ==> (
            #[trigger] occurrences_through(spec, from, to, n)[i]).timestamp() < (
            #[trigger] occurrences_through(spec, from, to, n)[j]).timestamp(),
        forall|d: int|
            d <= n && #[trigger] is_occurrence_day(spec, d) && in_window(
                instant_on_day(spec, d),
                from,
                to,
            ) ==> occurrences_through(spec, from, to, n).contains(instant_on_day(spec, d)),
    decreases n - spec.start.date.day_number() + 1,
{
    let first = spec.start.date.day_number();
    let now = occurrences_through(spec, from, to, n);
    lemma_day_number_bounds(spec.start.date);
    if n >= first {
        lemma_occurrences_through(spec, from, to, n - 1);
        let earlier = occurrences_through(spec, from, to, n - 1);
        let today = instant_on_day(spec, n);
        if is_occurrence_day(spec, n) && in_window(today, from, to) {
            lemma_instant_on_day(spec, n);
            assert(day_of_instant(spec, today) == n);
            assert(now == earlier.push(today));
            assert forall|i: int| 0 <= i < now.len() implies {
                let x = #[trigger] now[i];
                let d = day_of_instant(spec, x);
                &&& first <= d <= n
                &&& is_occurrence_day(spec, d)
                &&& x == instant_on_day(spec, d)
                &&& in_window(x, from, to)
            } by {
                if i < earlier.len() {
                    assert(now[i] == earlier[i]);
                }
            }
            assert forall|i: int, j: int| 0 <= i < j < now.len() implies (#[trigger] now[i]).timestamp()
                < (#[trigger] now[j]).timestamp() by {
                assert(now[i] == earlier[i]);
                let d = day_of_instant(spec, earlier[i]);
                lemma_day_number_bounds(spec.start.date);
                lemma_instant_on_day(spec, d);
                if j < earlier.len() {
                    assert(now[j] == earlier[j]);
                }
            }
            assert forall|d: int|
                d <= n && #[trigger] is_occurrence_day(spec, d) && in_window(
                    instant_on_day(spec, d),
                    from,
                    to,
                ) implies now.contains(instant_on_day(spec, d)) by {
                if d == n {
                    assert(now[now.len() - 1] == today);
                } else {
                    let at = choose|at: int|
                        0 <= at < earlier.len() && earlier[at] == instant_on_day(spec, d);
                    assert(now[at] == instant_on_day(spec, d));
                }
            }
        } else {
            assert(now == earlier);
        }
    }
}

/// The occurrences come in chronological order, none twice; each lies in
/// the window and is not before the start of the rule.
pub proof fn lemma_expansion_is_chronological(spec: RecurrenceSpec, from: Instant, to: Instant)
    requires
        spec.start.is_valid(),
    ensures
        forall|i: int, j: int|
            0 <= i < j < expansion(spec, from, to).len() ==> (#[trigger] expansion(
                spec,
                from,
                to,
            )[i]).timestamp() < (#[trigger] expansion(spec, from, to)[j]).timestamp(),
        forall|i: int|
            0 <= i < expansion(spec, from, to).len() ==> {
                let x = #[trigger] expansion(spec, from, to)[i];
                &&& x.is_valid()
                &&& in_window(x, from, to)
                &&& spec.start.timestamp() <= x.timestamp()
            },
{
    lemma_occurrences_through(spec, from, to, DAY_COUNT - 1);
    let all = expansion(spec, from, to);
    assert forall|i: int| 0 <= i < all.len() implies {
        let x = #[trigger] all[i];
        &&& x.is_valid()
        &&& in_window(x, from, to)
        &&& spec.start.timestamp() <= x.timestamp()
    } by {
        lemma_day_number_bounds(spec.start.date);
        lemma_instant_on_day(spec, day_of_instant(spec, all[i]));
    }
}

/// The expansion holds exactly the occurrences in the window: each of its
/// instants is the rule's instant on a day that holds an occurrence, and
/// the rule's instant on every such day is in it if it lies in the window.
pub proof fn lemma_expansion_is_exact(spec: RecurrenceSpec, from: Instant, to: Instant)
    requires
        spec.start.is_valid(),
    ensures
        forall|i: int|
            0 <= i < expansion(spec, from, to).len() ==> {
                let x = #[trigger] expansion(spec, from, to)[i];
                &&& is_occurrence_day(spec, day_of_instant(spec, x))
                &&& x == instant_on_day(spec, day_of_instant(spec, x))
            },
        forall|d: int|
            #[trigger] is_occurrence_day(spec, d) && in_window(instant_on_day(spec, d), from, to)
                ==> expansion(spec, from, to).contains(instant_on_day(spec, d)),
{
    lemma_occurrences_through(spec, from, to, DAY_COUNT - 1);
}

/// Whether the window leaves out nothing of the rule: it begins at or
/// before the start and ends at or after the rule's instant on the last
/// day of the calendar.
pub open spec fn window_covers(spec: RecurrenceSpec, from: Instant, to: Instant) -> bool {
    &&& from.timestamp() <= spec.start.timestamp()
    &&& instant_on_day(spec, DAY_COUNT - 1).timestamp() <= to.timestamp()
}

/// The window from the earliest to the latest instant leaves out nothing.
pub proof fn lemma_widest_window_covers(spec: RecurrenceSpec)
    requires
        spec.start.is_valid(),
    ensures
        window_covers(spec, earliest_instant(), latest_instant()),
{
    lemma_instant_on_day(spec, DAY_COUNT - 1);
    lemma_instant_range(spec.start);
    lemma_instant_range(instant_on_day(spec, DAY_COUNT - 1));
}

/// Up to any day, a counted rule over a window that leaves out nothing
/// has as many occurrences as candidates, but no more than its count.
proof fn lemma_counted_through(
    spec: RecurrenceSpec,
    from: Instant,
    to: Instant,
    count: u32,
    n: int,
)
    requires
        spec.start.is_valid(),
        spec.termination == Termination::Count(count),
        window_covers(spec, from, to),
        n < DAY_COUNT,
    ensures
        occurrences_through(spec, from, to, n).len() == if candidates_through(spec, n) <= count {
            candidates_through(spec, n)
        } else {
            count as int
        },
    decreases n - spec.start.date.day_number() + 1,
{
    if n >= spec.start.date.day_number() {
        lemma_counted_through(spec, from, to, count, n - 1);
        lemma_candidates_bound(spec, n - 1);
        lemma_day_number_bounds(spec.start.date);
        lemma_instant_on_day(spec, n);
        lemma_instant_on_day(spec, DAY_COUNT - 1);
    }
}

/// A rule that ends after `count` occurrences, expanded over a window that
/// leaves out nothing, has exactly `count` occurrences, provided that the
/// calendar holds that many candidates of it; else it has as many as the
/// calendar holds.
pub proof fn lemma_count_termination(spec: RecurrenceSpec, from: Instant, to: Instant, count: u32)
    requires
        spec.start.is_valid(),
        spec.termination == Termination::Count(count),
        window_covers(spec, from, to),
    ensures
        candidates_through(spec, DAY_COUNT - 1) >= count ==> expansion(spec, from, to).len()
            == count,
        candidates_through(spec, DAY_COUNT - 1) < count ==> expansion(spec, from, to).len()
            == candidates_through(spec, DAY_COUNT - 1),
{
    lemma_counted_through(spec, from, to, count, DAY_COUNT - 1);
}

/// The candidate days of a daily rule are the days `interval * k` after
/// the start, for `k` from 0 on.
pub proof fn lemma_daily_candidate_days(spec: RecurrenceSpec, n: int)
    requires
        spec.is_valid(),
        spec.cadence is Daily,
        spec.start.date.day_number() <= n < DAY_COUNT,
    ensures
        is_candidate_day(spec, n) <==> exists|k: int|
            k >= 0 && n == spec.start.date.day_number() + #[trigger] (spec.interval * k),
{
    let first = spec.start.date.day_number();
    let step = spec.interval as int;
    if is_candidate_day(spec, n) {
        let k = (n - first) / step;
        assert(k >= 0 && n - first == step * k) by (nonlinear_arith)
            requires
                step >= 1,
                n - first >= 0,
                (n - first) % step == 0,
                k == (n - first) / step,
        ;
        assert(n == first + spec.interval * k);
    }
    if exists|k: int| k >= 0 && n == first + #[trigger] (spec.interval * k) {
        let k = choose|k: int| k >= 0 && n == first + #[trigger] (spec.interval * k);
        assert(step * k == k * step) by (nonlinear_arith);
        lemma_multiple(step, k);
    }
}

/// The candidates of a daily rule up to day `n` are the start and every
/// `interval`-th day after it.
pub proof fn lemma_daily_candidates(spec: RecurrenceSpec, n: int)
    requires
        spec.is_valid(),
        spec.cadence is Daily,
        spec.start.date.day_number() <= n < DAY_COUNT,
    ensures
        candidates_through(spec, n) == (n - spec.start.date.day_number()) / (spec.interval as int)
            + 1,
    decreases n - spec.start.date.day_number(),
{
    let first = spec.start.date.day_number();
    let step = spec.interval as int;
    let x = n - first;
    if n == first {
        assert(0int % step == 0 && 0int / step == 0) by (nonlinear_arith)
            requires
                step >= 1,
        ;
        assert(candidates_through(spec, n - 1) == 0);
    } else {
        lemma_daily_candidates(spec, n - 1);
        assert(x / step == (x - 1) / step + (if x % step == 0 {
            1int
        } else {
            0int
        })) by (nonlinear_arith)
            requires
                step >= 1,
                x >= 1,
        ;
    }
}

/// A daily rule that ends after `count` occurrences, expanded over a
/// window that leaves out nothing, has exactly `count` occurrences if the
/// last of them still lies in the calendar.
pub proof fn lemma_daily_count_termination(
    spec: RecurrenceSpec,
    from: Instant,
    to: Instant,
    count: u32,
)
    requires
        spec.is_valid(),
        spec.cadence is Daily,
        spec.termination == Termination::Count(count),
        window_covers(spec, from, to),
        spec.start.date.day_number() + (count - 1) * spec.interval < DAY_COUNT,
    ensures
        expansion(spec, from, to).len() == count,
{
    let first = spec.start.date.day_number();
    let step = spec.interval as int;
    lemma_day_number_bounds(spec.start.date);
    lemma_daily_candidates(spec, DAY_COUNT - 1);
    lemma_count_termination(spec, from, to, count);
    let x = DAY_COUNT - 1 - first;
    assert(x / step >= count - 1) by (nonlinear_arith)
        requires
            step >= 1,
            count >= 1,
            (count - 1) * step <= x,
    ;
}

/// A rule that ends with an instant has no occurrence after that instant,
/// and has every candidate that is not after it, one at that very instant
/// too, as far as the window holds it.
pub proof fn lemma_until_boundary(spec: RecurrenceSpec, from: Instant, to: Instant, end: Instant)
    requires
        spec.start.is_valid(),
        spec.termination == Termination::Until(end),
    ensures
        forall|i: int|
            0 <= i < expansion(spec, from, to).len() ==> (#[trigger] expansion(
                spec,
                from,
                to,
            )[i]).timestamp() <= end.timestamp(),
        forall|d: int|
            #[trigger] is_candidate_day(spec, d) && instant_on_day(spec, d).timestamp()
                <= end.timestamp() && in_window(instant_on_day(spec, d), from, to) ==> expansion(
                spec,
                from,
                to,
            ).contains(instant_on_day(spec, d)),
{
    lemma_occurrences_through(spec, from, to, DAY_COUNT - 1);
    assert forall|d: int|
        #[trigger] is_candidate_day(spec, d) && instant_on_day(spec, d).timestamp()
            <= end.timestamp() && in_window(instant_on_day(spec, d), from, to) implies expansion(
        spec,
        from,
        to,
    ).contains(instant_on_day(spec, d)) by {
        assert(is_occurrence_day(spec, d));
    }
}

/// Two expansions of one rule over one window are the same sequence: the
/// result depends on the arguments and on nothing else.
pub proof fn lemma_expansion_repeats(
    spec: RecurrenceSpec,
    from: Instant,
    to: Instant,
    once: Seq<Instant>,
    again: Seq<Instant>,
)
    requires
        once == expansion(spec, from, to),
        again == expansion(spec, from, to),
    ensures
        once == again,
{
}

/// A number strictly between two neighbouring multiples of `d` is no
/// multiple of `d`.
proof fn lemma_between_multiples(x: int, d: int, k: int)
    requires
        d > 0,
        k * d < x < (k + 1) * d,
    ensures
        x % d != 0,
{
    if x % d == 0 {
        let q = x / d;
        assert(x == q * d) by (nonlinear_arith)
            requires
                d > 0,
                x % d == 0,
                q == x / d,
        ;
        assert(false) by (nonlinear_arith)
            requires
                d > 0,
                x == q * d,
                k * d < x < (k + 1) * d,
        ;
    }
}

/// A multiple of `d` leaves no rest.
proof fn lemma_multiple(d: int, k: int)
    requires
        d > 0,
    ensures
        (k * d) % d == 0,
{
    vstd::arithmetic::div_mod::lemma_mod_multiples_basic(k, d);
}

/// Takes candidate day `n` into account: counts it, and appends its
/// instant where it is an occurrence in the window. The result says
/// whether any later day can still hold an occurrence in the window.
fn offer(
    spec: &RecurrenceSpec,
    from: &Instant,
    to: &Instant,
    n: u32,
    seen: &mut u32,
    out: &mut Vec<Instant>,
) -> (more: bool)
    requires
        spec.is_valid(),
        from.is_valid(),
        to.is_valid(),
        is_candidate_day(*spec, n as int),
        *old(seen) == candidates_through(*spec, n - 1),
        old(out)@ == occurrences_through(*spec, *from, *to, n - 1),
    ensures
        *final(seen) == candidates_through(*spec, n as int),
        final(out)@ == occurrences_through(*spec, *from, *to, n as int),
        !more ==> forall|m: int|
            n < m ==> !(is_occurrence_day(*spec, m) && in_window(
                instant_on_day(*spec, m),
                *from,
                *to,
            )),
{
    proof {
        lemma_day_number_bounds(spec.start.date);
        lemma_candidates_bound(*spec, n - 1);
        lemma_instant_on_day(*spec, n as int);
    }
    *seen = *seen + 1;
    let date = Date::from_day_number(n);
    let instant = spec.start.on_date(date);
    let at = instant.to_timestamp();
    let admitted = match spec.termination {
        Termination::Count(count) => *seen <= count,
        Termination::Until(end) => at <= end.to_timestamp(),
    };
    if !admitted || at > to.to_timestamp() {
        proof {
            assert forall|m: int| n < m implies !(is_occurrence_day(*spec, m) && in_window(
                instant_on_day(*spec, m),
                *from,
                *to,
            )) by {
                if is_candidate_day(*spec, m) {
                    lemma_instant_on_day(*spec, m);
                    lemma_candidates_grow(*spec, n as int, m);
                }
            }
        }
        return false;
    }
    if at >= from.to_timestamp() {
        out.push(instant);
    }
    true
}

/// The occurrences of a daily rule in the window.
fn expand_daily(spec: &RecurrenceSpec, from: &Instant, to: &Instant) -> (out: Vec<Instant>)
    requires
        spec.is_valid(),
        from.is_valid(),
        to.is_valid(),
        spec.cadence is Daily,
    ensures
        out@ == expansion(*spec, *from, *to),
{
    let first = spec.start.date.to_day_number();
    let step = spec.interval as u64;
    let mut out: Vec<Instant> = Vec::new();
    let mut seen: u32 = 0;
    let mut n: u64 = first as u64;
    let ghost mut k: int = 0;
    while n < DAY_COUNT as u64
        invariant
            spec.is_valid(),
            from.is_valid(),
            to.is_valid(),
            spec.cadence is Daily,
            first == spec.start.date.day_number(),
            step == spec.interval,
            k >= 0,
            n == first + k * step,
            n < DAY_COUNT + step,
            seen == candidates_through(*spec, n - 1),
            out@ == occurrences_through(*spec, *from, *to, n - 1),
        decreases DAY_COUNT + step - n,
    {
        proof {
            lemma_multiple(step as int, k);
        }
        let more = offer(spec, from, to, n as u32, &mut seen, &mut out);
        if !more {
            proof {
                lemma_no_occurrences(*spec, *from, *to, n as int, DAY_COUNT - 1);
            }
            return out;
        }
        proof {
            assert forall|m: int| n < m <= n + step - 1 implies !is_candidate_day(*spec, m) by {
                assert((k + 1) * step == k * step + step) by (nonlinear_arith);
                lemma_between_multiples(m - first, step as int, k);
            }
            lemma_no_candidates(*spec, *from, *to, n as int, n + step - 1);
            assert((k + 1) * step == k * step + step) by (nonlinear_arith);
            k = k + 1;
        }
        n = n + step;
    }
    proof {
        lemma_no_candidates(*spec, *from, *to, DAY_COUNT - 1, n - 1);
    }
    out
}

/// The occurrences of a weekly rule in the window.
fn expand_weekly(spec: &RecurrenceSpec, from: &Instant, to: &Instant, days: WeekdaySet) -> (out:
    Vec<Instant>)
    requires
        spec.is_valid(),
        from.is_valid(),
        to.is_valid(),
        spec.cadence == (Cadence::Weekly { by_weekday: days }),
    ensures
        out@ == expansion(*spec, *from, *to),
{
    let first = spec.start.date.to_day_number();
    let step = spec.interval as u64;
    let week0: u64 = (first / 7) as u64;
    let mut out: Vec<Instant> = Vec::new();
    let mut seen: u32 = 0;
    let mut week: u64 = week0;
    let ghost mut k: int = 0;
    while week * 7 < DAY_COUNT as u64
        invariant
            spec.is_valid(),
            from.is_valid(),
            to.is_valid(),
            spec.cadence == (Cadence::Weekly { by_weekday: days }),
            first == spec.start.date.day_number(),
            step == spec.interval,
            week0 == first / 7,
            k >= 0,
            week == week0 + k * step,
            week * 7 < DAY_COUNT + 7 * step,
            seen == candidates_through(*spec, week * 7 - 1),
            out@ == occurrences_through(*spec, *from, *to, week * 7 - 1),
        decreases DAY_COUNT + 7 * step - week * 7,
    {
        let mut j: u8 = 0;
        while j < 7
            invariant
                spec.is_valid(),
                from.is_valid(),
                to.is_valid(),
                spec.cadence == (Cadence::Weekly { by_weekday: days }),
                first == spec.start.date.day_number(),
                step == spec.interval,
                week0 == first / 7,
                week == week0 + k * step,
                week * 7 < DAY_COUNT,
                j <= 7,
                seen == candidates_through(*spec, week * 7 + j - 1),
                out@ == occurrences_through(*spec, *from, *to, week * 7 + j - 1),
            decreases 7 - j,
        {
            let n: u64 = week * 7 + j as u64;
            if n >= first as u64 && n < DAY_COUNT as u64 && days.has(Weekday::from_index(j)) {
                proof {
                    lemma_multiple(step as int, k);
                    assert(n as int / 7 == week && n as int % 7 == j);
                }
                let more = offer(spec, from, to, n as u32, &mut seen, &mut out);
                if !more {
                    proof {
                        lemma_no_occurrences(*spec, *from, *to, n as int, DAY_COUNT - 1);
                    }
                    return out;
                }
            } else {
                assert(n as int / 7 == week && n as int % 7 == j);
                assert(!is_candidate_day(*spec, n as int));
            }
            j = j + 1;
        }
        proof {
            assert((k + 1) * step == k * step + step) by (nonlinear_arith);
            assert forall|m: int| week * 7 + 6 < m <= (week + step) * 7 - 1 implies !is_candidate_day(
                *spec,
                m,
            ) by {
                lemma_between_multiples(m / 7 - week0, step as int, k);
            }
            lemma_no_candidates(*spec, *from, *to, week * 7 + 6, (week + step) * 7 - 1);
            k = k + 1;
        }
        week = week + step;
    }
    proof {
        lemma_no_candidates(*spec, *from, *to, DAY_COUNT - 1, week * 7 - 1);
    }
    out
}

/// Last month of the calendar, counted in months since January of year 0.
pub const LAST_MONTH: u32 = 119999;

/// Position on the day line of the first day of the month that is `month`
/// months after January of year 0.
pub open spec fn month_first_day(month: int) -> int {
    days_before_year(month / 12) + days_before_month(month / 12, month % 12 + 1)
}

/// The first day of the month that is `month` months after January of year 0.
pub open spec fn month_first_date(month: int) -> Date {
    Date { year: (month / 12) as u16, month: (month % 12 + 1) as u8, day: 1 }
}

/// The listed day of the month that is `month` months after January of
/// year 0, whether that month has it or not.
pub open spec fn month_target(month: int, day: u8) -> Date {
    Date { year: (month / 12) as u16, month: (month % 12 + 1) as u8, day }
}

/// The last day of the stretch that belongs to a month the rule reaches:
/// the day before the next month that it reaches, or the last day of the
/// calendar.
pub open spec fn cycle_last_day(month: int, step: int) -> int {
    if month + step <= LAST_MONTH {
        month_first_day(month + step) - 1
    } else {
        DAY_COUNT - 1
    }
}

/// Among the days from the first of a month that the rule reaches up to
/// the first of the next month that it reaches, the one candidate is the
/// listed day of that month.
proof fn lemma_month_cycle(spec: RecurrenceSpec, day: u8, month: int, k: int, n: int)
    requires
        spec.is_valid(),
        spec.cadence == (Cadence::Monthly { by_month_day: day }),
        k >= 0,
        month == spec.start.date.month_index() + k * spec.interval,
        month <= LAST_MONTH,
        month_first_day(month) <= n <= cycle_last_day(month, spec.interval as int),
        is_candidate_day(spec, n),
    ensures
        date_of_day(n) == month_target(month, day),
{
    let step = spec.interval as int;
    let month0 = spec.start.date.month_index();
    let d = date_of_day(n);
    lemma_day_number_bounds(spec.start.date);
    lemma_day_has_date(n);
    assert(k * step >= 0) by (nonlinear_arith)
        requires
            k >= 0,
            step >= 1,
    ;
    let f = month_first_date(month);
    assert(f.is_valid());
    assert(f.day_number() == month_first_day(month));
    lemma_day_number_order(d, f);
    assert(d.month_index() >= month);
    if month + step <= LAST_MONTH {
        let g = month_first_date(month + step);
        assert(g.is_valid());
        assert(g.day_number() == month_first_day(month + step));
        lemma_day_number_order(d, g);
    }
    assert(d.month_index() < month + step);
    if d.month_index() > month {
        assert((k + 1) * step == k * step + step) by (nonlinear_arith);
        lemma_between_multiples(d.month_index() - month0, step, k);
    }
}

/// Where a month that the rule reaches lies on the day line: it begins
/// after the months before it, the start of the rule is not after its
/// stretch, and its listed day, if it has one, lies in its stretch.
proof fn lemma_cycle_bounds(spec: RecurrenceSpec, day: u8, month: int, k: int)
    requires
        spec.is_valid(),
        spec.cadence == (Cadence::Monthly { by_month_day: day }),
        k >= 0,
        month == spec.start.date.month_index() + k * spec.interval,
        month <= LAST_MONTH,
    ensures
        0 <= month_first_day(month) <= cycle_last_day(month, spec.interval as int) < DAY_COUNT,
        spec.start.date.day_number() <= cycle_last_day(month, spec.interval as int),
        k == 0 ==> month_first_day(month) <= spec.start.date.day_number(),
        month_target(month, day).is_valid() ==> month_first_day(month) <= month_target(
            month,
            day,
        ).day_number() <= cycle_last_day(month, spec.interval as int),
        month_target(month, day).is_valid() ==> date_of_day(month_target(month, day).day_number())
            == month_target(month, day),
{
    let step = spec.interval as int;
    let start = spec.start.date;
    assert(k * step >= 0) by (nonlinear_arith)
        requires
            k >= 0,
            step >= 1,
    ;
    let f = month_first_date(month);
    let t = month_target(month, day);
    assert(f.is_valid() && f.day_number() == month_first_day(month));
    lemma_day_number_bounds(f);
    lemma_day_number_bounds(start);
    lemma_day_number_order(start, f);
    if t.is_valid() {
        lemma_day_number_bounds(t);
        lemma_day_number_order(f, t);
        lemma_date_of_day(t);
    }
    if month + step <= LAST_MONTH {
        let g = month_first_date(month + step);
        assert(g.is_valid() && g.day_number() == month_first_day(month + step));
        lemma_day_number_bounds(g);
        lemma_day_number_order(f, g);
        lemma_day_number_order(start, g);
        if t.is_valid() {
            lemma_day_number_order(t, g);
        }
    }
}

/// A run of days inside the stretch of a month that the rule reaches, and
/// without the listed day of that month, holds no candidate.
proof fn lemma_cycle_gap(
    spec: RecurrenceSpec,
    from: Instant,
    to: Instant,
    day: u8,
    month: int,
    k: int,
    a: int,
    b: int,
)
    requires
        spec.is_valid(),
        spec.cadence == (Cadence::Monthly { by_month_day: day }),
        k >= 0,
        month == spec.start.date.month_index() + k * spec.interval,
        month <= LAST_MONTH,
        month_first_day(month) - 1 <= a <= b <= cycle_last_day(month, spec.interval as int),
        month_target(month, day).is_valid() ==> !(a < month_target(month, day).day_number() <= b),
    ensures
        candidates_through(spec, b) == candidates_through(spec, a),
        occurrences_through(spec, from, to, b) == occurrences_through(spec, from, to, a),
{
    assert forall|m: int| a < m <= b implies !is_candidate_day(spec, m) by {
        if is_candidate_day(spec, m) {
            lemma_month_cycle(spec, day, month, k, m);
            lemma_day_number_bounds(spec.start.date);
            lemma_day_has_date(m);
        }
    }
    lemma_no_candidates(spec, from, to, a, b);
}

/// The occurrences of a monthly rule in the window.
fn expand_monthly(spec: &RecurrenceSpec, from: &Instant, to: &Instant, day: u8) -> (out: Vec<
    Instant,
>)
    requires
        spec.is_valid(),
        from.is_valid(),
        to.is_valid(),
        spec.cadence == (Cadence::Monthly { by_month_day: day }),
    ensures
        out@ == expansion(*spec, *from, *to),
{
    let first = spec.start.date.to_day_number();
    let step = spec.interval as u64;
    let month0: u64 = spec.start.date.year as u64 * 12 + (spec.start.date.month as u64 - 1);
    let mut out: Vec<Instant> = Vec::new();
    let mut seen: u32 = 0;
    let mut month: u64 = month0;
    let ghost mut k: int = 0;
    let ghost mut done: int = first - 1;
    proof {
        lemma_cycle_bounds(*spec, day, month as int, 0);
    }
    while month <= LAST_MONTH as u64
        invariant
            spec.is_valid(),
            from.is_valid(),
            to.is_valid(),
            spec.cadence == (Cadence::Monthly { by_month_day: day }),
            first == spec.start.date.day_number(),
            step == spec.interval,
            k >= 0,
            month == spec.start.date.month_index() + k * step,
            month <= LAST_MONTH + step,
            first - 1 <= done,
            month <= LAST_MONTH ==> month_first_day(month as int) - 1 <= done,
            month <= LAST_MONTH ==> done == first - 1 || done == month_first_day(month as int) - 1,
            month > LAST_MONTH ==> done == DAY_COUNT - 1,
            seen == candidates_through(*spec, done),
            out@ == occurrences_through(*spec, *from, *to, done),
        decreases LAST_MONTH + step - month,
    {
        let year = (month / 12) as u16;
        let month_of_year = (month % 12) as u8 + 1;
        let ghost next = cycle_last_day(month as int, step as int);
        proof {
            lemma_cycle_bounds(*spec, day, month as int, k);
        }
        if day <= month_length(year, month_of_year) {
            let date = Date { year, month: month_of_year, day };
            assert(date == month_target(month as int, day));
            let n = date.to_day_number();
            if n >= first {
                proof {
                    lemma_cycle_gap(*spec, *from, *to, day, month as int, k, done, n - 1);
                    assert(is_candidate_day(*spec, n as int)) by {
                        lemma_multiple(step as int, k);
                    }
                }
                let more = offer(spec, from, to, n, &mut seen, &mut out);
                if !more {
                    proof {
                        lemma_no_occurrences(*spec, *from, *to, n as int, DAY_COUNT - 1);
                    }
                    return out;
                }
                proof {
                    done = n as int;
                }
            }
        }
        proof {
            lemma_cycle_gap(*spec, *from, *to, day, month as int, k, done, next);
            done = next;
            assert((k + 1) * step == k * step + step) by (nonlinear_arith);
            k = k + 1;
        }
        month = month + step;
    }
    out
}

/// Expands a rule into its occurrences in the window from `window_start`
/// to `window_end`, both ends included, in chronological order.
///
/// The occurrences are the candidates of the rule that its termination
/// admits; a count is taken from the start of the rule, not from the start
/// of the window.
pub fn expand(spec: &RecurrenceSpec, window_start: &Instant, window_end: &Instant) -> (out: Vec<
    Instant,
>)
    requires
        spec.is_valid(),
        window_start.is_valid(),
        window_end.is_valid(),
    ensures
        out@ == expansion(*spec, *window_start, *window_end),
{
    match spec.cadence {
        Cadence::Daily => expand_daily(spec, window_start, window_end),
        Cadence::Weekly { by_weekday } => expand_weekly(spec, window_start, window_end, by_weekday),
        Cadence::Monthly { by_month_day } => expand_monthly(
            spec,
            window_start,
            window_end,
            by_month_day,
        ),
    }
}

} // verus!
