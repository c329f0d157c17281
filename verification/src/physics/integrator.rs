//! Rest tracking of the integrator: a moving body that stays nearly still
//! for `SLEEP_STEPS` consecutive integration steps is put to sleep, and any
//! step with noticeable motion resets the count.
//!
//! Whether a step counts as resting is decided by the caller from the
//! body's velocities.

use vstd::prelude::*;

verus! {

/// Consecutive resting steps after which a body falls asleep.
pub const SLEEP_STEPS: u32 = 60;

/// The rest counter and sleep flag after one integration step of an awake
/// body with counter `counter`.
pub open spec fn rest_step(counter: int, at_rest: bool) -> (int, bool) {
    if at_rest {
        (counter + 1, counter + 1 >= SLEEP_STEPS)
    } else {
        (0, false)
    }
}

/// Updates the rest counter of an awake body after an integration step and
/// tells whether the body is now asleep.
pub fn update_rest(counter: u32, at_rest: bool) -> (r: (u32, bool))
    requires
        at_rest ==> counter < u32::MAX,
    ensures
        (r.0 as int, r.1) == rest_step(counter as int, at_rest),
{
    if at_rest {
        let c = counter + 1;
        (c, c >= SLEEP_STEPS)
    } else {
        (0, false)
    }
}

/// The counter and sleep flag after a run of steps, starting from `counter`,
/// where `steps[i]` tells whether step `i` was resting.
pub open spec fn rest_run(counter: int, steps: Seq<bool>) -> (int, bool)
    decreases steps.len(),
{
    if steps.len() == 0 {
        (counter, false)
    } else {
        rest_step(rest_run(counter, steps.drop_last()).0, steps.last())
    }
}

/// Number of resting steps at the end of `steps`, back to the last
/// non-resting one.
pub open spec fn trailing_rest(steps: Seq<bool>) -> int
    decreases steps.len(),
{
    if steps.len() == 0 || !steps.last() {
        0
    } else {
        trailing_rest(steps.drop_last()) + 1
    }
}

/// Starting from a reset counter, the counter equals the number of
/// consecutive resting steps at the end of the run, and after a nonempty run
/// the body is asleep exactly when that number has reached `SLEEP_STEPS`.
pub proof fn lemma_sleep_after_consecutive_rest(steps: Seq<bool>)
    ensures
        rest_run(0, steps).0 == trailing_rest(steps),
        steps.len() > 0 ==> (rest_run(0, steps).1 <==> trailing_rest(steps) >= SLEEP_STEPS),
    decreases steps.len(),
{
    if steps.len() > 0 {
        lemma_sleep_after_consecutive_rest(steps.drop_last());
    }
}

} // verus!
