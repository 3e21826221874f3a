//! When a loop fires the engine's timer, and how long it sleeps.
//!
//! Time spans are in nanoseconds.

use vstd::prelude::*;

verus! {

/// The longest that a loop sleeps in one turn: five milliseconds.
pub const SLEEP_CAP_NANOS: u128 = 5_000_000;

/// How long a loop sleeps where the engine has no deadline: two
/// milliseconds.
pub const IDLE_SLEEP_NANOS: u128 = 2_000_000;

/// What a connecting side does about the timer at the end of a turn.
#[derive(Copy, Clone, Debug, PartialEq, Eq, Structural)]
pub enum TimerPlan {
    /// Fire the timer at once.
    FireNow,
    /// Sleep, then fire the timer.
    SleepThenFire { nanos: u128 },
    /// Sleep and leave the timer alone.
    Sleep { nanos: u128 },
}

/// The plan for a deadline that is `timeout` away. A deadline that is due
/// is met at once. One within the cap is slept out and then met. A later
/// one gets a sleep of the cap, and none a short sleep.
pub open spec fn timer_plan(timeout: Option<u128>) -> TimerPlan {
    match timeout {
        Some(t) => if t == 0 {
            TimerPlan::FireNow
        } else if t <= SLEEP_CAP_NANOS {
            TimerPlan::SleepThenFire { nanos: t }
        } else {
            TimerPlan::Sleep { nanos: SLEEP_CAP_NANOS }
        },
        None => TimerPlan::Sleep { nanos: IDLE_SLEEP_NANOS },
    }
}

/// The plan for a deadline that is `timeout` away.
pub fn plan_timer(timeout: Option<u128>) -> (plan: TimerPlan)
    ensures
        plan == timer_plan(timeout),
{
    match timeout {
        Some(t) => {
            if t == 0 {
                TimerPlan::FireNow
            } else if t <= SLEEP_CAP_NANOS {
                TimerPlan::SleepThenFire { nanos: t }
            } else {
                TimerPlan::Sleep { nanos: SLEEP_CAP_NANOS }
            }
        },
        None => TimerPlan::Sleep { nanos: IDLE_SLEEP_NANOS },
    }
}

/// The one sleep of a turn of an accepting side: as long as the nearest
/// deadline among its connections is away, but no longer than the cap;
/// the short sleep where no connection has a deadline.
pub open spec fn shared_sleep(timeouts: Seq<Option<u128>>) -> u128
    decreases timeouts.len(),
{
    if timeouts.len() == 0 {
        IDLE_SLEEP_NANOS
    } else {
        let before = shared_sleep(timeouts.drop_last());
        let none_before = forall|i: int| 0 <= i < timeouts.len() - 1 ==> timeouts[i] is None;
        match timeouts.last() {
            Some(t) => {
                let capped = if t <= SLEEP_CAP_NANOS {
                    t
                } else {
                    SLEEP_CAP_NANOS
                };
                if none_before || capped <= before {
                    capped
                } else {
                    before
                }
            },
            None => before,
        }
    }
}

/// Whether the timer of a connection fires after a sleep of `slept`: it
/// does where its deadline was no further away.
pub open spec fn fires_after(timeout: Option<u128>, slept: u128) -> bool {
    timeout matches Some(t) && t <= slept
}

/// What an accepting side does about the timers at the end of a turn.
#[derive(Debug, PartialEq, Eq)]
pub struct SharedTimerPlan {
    /// How long to sleep, once for all connections.
    pub sleep_nanos: u128,
    /// For each connection, in the order of the deadlines given, whether
    /// to fire its timer after the sleep.
    pub fire: Vec<bool>,
}

/// The plan for the deadlines of the connections of an accepting side.
pub fn plan_shared_timers(timeouts: &Vec<Option<u128>>) -> (plan: SharedTimerPlan)
    ensures
        plan.sleep_nanos == shared_sleep(timeouts@),
        plan.fire@.len() == timeouts@.len(),
        forall|i: int|
            0 <= i < timeouts@.len() ==> #[trigger] plan.fire@[i] == fires_after(
                timeouts@[i],
                plan.sleep_nanos,
            ),
{
    let mut sleep: u128 = IDLE_SLEEP_NANOS;
    let mut any: bool = false;
    let mut i: usize = 0;
    while i < timeouts.len()
        invariant
            i <= timeouts@.len(),
            sleep == shared_sleep(timeouts@.subrange(0, i as int)),
            any == !(forall|k: int| 0 <= k < i ==> timeouts@[k] is None),
        decreases timeouts@.len() - i,
    {
        proof {
            let upto = timeouts@.subrange(0, i + 1);
            assert(upto.drop_last() =~= timeouts@.subrange(0, i as int));
            assert(upto.last() == timeouts@[i as int]);
            assert((forall|k: int| 0 <= k < upto.len() - 1 ==> upto[k] is None) == (forall|k: int|
                0 <= k < i ==> timeouts@[k] is None)) by {
                if forall|k: int| 0 <= k < i ==> timeouts@[k] is None {
                    assert forall|k: int| 0 <= k < upto.len() - 1 implies upto[k] is None by {
                        assert(upto[k] == timeouts@[k]);
                    }
                }
                if forall|k: int| 0 <= k < upto.len() - 1 ==> upto[k] is None {
                    assert forall|k: int| 0 <= k < i implies timeouts@[k] is None by {
                        assert(upto[k] == timeouts@[k]);
                    }
                }
            }
        }
        match timeouts[i] {
            Some(t) => {
                let capped: u128 = if t <= SLEEP_CAP_NANOS {
                    t
                } else {
                    SLEEP_CAP_NANOS
                };
                if !any || capped <= sleep {
                    sleep = capped;
                }
                any = true;
            },
            None => {},
        }
        i = i + 1;
    }
    assert(timeouts@.subrange(0, i as int) =~= timeouts@);
    let mut fire: Vec<bool> = Vec::new();
    let mut j: usize = 0;
    while j < timeouts.len()
        invariant
            j <= timeouts@.len(),
            fire@.len() == j,
            forall|k: int| 0 <= k < j ==> #[trigger] fire@[k] == fires_after(timeouts@[k], sleep),
        decreases timeouts@.len() - j,
    {
        let due = match timeouts[j] {
            Some(t) => t <= sleep,
            None => false,
        };
        fire.push(due);
        j = j + 1;
    }
    SharedTimerPlan { sleep_nanos: sleep, fire }
}

/// The shared sleep is never longer than the cap, and no deadline is
/// slept past: each is at least as far away as the sleep lasts.
pub proof fn lemma_shared_sleep_bounds(timeouts: Seq<Option<u128>>)
    ensures
        shared_sleep(timeouts) <= SLEEP_CAP_NANOS,
        forall|i: int|
            0 <= i < timeouts.len() ==> ((#[trigger] timeouts[i]) matches Some(t) ==> shared_sleep(
                timeouts,
            ) <= t),
    decreases timeouts.len(),
{
    if timeouts.len() > 0 {
        let front = timeouts.drop_last();
        lemma_shared_sleep_bounds(front);
        assert forall|i: int| 0 <= i < timeouts.len() implies (
        (#[trigger] timeouts[i]) matches Some(t) ==> shared_sleep(timeouts) <= t) by {
            if i < front.len() {
                assert(front[i] == timeouts[i]);
            }
        }
    }
}

} // verus!
