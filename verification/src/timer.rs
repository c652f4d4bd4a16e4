//! A timer that counts elapsed time up to a period, again and again. Its
//! state is held here as two plain numbers; the ticking is the engine's.

use bevy::time::{Timer, TimerMode};
use std::time::Duration;
use vstd::arithmetic::div_mod::{lemma_fundamental_div_mod, lemma_fundamental_div_mod_converse};
use vstd::prelude::*;

verus! {

/// A repeating timer: `elapsed` nanoseconds have gone by since the period
/// of `period` nanoseconds last came round.
#[derive(Clone, Copy, Debug, PartialEq, Eq, Structural)]
pub struct RepeatingTimer {
    pub elapsed: u64,
    pub period: u64,
}

impl RepeatingTimer {
    /// The time gone by lies inside the period. A timer with period zero
    /// comes round at every tick and never holds any time.
    pub open spec fn wf(self) -> bool {
        if self.period == 0 {
            self.elapsed == 0
        } else {
            self.elapsed < self.period
        }
    }

    /// Whether the period comes round within the next `delta` nanoseconds.
    pub open spec fn completes(self, delta: u64) -> bool {
        self.elapsed + delta >= self.period
    }

    /// The timer `delta` nanoseconds later: the time gone by, less every
    /// whole period in it.
    pub open spec fn after(self, delta: u64) -> RepeatingTimer {
        RepeatingTimer {
            elapsed: if self.period == 0 {
                0
            } else {
                ((self.elapsed + delta) % (self.period as int)) as u64
            },
            period: self.period,
        }
    }

    /// How many times the period comes round within the next `delta`
    /// nanoseconds, for a period that is not zero.
    pub open spec fn periods_within(self, delta: u64) -> int {
        (self.elapsed + delta) / (self.period as int)
    }

    /// A timer of the given period, in nanoseconds, on which no time has
    /// gone by.
    pub fn new(period: u64) -> (timer: Self)
        ensures
            timer == (RepeatingTimer { elapsed: 0, period }),
            timer.wf(),
    {
        RepeatingTimer { elapsed: 0, period }
    }

    /// Lets `delta` nanoseconds go by, and says whether the period came
    /// round in them. However many periods came round, the answer is one
    /// `true`, and the time beyond the last of them is kept.
    pub fn tick(&mut self, delta: u64) -> (completed: bool)
        ensures
            *final(self) == old(self).after(delta),
            completed == old(self).completes(delta),
            final(self).wf(),
    {
        let ticked = tick_engine_timer(self.elapsed, self.period, delta);
        self.elapsed = ticked.0;
        ticked.1
    }
}

/// Ticks a timer of the engine: a `bevy::time::Timer` in
/// `TimerMode::Repeating` that holds `elapsed` nanoseconds of a period of
/// `period` nanoseconds takes a `Timer::tick` of `delta` nanoseconds.
/// Returned are the nanoseconds that it then holds, `Timer::elapsed`, and
/// whether it reached its period within the tick, `Timer::finished`, which
/// for a repeating timer the engine documents to say what
/// `Timer::just_finished` says.
///
/// Believed, not proved, of a repeating timer that is not paused: the tick
/// adds `delta` to the time held; the timer has finished if the sum is no
/// less than the period; and it is left holding the remainder of the sum by
/// the period, or nothing where the period is zero.
#[verifier::external_body]
fn tick_engine_timer(elapsed: u64, period: u64, delta: u64) -> (ticked: (u64, bool))
    ensures
        ticked.0 == (if period == 0 {
            0
        } else {
            (elapsed + delta) % (period as int)
        }),
        ticked.1 == (elapsed + delta >= period),
{
    let mut timer = Timer::new(Duration::from_nanos(period), TimerMode::Repeating);
    timer.set_elapsed(Duration::from_nanos(elapsed));
    timer.tick(Duration::from_nanos(delta));
    (timer.elapsed().as_nanos() as u64, timer.finished())
}

/// Within a tick that is no longer than the period, the period comes round
/// once or not at all.
pub proof fn lemma_short_tick_completes_once(timer: RepeatingTimer, delta: u64)
    requires
        timer.wf(),
        0 < timer.period,
        delta <= timer.period,
    ensures
        timer.periods_within(delta) == if timer.completes(delta) {
            1int
        } else {
            0int
        },
{
    let total = timer.elapsed + delta;
    let period = timer.period as int;
    if total >= period {
        lemma_fundamental_div_mod_converse(total, period, 1, total - period);
    } else {
        lemma_fundamental_div_mod_converse(total, period, 0, total);
    }
}

/// A tick leaves the period as it is and loses no time: the time held before
/// and the time of the tick are together the whole periods that came round
/// and the time held afterwards. The tick says that the period came round
/// exactly when at least one did.
pub proof fn lemma_tick_keeps_time(timer: RepeatingTimer, delta: u64)
    requires
        timer.wf(),
        0 < timer.period,
    ensures
        timer.after(delta).wf(),
        timer.after(delta).period == timer.period,
        timer.elapsed + delta == timer.periods_within(delta) * timer.period + timer.after(
            delta,
        ).elapsed,
        timer.completes(delta) <==> timer.periods_within(delta) >= 1,
{
    let total = timer.elapsed + delta;
    let period = timer.period as int;
    lemma_fundamental_div_mod(total, period);
    assert(period * (total / period) == (total / period) * period) by (nonlinear_arith);
    assert((total >= period) <==> (total / period >= 1)) by (nonlinear_arith)
        requires
            total == period * (total / period) + total % period,
            0 <= total % period < period,
            0 < period,
            0 <= total,
    ;
}

} // verus!
