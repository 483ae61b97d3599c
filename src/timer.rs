use std::time::Duration;
use vstd::arithmetic::div_mod::{
    lemma_div_is_ordered, lemma_div_pos_is_pos, lemma_fundamental_div_mod, lemma_fundamental_div_mod_converse,
    lemma_mod_pos_bound,
};
use vstd::prelude::*;

verus! {

/// Whether a timer stops at its duration or starts over.
#[derive(Debug, Clone, Copy, PartialEq, Eq, Structural)]
pub enum TimerMode {
    Once,
    Repeating,
}

/// What one tick of bevy's `Timer` yields, for a timer of `duration` nanoseconds in `mode`
/// that has run `elapsed` nanoseconds without finishing: the elapsed time afterwards and the
/// number of times it finished during the tick.
pub open spec fn timer_tick_result(mode: TimerMode, duration: int, elapsed: int, delta: int) -> (
    int,
    int,
) {
    let sum = elapsed + delta;
    if sum < duration {
        (sum, 0)
    } else {
        match mode {
            TimerMode::Once => (duration, 1),
            TimerMode::Repeating => if duration == 0 {
                (0, u32::MAX as int)
            } else {
                (sum % duration, (sum / duration) % 0x1_0000_0000)
            },
        }
    }
}

/// Relies on `bevy::time::Timer::tick`: a fresh timer of `duration` set to `elapsed` has not
/// finished; ticking it adds `delta` to its stopwatch; once the elapsed time reaches the
/// duration, a `Once` timer stays at its duration and reports one finish, while a `Repeating`
/// timer keeps the remainder and reports the quotient (cast to `u32`; a zero duration reports
/// `u32::MAX` and resets to zero). All values here are nanoseconds; the sum of two `u64`
/// nanosecond counts is far below `Duration::MAX`, so the stopwatch does not saturate.
#[verifier::external_body]
fn bevy_timer_tick(mode: TimerMode, duration: u64, elapsed: u64, delta: u64) -> (r: (u64, u32))
    ensures
        (r.0 as int, r.1 as int) == timer_tick_result(mode, duration as int, elapsed as int, delta as int),
{
    let mode = match mode {
        TimerMode::Once => bevy::time::TimerMode::Once,
        TimerMode::Repeating => bevy::time::TimerMode::Repeating,
    };
    let mut timer = bevy::time::Timer::new(Duration::from_nanos(duration), mode);
    timer.set_elapsed(Duration::from_nanos(elapsed));
    timer.tick(Duration::from_nanos(delta));
    (timer.elapsed().as_nanos() as u64, timer.times_finished_this_tick())
}

/// A one-shot countdown of `duration` nanoseconds.
#[derive(Debug, Clone, Copy, PartialEq, Eq, Structural)]
pub struct CountdownTimer {
    pub duration: u64,
    pub elapsed: u64,
    pub finished: bool,
}

impl CountdownTimer {
    pub open spec fn wf(self) -> bool {
        &&& self.elapsed <= self.duration
        &&& self.finished ==> self.elapsed == self.duration
    }

    /// The countdown left, in nanoseconds.
    pub open spec fn remaining_spec(self) -> int {
        self.duration - self.elapsed
    }

    /// The state after ticking by `delta` nanoseconds.
    pub open spec fn ticked(self, delta: int) -> CountdownTimer {
        if self.finished {
            self
        } else {
            let (e, n) = timer_tick_result(TimerMode::Once, self.duration as int, self.elapsed as int, delta);
            CountdownTimer { duration: self.duration, elapsed: e as u64, finished: n > 0 }
        }
    }

    pub fn new(duration: u64) -> (r: CountdownTimer)
        ensures
            r.wf(),
            r == (CountdownTimer { duration, elapsed: 0, finished: false }),
    {
        CountdownTimer { duration, elapsed: 0, finished: false }
    }

    pub fn is_finished(&self) -> (r: bool)
        ensures
            r == self.finished,
    {
        self.finished
    }

    pub fn remaining(&self) -> (r: u64)
        requires
            self.wf(),
        ensures
            r == self.remaining_spec(),
    {
        self.duration - self.elapsed
    }

    /// Advances the countdown by `delta` nanoseconds; returns whether it finished during this
    /// tick. A finished countdown does not move.
    pub fn tick(&mut self, delta: u64) -> (just_finished: bool)
        requires
            old(self).wf(),
        ensures
            *final(self) == old(self).ticked(delta as int),
            final(self).wf(),
            just_finished == (!old(self).finished && final(self).finished),
            just_finished == (!old(self).finished && old(self).elapsed + delta >= old(self).duration),
    {
        if self.finished {
            return false;
        }
        let (e, n) = bevy_timer_tick(TimerMode::Once, self.duration, self.elapsed, delta);
        self.elapsed = e;
        self.finished = n > 0;
        self.finished
    }
}

/// A repeating timer that fires a fixed number of times, `tick_interval` nanoseconds apart.
#[derive(Debug, Clone, Copy, PartialEq, Eq, Structural)]
pub struct FiniteRepeatingTimer {
    tick_interval: u64,
    elapsed: u64,
    remaining_ticks: u32,
}

impl FiniteRepeatingTimer {
    pub closed spec fn wf(self) -> bool {
        self.elapsed < self.tick_interval || self.elapsed == 0
    }

    pub closed spec fn interval_spec(self) -> int {
        self.tick_interval as int
    }

    pub closed spec fn elapsed_spec(self) -> int {
        self.elapsed as int
    }

    pub closed spec fn remaining_ticks_spec(self) -> int {
        self.remaining_ticks as int
    }

    /// The time until the last tick: the intervals still to come after the current one, plus
    /// what is left of the current one.
    pub open spec fn remaining_time_spec(self) -> int {
        let whole = if self.remaining_ticks_spec() > 0 {
            self.remaining_ticks_spec() - 1
        } else {
            0
        };
        let partial = if self.interval_spec() >= self.elapsed_spec() {
            self.interval_spec() - self.elapsed_spec()
        } else {
            0
        };
        whole * self.interval_spec() + partial
    }

    /// The number of ticks that one advance by `delta` nanoseconds yields: every interval
    /// that elapses counts, up to the ticks remaining. With a zero interval, all remaining
    /// ticks come at once.
    pub open spec fn fresh_ticks_spec(self, delta: int) -> int {
        let n = self.remaining_ticks_spec();
        let i = self.interval_spec();
        let sum = self.elapsed_spec() + delta;
        if n == 0 {
            0
        } else if i == 0 {
            n
        } else if sum / i < n {
            sum / i
        } else {
            n
        }
    }

    /// The elapsed time within the current interval after an advance by `delta`; zero once
    /// the last tick has come.
    pub open spec fn elapsed_after(self, delta: int) -> int {
        let n = self.remaining_ticks_spec();
        let i = self.interval_spec();
        let sum = self.elapsed_spec() + delta;
        if n == 0 {
            self.elapsed_spec()
        } else if i == 0 || sum >= n * i {
            0
        } else {
            sum % i
        }
    }

    /// The timer after an advance by `delta` nanoseconds.
    pub closed spec fn ticked(self, delta: int) -> FiniteRepeatingTimer {
        FiniteRepeatingTimer {
            tick_interval: self.tick_interval,
            elapsed: self.elapsed_after(delta) as u64,
            remaining_ticks: (self.remaining_ticks - self.fresh_ticks_spec(delta)) as u32,
        }
    }

    /// A timer with all `num_ticks` ticks still to come and nothing elapsed.
    pub closed spec fn fresh(tick_interval: u64, num_ticks: u32) -> FiniteRepeatingTimer {
        FiniteRepeatingTimer { tick_interval, elapsed: 0, remaining_ticks: num_ticks }
    }

    pub fn new(tick_interval: u64, num_ticks: u32) -> (r: FiniteRepeatingTimer)
        ensures
            r == FiniteRepeatingTimer::fresh(tick_interval, num_ticks),
            r.wf(),
            r.interval_spec() == tick_interval,
            r.elapsed_spec() == 0,
            r.remaining_ticks_spec() == num_ticks,
    {
        FiniteRepeatingTimer { tick_interval, elapsed: 0, remaining_ticks: num_ticks }
    }

    pub fn remaining_ticks(&self) -> (r: u32)
        ensures
            r == self.remaining_ticks_spec(),
    {
        self.remaining_ticks
    }

    pub fn is_finished(&self) -> (r: bool)
        ensures
            r == (self.remaining_ticks_spec() == 0),
    {
        self.remaining_ticks == 0
    }

    /// The time left until the last tick, in nanoseconds.
    pub fn remaining_time(&self) -> (r: u128)
        ensures
            r == self.remaining_time_spec(),
    {
        let whole: u128 = if self.remaining_ticks > 0 {
            (self.remaining_ticks - 1) as u128
        } else {
            0
        };
        let interval = self.tick_interval as u128;
        assert(whole * interval <= 0xffff_ffff * 0xffff_ffff_ffff_ffff) by (nonlinear_arith)
            requires
                whole <= 0xffff_ffff,
                interval <= 0xffff_ffff_ffff_ffff,
        ;
        let partial: u128 = if interval >= self.elapsed as u128 {
            interval - self.elapsed as u128
        } else {
            0
        };
        whole * interval + partial
    }

    /// Advances the timer by `delta` nanoseconds and returns how many ticks elapsed, several
    /// when `delta` spans several intervals, but never more than the ticks remaining.
    pub fn tick_get_fresh_ticks(&mut self, delta: u64) -> (fresh: u32)
        requires
            old(self).wf(),
        ensures
            final(self).wf(),
            fresh == old(self).fresh_ticks_spec(delta as int),
            final(self).remaining_ticks_spec() == old(self).remaining_ticks_spec() - fresh,
            final(self).interval_spec() == old(self).interval_spec(),
            final(self).elapsed_spec() == old(self).elapsed_after(delta as int),
            *final(self) == old(self).ticked(delta as int),
    {
        if self.remaining_ticks == 0 {
            return 0;
        }
        let n = self.remaining_ticks;
        let interval = self.tick_interval;
        let elapsed = self.elapsed;
        assert((n as int) * (interval as int) <= 0xffff_ffff * 0xffff_ffff_ffff_ffff) by (nonlinear_arith)
            requires
                n <= 0xffff_ffff,
                interval <= 0xffff_ffff_ffff_ffff,
        ;
        assert((n as int) * (interval as int) >= elapsed as int) by (nonlinear_arith)
            requires
                n >= 1,
                elapsed < interval || elapsed == 0,
        ;
        // Advancing past the last tick yields nothing more, so the advance handed on stops
        // there; the count of finished intervals then never exceeds the ticks remaining.
        let until_last: u128 = (n as u128) * (interval as u128) - elapsed as u128;
        let step: u64 = if (delta as u128) < until_last {
            delta
        } else {
            until_last as u64
        };
        let (e, finished) = bevy_timer_tick(TimerMode::Repeating, interval, elapsed, step);
        proof {
            let sum = elapsed + delta;
            if interval > 0 {
                lemma_quotient_facts(sum, interval as int, n as int);
                lemma_quotient_facts(elapsed + step, interval as int, n as int);
            }
        }
        self.elapsed = e;
        let fresh = if finished < n {
            finished
        } else {
            n
        };
        self.remaining_ticks = n - fresh;
        fresh
    }

    /// Advancing by `a` and then by `b` yields as many ticks, and leaves as many to come, as
    /// advancing by `a + b` at once.
    pub proof fn lemma_ticks_add_up(self, a: int, b: int)
        requires
            self.wf(),
            0 <= a,
            0 <= b,
        ensures
            self.fresh_ticks_spec(a) + self.ticked(a).fresh_ticks_spec(b) == self.fresh_ticks_spec(a + b),
            self.ticked(a).ticked(b) == self.ticked(a + b),
            self.ticked(a).wf(),
    {
        let n = self.remaining_ticks as int;
        let i = self.tick_interval as int;
        let s = self.elapsed + a;
        if n > 0 && i > 0 {
            lemma_quotient_facts(s, i, n);
            lemma_quotient_facts(s + b, i, n);
            if s < n * i {
                let q = s / i;
                let r = s % i;
                lemma_fundamental_div_mod(s, i);
                lemma_fundamental_div_mod(r + b, i);
                let x = (r + b) / i;
                assert(s + b == (q + x) * i + (r + b) % i) by (nonlinear_arith)
                    requires
                        s == i * q + r,
                        r + b == i * x + (r + b) % i,
                ;
                lemma_fundamental_div_mod_converse(s + b, i, q + x, (r + b) % i);
                assert(self.ticked(a).elapsed == r);
                assert(self.ticked(a).remaining_ticks == n - q);
                lemma_quotient_facts(r + b, i, n - q);
                assert(r + b >= (n - q) * i <==> s + b >= n * i) by (nonlinear_arith)
                    requires
                        s == i * q + r,
                ;
            }
        }
    }
}

/// The sum of a sequence of step lengths.
pub open spec fn total_of(deltas: Seq<int>) -> int
    decreases deltas.len(),
{
    if deltas.len() == 0 {
        0
    } else {
        total_of(deltas.drop_last()) + deltas.last()
    }
}

impl FiniteRepeatingTimer {
    /// The timer after one advance for each of `deltas`, in order.
    pub open spec fn ticked_over(self, deltas: Seq<int>) -> FiniteRepeatingTimer
        decreases deltas.len(),
    {
        if deltas.len() == 0 {
            self
        } else {
            self.ticked_over(deltas.drop_last()).ticked(deltas.last())
        }
    }

    /// The ticks yielded by one advance for each of `deltas`, in order, added up.
    pub open spec fn fresh_ticks_over(self, deltas: Seq<int>) -> int
        decreases deltas.len(),
    {
        if deltas.len() == 0 {
            0
        } else {
            self.fresh_ticks_over(deltas.drop_last()) + self.ticked_over(deltas.drop_last()).fresh_ticks_spec(
                deltas.last(),
            )
        }
    }

    /// However an advance is split into steps (of a timer with a nonzero interval), the ticks it yields and the timer it leaves
    /// are those of one advance by the whole.
    pub proof fn lemma_ticks_over_steps(self, deltas: Seq<int>)
        requires
            self.wf(),
            self.interval_spec() > 0,
            forall|k: int| 0 <= k < deltas.len() ==> 0 <= #[trigger] deltas[k],
        ensures
            0 <= total_of(deltas),
            self.fresh_ticks_over(deltas) == self.fresh_ticks_spec(total_of(deltas)),
            self.ticked_over(deltas) == self.ticked(total_of(deltas)),
        decreases deltas.len(),
    {
        if deltas.len() == 0 {
            self.lemma_ticks_add_up(0, 0);
            assert(self.ticked(0) == self) by {
                if self.remaining_ticks > 0 && self.tick_interval > 0 {
                    lemma_quotient_facts(self.elapsed as int, self.tick_interval as int, self.remaining_ticks as int);
                    assert((self.remaining_ticks as int) * (self.tick_interval as int) >= self.tick_interval) by (nonlinear_arith)
                        requires
                            self.remaining_ticks >= 1,
                    ;
                }
            }
        } else {
            let init = deltas.drop_last();
            assert forall|k: int| 0 <= k < init.len() implies 0 <= #[trigger] init[k] by {
                assert(init[k] == deltas[k]);
            }
            self.lemma_ticks_over_steps(init);
            assert(0 <= deltas[deltas.len() - 1]);
            self.lemma_ticks_add_up(total_of(init), deltas.last());
        }
    }
}

/// A fresh timer, over steps that add up to at least all of its intervals, yields exactly its
/// ticks and is finished: a needling hex, five ticks 500 ms apart, has dealt all five once
/// 2.5 s have passed, however they were stepped.
pub proof fn lemma_full_run_of_ticks(tick_interval: u64, num_ticks: u32, deltas: Seq<int>)
    requires
        tick_interval > 0,
        forall|k: int| 0 <= k < deltas.len() ==> 0 <= #[trigger] deltas[k],
        total_of(deltas) >= num_ticks * tick_interval,
    ensures
        FiniteRepeatingTimer::fresh(tick_interval, num_ticks).fresh_ticks_over(deltas) == num_ticks,
        FiniteRepeatingTimer::fresh(tick_interval, num_ticks).ticked_over(deltas).remaining_ticks_spec() == 0,
{
    let t = FiniteRepeatingTimer::fresh(tick_interval, num_ticks);
    t.lemma_ticks_over_steps(deltas);
    lemma_quotient_facts(total_of(deltas), tick_interval as int, num_ticks as int);
}

/// Facts on the quotient of a count of nanoseconds `s` by an interval `i`, against `n`
/// intervals.
proof fn lemma_quotient_facts(s: int, i: int, n: int)
    requires
        0 <= s,
        0 < i,
        0 <= n,
    ensures
        s < n * i ==> s / i < n,
        s >= n * i ==> s / i >= n,
        (n * i) / i == n,
        (n * i) % i == 0,
        s < i ==> s / i == 0 && s % i == s,
        0 <= s % i < i,
        0 <= s / i,
{
    lemma_fundamental_div_mod(s, i);
    lemma_fundamental_div_mod_converse(n * i, i, n, 0);
    lemma_mod_pos_bound(s, i);
    if s < i {
        lemma_fundamental_div_mod_converse(s, i, 0, s);
    }
    lemma_div_pos_is_pos(s, i);
    if s < n * i {
        assert(s / i < n) by (nonlinear_arith)
            requires
                s == i * (s / i) + s % i,
                0 <= s % i,
                s < n * i,
                0 < i,
        ;
    } else {
        lemma_div_is_ordered(n * i, s, i);
    }
}

} // verus!
