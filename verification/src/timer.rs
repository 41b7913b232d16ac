//! Countdown timers measured in whole nanoseconds.
//!
//! A timer is advanced by [`Timer::tick`] with the time that passed since the
//! last call. A one-shot timer completes once and then stays put; a repeating
//! timer wraps around and may complete again, so it needs a duration that is
//! not nothing.
//!
//! The timer is this library's own. It counts without limit, and it agrees
//! with the timer of the `bevy` engine wherever that one neither fails nor
//! runs out of its 32-bit count of the completions within one tick.

use vstd::prelude::*;
use vstd::arithmetic::div_mod::lemma_fundamental_div_mod;
use vstd::arithmetic::div_mod::lemma_fundamental_div_mod_converse;

verus! {

/// Number of nanoseconds in one millisecond.
pub const NANOS_PER_MILLI: u128 = 1_000_000;

/// Number of nanoseconds in one second.
pub const NANOS_PER_SEC: u128 = 1_000_000_000;

/// What a timer does when it reaches its duration.
#[derive(Clone, Copy, Debug, PartialEq, Eq, Structural)]
pub enum TimerMode {
    /// Complete once, then stay completed.
    Once,
    /// Complete, wrap around and keep counting.
    Repeating,
}

/// The mathematical state of a [`Timer`].
pub struct TimerState {
    /// Time after which the timer completes, in nanoseconds.
    pub duration: nat,
    /// Time counted so far, in nanoseconds.
    pub elapsed: nat,
    /// Whether the timer wraps around on completion.
    pub repeating: bool,
    /// Whether the duration was reached by the latest tick (repeating) or by
    /// any tick so far (one-shot).
    pub finished: bool,
    /// Whether the latest tick completed the timer.
    pub just_finished: bool,
}

impl TimerState {
    /// A timer that has not been ticked yet.
    pub open spec fn fresh(duration: nat, repeating: bool) -> TimerState {
        TimerState { duration, elapsed: 0, repeating, finished: false, just_finished: false }
    }

    /// The counted time never passes the duration, a completed one-shot timer
    /// rests at its duration, and a repeating timer has a duration to repeat
    /// and has wrapped around.
    pub open spec fn wf(self) -> bool {
        &&& self.elapsed <= self.duration
        &&& self.just_finished ==> self.finished
        &&& !self.repeating && self.finished ==> self.elapsed == self.duration
        &&& self.repeating ==> self.elapsed < self.duration
    }

    /// The state after `delta` more nanoseconds.
    pub open spec fn tick(self, delta: nat) -> TimerState {
        if !self.repeating {
            if self.finished {
                TimerState { just_finished: false, ..self }
            } else if self.elapsed + delta >= self.duration {
                TimerState { elapsed: self.duration, finished: true, just_finished: true, ..self }
            } else {
                TimerState { elapsed: self.elapsed + delta, ..self }
            }
        } else {
            let total = self.elapsed + delta;
            let done = total >= self.duration;
            TimerState {
                elapsed: total % self.duration,
                finished: done,
                just_finished: done,
                ..self
            }
        }
    }
}

/// A countdown timer. All times are in nanoseconds.
#[derive(Clone, Copy, Debug)]
pub struct Timer {
    pub duration: u128,
    pub elapsed: u128,
    pub mode: TimerMode,
    pub finished: bool,
    pub just_finished: bool,
}

impl View for Timer {
    type V = TimerState;

    open spec fn view(&self) -> TimerState {
        TimerState {
            duration: self.duration as nat,
            elapsed: self.elapsed as nat,
            repeating: self.mode == TimerMode::Repeating,
            finished: self.finished,
            just_finished: self.just_finished,
        }
    }
}

impl Timer {
    /// Validity of a timer: its state is well formed.
    pub open spec fn wf(&self) -> bool {
        self@.wf()
    }

    /// Whether the timer is valid.
    pub fn is_wf(&self) -> (b: bool)
        ensures
            b == self.wf(),
    {
        let repeating = match self.mode {
            TimerMode::Once => false,
            TimerMode::Repeating => true,
        };
        self.elapsed <= self.duration && (!self.just_finished || self.finished) && (repeating
            || !self.finished || self.elapsed == self.duration) && (!repeating || self.elapsed
            < self.duration)
    }

    /// Whether the next tick completes the timer if it comes after `delta`
    /// nanoseconds.
    pub fn completes_after(&self, delta: u128) -> (b: bool)
        requires
            self.wf(),
        ensures
            b == self@.tick(delta as nat).just_finished,
    {
        match self.mode {
            TimerMode::Once => !self.finished && delta >= self.duration - self.elapsed,
            TimerMode::Repeating => delta >= self.duration - self.elapsed,
        }
    }

    /// The timer whose state is `state`.
    pub open spec fn of(state: TimerState) -> Timer {
        Timer {
            duration: state.duration as u128,
            elapsed: state.elapsed as u128,
            mode: if state.repeating {
                TimerMode::Repeating
            } else {
                TimerMode::Once
            },
            finished: state.finished,
            just_finished: state.just_finished,
        }
    }

    /// A timer of `duration` nanoseconds that has not been ticked yet.
    pub open spec fn fresh(duration: nat, mode: TimerMode) -> Timer {
        Timer::of(TimerState::fresh(duration, mode == TimerMode::Repeating))
    }

    /// The timer after `delta` more nanoseconds.
    pub open spec fn ticked(self, delta: nat) -> Timer {
        Timer::of(self@.tick(delta))
    }

    /// A fresh timer of `duration` nanoseconds. It is valid unless it is to
    /// repeat a duration of nothing.
    pub fn new(duration: u128, mode: TimerMode) -> (t: Timer)
        ensures
            t.wf() <==> mode == TimerMode::Once || duration > 0,
            t == Timer::fresh(duration as nat, mode),
            t@ == TimerState::fresh(duration as nat, mode == TimerMode::Repeating),
    {
        Timer { duration, elapsed: 0, mode, finished: false, just_finished: false }
    }

    /// A fresh timer of `millis` milliseconds. It is valid unless it is to
    /// repeat a duration of nothing.
    pub fn from_millis(millis: u64, mode: TimerMode) -> (t: Timer)
        ensures
            t.wf() <==> mode == TimerMode::Once || millis > 0,
            t == Timer::fresh(millis as nat * 1_000_000, mode),
            t@ == TimerState::fresh(millis as nat * 1_000_000, mode == TimerMode::Repeating),
    {
        Timer::new(millis as u128 * NANOS_PER_MILLI, mode)
    }

    /// A fresh timer of `secs` seconds. It is valid unless it is to repeat a
    /// duration of nothing.
    pub fn from_secs(secs: u64, mode: TimerMode) -> (t: Timer)
        ensures
            t.wf() <==> mode == TimerMode::Once || secs > 0,
            t == Timer::fresh(secs as nat * 1_000_000_000, mode),
            t@ == TimerState::fresh(secs as nat * 1_000_000_000, mode == TimerMode::Repeating),
    {
        Timer::new(secs as u128 * NANOS_PER_SEC, mode)
    }

    /// Advances the timer by `delta` nanoseconds.
    pub fn tick(&mut self, delta: u128)
        requires
            old(self).wf(),
        ensures
            final(self).wf(),
            *final(self) == old(self).ticked(delta as nat),
            final(self)@ == old(self)@.tick(delta as nat),
    {
        match self.mode {
            TimerMode::Once => {
                if self.finished {
                    self.just_finished = false;
                } else if delta >= self.duration - self.elapsed {
                    self.elapsed = self.duration;
                    self.finished = true;
                    self.just_finished = true;
                } else {
                    self.elapsed = self.elapsed + delta;
                    self.finished = false;
                    self.just_finished = false;
                }
            },
            TimerMode::Repeating => {
                let rest: u128 = delta % self.duration;
                let room: u128 = self.duration - self.elapsed;
                let wrapped = rest >= room;
                let done = wrapped || delta >= self.duration;
                let next: u128 = if wrapped {
                    rest - room
                } else {
                    self.elapsed + rest
                };
                proof {
                    lemma_wrapped_sum(
                        self.elapsed as int,
                        delta as int,
                        self.duration as int,
                        next as int,
                    );
                }
                self.elapsed = next;
                self.finished = done;
                self.just_finished = done;
            },
        }
    }

    /// The time after which the timer completes, in nanoseconds.
    pub fn duration(&self) -> (d: u128)
        ensures
            d == self@.duration,
    {
        self.duration
    }

    /// The time counted so far, in nanoseconds.
    pub fn elapsed(&self) -> (e: u128)
        ensures
            e == self@.elapsed,
    {
        self.elapsed
    }

    /// The time still to go, in nanoseconds.
    pub fn remaining(&self) -> (r: u128)
        requires
            self.wf(),
        ensures
            r == self@.duration - self@.elapsed,
    {
        self.duration - self.elapsed
    }

    /// Whether the timer wraps around or stops on completion.
    pub fn mode(&self) -> (m: TimerMode)
        ensures
            (m == TimerMode::Repeating) == self@.repeating,
    {
        self.mode
    }

    /// Whether the timer has reached its duration.
    pub fn finished(&self) -> (b: bool)
        ensures
            b == self@.finished,
    {
        self.finished
    }

    /// Whether the latest tick completed the timer.
    pub fn just_finished(&self) -> (b: bool)
        ensures
            b == self@.just_finished,
    {
        self.just_finished
    }
}

/// Adding `delta` to a count below `duration` and wrapping around: `next` is
/// the count reached by adding only the remainder of `delta` and wrapping at
/// most once.
proof fn lemma_wrapped_sum(elapsed: int, delta: int, duration: int, next: int)
    requires
        0 <= elapsed < duration,
        0 <= delta,
        next == if delta % duration >= duration - elapsed {
            delta % duration - (duration - elapsed)
        } else {
            elapsed + delta % duration
        },
    ensures
        next == (elapsed + delta) % duration,
        (elapsed + delta >= duration) <==> (delta % duration >= duration - elapsed || delta
            >= duration),
{
    let q = delta / duration;
    let r = delta % duration;
    lemma_fundamental_div_mod(delta, duration);
    assert(delta == duration * q + r);
    assert(0 <= q) by (nonlinear_arith)
        requires
            delta == duration * q + r,
            0 <= delta,
            0 <= r < duration,
    ;
    if r >= duration - elapsed {
        assert(elapsed + delta == (q + 1) * duration + next) by (nonlinear_arith)
            requires
                delta == duration * q + r,
                next == r - (duration - elapsed),
        ;
        lemma_fundamental_div_mod_converse(elapsed + delta, duration, q + 1, next);
        assert((q + 1) * duration >= duration) by (nonlinear_arith)
            requires
                0 <= q,
                0 < duration,
        ;
    } else {
        assert(elapsed + delta == q * duration + next) by (nonlinear_arith)
            requires
                delta == duration * q + r,
                next == elapsed + r,
        ;
        lemma_fundamental_div_mod_converse(elapsed + delta, duration, q, next);
        if delta >= duration {
            assert(q * duration >= duration) by (nonlinear_arith)
                requires
                    delta == duration * q + r,
                    delta >= duration,
                    0 <= r < duration,
            ;
        } else {
            assert(q * duration == 0) by (nonlinear_arith)
                requires
                    delta == duration * q + r,
                    delta < duration,
                    0 <= r,
                    0 <= q,
                    duration > 0,
            ;
        }
    }
}

} // verus!
