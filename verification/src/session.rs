//! The clock of a session.

use vstd::prelude::*;
use crate::config;
use crate::timer::Timer;
use crate::timer::TimerMode;

verus! {

/// Counts down the time that is left to play.
#[derive(Clone, Copy, Debug)]
pub struct TimeRemaining {
    pub timer: Timer,
}

impl TimeRemaining {
    /// The clock of a new session, with `GAME_TIME` seconds to go.
    pub fn new() -> (time_remaining: Self)
        ensures
            time_remaining.timer.wf(),
            time_remaining.timer == Timer::fresh(
                config::GAME_TIME as nat * 1_000_000_000,
                TimerMode::Once,
            ),
    {
        TimeRemaining { timer: Timer::from_secs(config::GAME_TIME, TimerMode::Once) }
    }
}

/// Advances the clock by `delta` nanoseconds and tells whether the session
/// ended with this tick.
pub fn check_game_over(time_remaining: &mut TimeRemaining, delta: u128) -> (over: bool)
    requires
        old(time_remaining).timer.wf(),
    ensures
        final(time_remaining).timer.wf(),
        final(time_remaining).timer == old(time_remaining).timer.ticked(delta as nat),
        over == old(time_remaining).timer@.tick(delta as nat).just_finished,
{
    time_remaining.timer.tick(delta);
    time_remaining.timer.just_finished()
}

} // verus!
