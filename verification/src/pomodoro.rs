//! The pomodoro countdown state machine.
//!
//! A timer alternates between a work phase and a break phase.  `tick`
//! decrements the remaining seconds unless paused or already at zero; when a
//! phase reaches zero the next `tick_timer` step switches to the other phase.

use vstd::prelude::*;

verus! {

/// The timer: configured durations, the running countdown, and flags.
#[derive(Clone, Copy, Debug, PartialEq, Eq, Structural)]
pub struct PomodoroState {
    pub work_duration: u32,
    pub break_duration: u32,
    pub remaining: u32,
    pub is_break: bool,
    pub is_paused: bool,
}

/// The owned timer state a shell keeps for the timer commands.
pub struct TimerState {
    pub timer: PomodoroState,
}

/// Minutes to seconds.
pub fn to_seconds(minutes: u32) -> (r: u32)
    requires
        minutes * 60 <= u32::MAX,
    ensures
        r == minutes * 60,
{
    minutes * 60
}

/// Minutes to seconds; kept beside [`to_seconds`] for callers of the older
/// name.
pub fn to_times(minutes: u32) -> (r: u32)
    requires
        minutes * 60 <= u32::MAX,
    ensures
        r == minutes * 60,
{
    to_seconds(minutes)
}

/// One second of countdown: decrements, stopping at zero.
pub fn tick(remaining: u32) -> (r: u32)
    ensures
        r == if remaining == 0 {
            0u32
        } else {
            (remaining - 1) as u32
        },
{
    if remaining == 0 {
        0
    } else {
        remaining - 1
    }
}

/// A countdown is finished when nothing remains.
pub fn is_finished(remaining: u32) -> (r: bool)
    ensures
        r == (remaining == 0),
{
    remaining == 0
}

/// The phase that follows: work after break, break after work.
pub fn next_phase(is_break: bool) -> (r: bool)
    ensures
        r == !is_break,
{
    !is_break
}

/// A fresh work phase.
pub open spec fn spec_work_state(work_duration: u32, break_duration: u32) -> PomodoroState {
    (PomodoroState {
        work_duration,
        break_duration,
        remaining: work_duration,
        is_break: false,
        is_paused: false,
    })
}

/// A fresh break phase.
pub open spec fn spec_break_state(work_duration: u32, break_duration: u32) -> PomodoroState {
    (PomodoroState {
        work_duration,
        break_duration,
        remaining: break_duration,
        is_break: true,
        is_paused: false,
    })
}

pub fn start_work_timer(work_duration: u32, break_duration: u32) -> (r: PomodoroState)
    ensures
        r == spec_work_state(work_duration, break_duration),
{
    PomodoroState {
        work_duration,
        break_duration,
        remaining: work_duration,
        is_break: false,
        is_paused: false,
    }
}

pub fn start_break_timer(work_duration: u32, break_duration: u32) -> (r: PomodoroState)
    ensures
        r == spec_break_state(work_duration, break_duration),
{
    PomodoroState {
        work_duration,
        break_duration,
        remaining: break_duration,
        is_break: true,
        is_paused: false,
    }
}

impl PomodoroState {
    /// One second passes: the countdown drops by one unless the timer is
    /// paused or already at zero.
    pub fn tick(&self) -> (r: PomodoroState)
        ensures
            r == (PomodoroState {
                remaining: if self.is_paused || self.remaining == 0 {
                    self.remaining
                } else {
                    (self.remaining - 1) as u32
                },
                ..*self
            }),
    {
        if self.is_paused {
            *self
        } else {
            PomodoroState { remaining: tick(self.remaining), ..*self }
        }
    }

    pub fn pause(&self) -> (r: PomodoroState)
        ensures
            r == (PomodoroState { is_paused: true, ..*self }),
    {
        PomodoroState { is_paused: true, ..*self }
    }

    pub fn resume(&self) -> (r: PomodoroState)
        ensures
            r == (PomodoroState { is_paused: false, ..*self }),
    {
        PomodoroState { is_paused: false, ..*self }
    }

    /// Back to the full duration of the current phase, paused.
    pub fn reset(&self) -> (r: PomodoroState)
        ensures
            r == (PomodoroState {
                remaining: if self.is_break {
                    self.break_duration
                } else {
                    self.work_duration
                },
                is_paused: true,
                ..*self
            }),
    {
        let reset_seconds = if self.is_break {
            self.break_duration
        } else {
            self.work_duration
        };
        PomodoroState { remaining: reset_seconds, is_paused: true, ..*self }
    }

    pub fn is_finished(&self) -> (r: bool)
        ensures
            r == (self.remaining == 0),
    {
        is_finished(self.remaining)
    }

    pub fn is_break_finished(&self) -> (r: bool)
        ensures
            r == (self.is_break && self.remaining == 0),
    {
        self.is_break && self.is_finished()
    }

    pub fn is_work_finished(&self) -> (r: bool)
        ensures
            r == (!self.is_break && self.remaining == 0),
    {
        !self.is_break && self.is_finished()
    }

    /// A new work duration; a timer resting in the work phase restarts
    /// from it, a break keeps its countdown.
    pub fn update_work_duration(&self, seconds: u32) -> (r: PomodoroState)
        ensures
            r == (PomodoroState {
                work_duration: seconds,
                remaining: if self.is_break {
                    self.remaining
                } else {
                    seconds
                },
                ..*self
            }),
    {
        PomodoroState {
            work_duration: seconds,
            remaining: if !self.is_break {
                seconds
            } else {
                self.remaining
            },
            ..*self
        }
    }

    /// A new break duration; a timer resting in the break phase restarts
    /// from it, a work phase keeps its countdown.
    pub fn update_break_duration(&self, seconds: u32) -> (r: PomodoroState)
        ensures
            r == (PomodoroState {
                break_duration: seconds,
                remaining: if self.is_break {
                    seconds
                } else {
                    self.remaining
                },
                ..*self
            }),
    {
        PomodoroState {
            break_duration: seconds,
            remaining: if self.is_break {
                seconds
            } else {
                self.remaining
            },
            ..*self
        }
    }

    /// When the running phase has just reached zero, the other phase starts;
    /// otherwise the state is unchanged.
    pub fn next_state(&self) -> (r: PomodoroState)
        ensures
            r == if !self.is_break && self.remaining == 0 {
                spec_break_state(self.work_duration, self.break_duration)
            } else if self.is_break && self.remaining == 0 {
                spec_work_state(self.work_duration, self.break_duration)
            } else {
                *self
            },
    {
        if self.is_finished() {
            if next_phase(self.is_break) {
                start_break_timer(self.work_duration, self.break_duration)
            } else {
                start_work_timer(self.work_duration, self.break_duration)
            }
        } else {
            *self
        }
    }
}

} // verus!
