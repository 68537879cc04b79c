use bevy::time::{Timer, TimerMode};
use core::time::Duration;
use vstd::prelude::*;

verus! {

#[verifier::external_type_specification]
#[verifier::external_body]
pub struct ExTimer(Timer);

/// The largest span a `Duration` holds, in nanoseconds.
pub open spec fn duration_max_nanos() -> nat {
    (u64::MAX as nat) * 1_000_000_000 + 999_999_999
}

/// Nanoseconds on the timer's stopwatch (`Timer::elapsed`).
pub uninterp spec fn timer_elapsed(t: Timer) -> nat;

/// Nanoseconds the timer runs for (`Timer::duration`).
pub uninterp spec fn timer_duration(t: Timer) -> nat;

/// The timer wraps around instead of stopping (`Timer::mode`).
pub uninterp spec fn timer_repeating(t: Timer) -> bool;

/// The timer has reached its duration (`Timer::is_finished`).
pub uninterp spec fn timer_finished(t: Timer) -> bool;

/// How many times the last tick completed the timer
/// (`Timer::times_finished_this_tick`).
pub uninterp spec fn timer_times_finished(t: Timer) -> nat;

/// The timer ignores ticks (`Timer::is_paused`).
pub uninterp spec fn timer_paused(t: Timer) -> bool;

/// The stopwatch reading after adding `delta` (`Duration::saturating_add`).
pub open spec fn saturating_elapsed(elapsed: nat, delta: nat) -> nat {
    if elapsed + delta > duration_max_nanos() {
        duration_max_nanos()
    } else {
        elapsed + delta
    }
}

/// What `Timer::tick` does to a timer that is neither paused nor a finished
/// one-shot: the elapsed time grows by `delta`; once it reaches the duration a
/// one-shot timer stops at its duration and a repeating one keeps the
/// remainder and counts how many periods passed.
pub open spec fn ticked(before: Timer, after: Timer, delta: nat) -> bool {
    let e = saturating_elapsed(timer_elapsed(before), delta);
    let d = timer_duration(before);
    &&& timer_finished(after) == (e >= d)
    &&& if e >= d {
        if timer_repeating(before) {
            &&& timer_times_finished(after) == (if d == 0 {
                u32::MAX as nat
            } else {
                ((e / d) as u32) as nat
            })
            &&& timer_elapsed(after) == (if d == 0 {
                0
            } else {
                ((e % d) as u64) as nat
            })
        } else {
            &&& timer_times_finished(after) == 1
            &&& timer_elapsed(after) == d
        }
    } else {
        &&& timer_times_finished(after) == 0
        &&& timer_elapsed(after) == e
    }
}

/// Makes a timer (`Timer::new`) that runs for `nanos` nanoseconds, once or
/// repeating; it starts at zero, unfinished and running.
#[verifier::external_body]
pub fn new_timer(nanos: u64, repeating: bool) -> (t: Timer)
    ensures
        timer_elapsed(t) == 0,
        timer_duration(t) == nanos as nat,
        timer_repeating(t) == repeating,
        !timer_finished(t),
        timer_times_finished(t) == 0,
        !timer_paused(t),
{
    let mode = if repeating {
        TimerMode::Repeating
    } else {
        TimerMode::Once
    };
    Timer::new(Duration::from_nanos(nanos), mode)
}

/// Advances a timer by `delta` nanoseconds (`Timer::tick`). A paused timer
/// keeps its time and reports no completion (a paused repeating one also
/// reads unfinished); a finished one-shot timer stays as it is and reports no
/// completion; any other timer moves as `ticked` says. Duration, mode and
/// pause flag never change.
#[verifier::external_body]
pub fn tick_timer(t: &mut Timer, delta: u64)
    ensures
        timer_duration(*final(t)) == timer_duration(*old(t)),
        timer_repeating(*final(t)) == timer_repeating(*old(t)),
        timer_paused(*final(t)) == timer_paused(*old(t)),
        timer_paused(*old(t)) ==> {
            &&& timer_elapsed(*final(t)) == timer_elapsed(*old(t))
            &&& timer_times_finished(*final(t)) == 0
            &&& timer_finished(*final(t)) == (!timer_repeating(*old(t)) && timer_finished(
                *old(t),
            ))
        },
        (!timer_paused(*old(t)) && !timer_repeating(*old(t)) && timer_finished(*old(t))) ==> {
            &&& timer_elapsed(*final(t)) == timer_elapsed(*old(t))
            &&& timer_times_finished(*final(t)) == 0
            &&& timer_finished(*final(t))
        },
        (!timer_paused(*old(t)) && (timer_repeating(*old(t)) || !timer_finished(*old(t))))
            ==> ticked(*old(t), *final(t), delta as nat),
{
    t.tick(Duration::from_nanos(delta));
}

/// Whether the last tick completed the timer at least once
/// (`Timer::just_finished`).
#[verifier::external_body]
pub fn timer_just_finished(t: &Timer) -> (b: bool)
    ensures
        b == (timer_times_finished(*t) > 0),
{
    t.just_finished()
}

/// Whether the timer has reached its duration (`Timer::is_finished`).
#[verifier::external_body]
pub fn timer_is_finished(t: &Timer) -> (b: bool)
    ensures
        b == timer_finished(*t),
{
    t.is_finished()
}

/// Puts the stopwatch back to zero and clears the finished state
/// (`Timer::reset`); duration, mode and pause flag stay.
#[verifier::external_body]
pub fn reset_timer(t: &mut Timer)
    ensures
        timer_elapsed(*final(t)) == 0,
        !timer_finished(*final(t)),
        timer_times_finished(*final(t)) == 0,
        timer_duration(*final(t)) == timer_duration(*old(t)),
        timer_repeating(*final(t)) == timer_repeating(*old(t)),
        timer_paused(*final(t)) == timer_paused(*old(t)),
{
    t.reset();
}

} // verus!
