//! The timing decisions of the periodic capture loop. The loop wakes about
//! once a second; on each wake it hands the current time (milliseconds on a
//! monotonic clock), whether capturing is running and the configured
//! interval (absent when the configuration could not be read) to
//! `CaptureSchedule::tick`, and captures when that says so.

use vstd::prelude::*;
use crate::config::DEFAULT_INTERVAL;

verus! {

/// Milliseconds in a second.
pub const MILLIS_PER_SECOND: u64 = 1000;

/// When the next periodic capture is due, and the interval it was planned
/// with.
#[derive(Clone, Copy, Debug, PartialEq, Eq, Structural)]
pub struct CaptureSchedule {
    /// The interval, in seconds, that the schedule last saw.
    pub last_interval: u64,
    /// The time, in milliseconds, from which a capture is due.
    pub next_capture_ms: u64,
}

/// `now` plus `seconds` seconds, in milliseconds.
pub open spec fn after(now: u64, seconds: u64) -> int {
    now + seconds * 1000
}

/// Whether `tick` can compute its result for these inputs without leaving
/// the range of the clock.
pub open spec fn tick_fits(now: u64, running: bool, interval: Option<u64>) -> bool {
    running ==> match interval {
        Some(i) => after(now, i) <= u64::MAX,
        None => after(now, DEFAULT_INTERVAL) <= u64::MAX,
    }
}

/// Decides `tick_fits`: whether `CaptureSchedule::tick` can run for these
/// inputs.
pub fn tick_in_range(now_ms: u64, running: bool, interval: Option<u64>) -> (r: bool)
    ensures
        r == tick_fits(now_ms, running, interval),
{
    if !running {
        return true;
    }
    let seconds = match interval {
        Some(i) => i,
        None => DEFAULT_INTERVAL,
    };
    match seconds.checked_mul(MILLIS_PER_SECOND) {
        Some(ms) => now_ms.checked_add(ms).is_some(),
        None => {
            assert(seconds * 1000 > u64::MAX);
            false
        },
    }
}

/// What one wake of the loop does: the schedule after it, and whether it
/// captures.
///
/// While running, a changed interval restarts the wait from now; a capture
/// is taken once the due time is reached, and the next one is then due an
/// interval later. When the configuration cannot be read, the default
/// interval restarts the wait. While paused nothing is captured, the due
/// time follows the clock (so that resuming captures at once) and the
/// interval is remembered.
pub open spec fn tick_result(
    s: CaptureSchedule,
    now: u64,
    running: bool,
    interval: Option<u64>,
) -> (CaptureSchedule, bool) {
    if running {
        match interval {
            Some(i) => {
                let due = if i != s.last_interval {
                    after(now, i)
                } else {
                    s.next_capture_ms as int
                };
                if now >= due {
                    (CaptureSchedule { last_interval: i, next_capture_ms: after(now, i) as u64 }, true)
                } else {
                    (CaptureSchedule { last_interval: i, next_capture_ms: due as u64 }, false)
                }
            },
            None => (
                CaptureSchedule {
                    last_interval: DEFAULT_INTERVAL,
                    next_capture_ms: after(now, DEFAULT_INTERVAL) as u64,
                },
                false,
            ),
        }
    } else {
        (
            CaptureSchedule {
                last_interval: match interval {
                    Some(i) => i,
                    None => s.last_interval,
                },
                next_capture_ms: now,
            },
            false,
        )
    }
}

impl CaptureSchedule {
    /// The schedule when the loop starts at `now_ms`: a capture is due at
    /// once, planned with `interval` (the configured one, or the default
    /// when the configuration could not be read).
    pub fn new(interval: u64, now_ms: u64) -> (r: Self)
        ensures
            r.last_interval == interval,
            r.next_capture_ms == now_ms,
    {
        CaptureSchedule { last_interval: interval, next_capture_ms: now_ms }
    }

    /// One wake of the loop at `now_ms`: updates the schedule as
    /// `tick_result` says and returns whether to capture now.
    pub fn tick(&mut self, now_ms: u64, running: bool, interval: Option<u64>) -> (capture: bool)
        requires
            tick_fits(now_ms, running, interval),
        ensures
            (*final(self), capture) == tick_result(*old(self), now_ms, running, interval),
    {
        if running {
            match interval {
                Some(i) => {
                    if i != self.last_interval {
                        self.last_interval = i;
                        self.next_capture_ms = now_ms + i * MILLIS_PER_SECOND;
                    }
                    if now_ms >= self.next_capture_ms {
                        self.next_capture_ms = now_ms + i * MILLIS_PER_SECOND;
                        true
                    } else {
                        false
                    }
                },
                None => {
                    self.last_interval = DEFAULT_INTERVAL;
                    self.next_capture_ms = now_ms + DEFAULT_INTERVAL * MILLIS_PER_SECOND;
                    false
                },
            }
        } else {
            self.next_capture_ms = now_ms;
            if let Some(i) = interval {
                self.last_interval = i;
            }
            false
        }
    }
}

/// While paused no capture is taken, and the first wake after resuming
/// with an unchanged interval captures at once.
pub proof fn lemma_resume_captures_at_once(
    s: CaptureSchedule,
    paused_at: u64,
    resumed_at: u64,
    interval: u64,
)
    requires
        paused_at <= resumed_at,
        after(resumed_at, interval) <= u64::MAX,
    ensures
        !tick_result(s, paused_at, false, Some(interval)).1,
        tick_result(tick_result(s, paused_at, false, Some(interval)).0, resumed_at, true, Some(interval)).1,
{
}

/// After a capture, no other is taken before the interval has passed while
/// the interval stays the same, and one is taken once it has.
pub proof fn lemma_captures_are_an_interval_apart(
    s: CaptureSchedule,
    at: u64,
    later: u64,
    interval: u64,
)
    requires
        tick_result(s, at, true, Some(interval)).1,
        at <= later,
        after(at, interval) <= u64::MAX,
        after(later, interval) <= u64::MAX,
    ensures
        tick_result(tick_result(s, at, true, Some(interval)).0, later, true, Some(interval)).1
            <==> later >= after(at, interval),
{
}

/// A changed interval never captures on the wake that sees the change,
/// unless the new interval is zero.
pub proof fn lemma_interval_change_restarts_wait(s: CaptureSchedule, now: u64, interval: u64)
    requires
        interval != s.last_interval,
        interval > 0,
        after(now, interval) <= u64::MAX,
    ensures
        !tick_result(s, now, true, Some(interval)).1,
        tick_result(s, now, true, Some(interval)).0.next_capture_ms == after(now, interval),
{
}

} // verus!
