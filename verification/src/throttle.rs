//! The outbound update throttle.
//!
//! Not every local state change is transmitted: a delta goes out only when at
//! least one interval has elapsed since the last send, which bounds outbound
//! bandwidth independently of the simulation tick rate and of how often
//! gameplay events would otherwise trigger a send.  Time is the caller's
//! monotonic clock, in microseconds.

use vstd::prelude::*;

verus! {

/// Minimum time between consecutive outbound state updates, in microseconds:
/// at most sixty updates per second.
pub const THROTTLE_INTERVAL_US: u64 = 16666;

/// Whether a send is allowed at `now` given the last send time: at least one
/// interval has elapsed.  A clock that appears to run backwards never allows
/// a send.
pub open spec fn spec_send_allowed(last_sent: u64, now: u64, interval: u64) -> bool {
    now >= last_sent && now - last_sent >= interval
}

/// The throttle state: when the last send happened and the minimum interval.
#[derive(Clone, Copy, PartialEq, Eq, Structural, Debug)]
pub struct Throttle {
    pub last_sent: u64,
    pub interval: u64,
}

impl Throttle {
    /// A throttle that last "sent" at `now`: the first send is allowed one
    /// interval later.
    pub fn new(interval: u64, now: u64) -> (t: Throttle)
        ensures
            t.interval == interval,
            t.last_sent == now,
    {
        Throttle { last_sent: now, interval }
    }

    /// Whether a send request at `now` would be allowed; decides nothing.
    pub fn allows(&self, now: u64) -> (r: bool)
        ensures
            r == spec_send_allowed(self.last_sent, now, self.interval),
    {
        match now.checked_sub(self.last_sent) {
            Some(elapsed) => elapsed >= self.interval,
            None => false,
        }
    }

    /// Records that a send happened at `now`.
    pub fn record_send(&mut self, now: u64)
        ensures
            final(self).last_sent == now,
            final(self).interval == old(self).interval,
    {
        self.last_sent = now;
    }

    /// Decides one send request at `now`: allowed exactly when an interval
    /// has elapsed since the last send, and then the send time is recorded.
    pub fn try_send(&mut self, now: u64) -> (allowed: bool)
        ensures
            allowed == spec_send_allowed(old(self).last_sent, now, old(self).interval),
            final(self).interval == old(self).interval,
            final(self).last_sent == if allowed {
                now
            } else {
                old(self).last_sent
            },
    {
        if self.allows(now) {
            self.record_send(now);
            true
        } else {
            false
        }
    }
}

/// Law: the throttle respects the minimum interval.  After a send is allowed
/// at `t1`, a second request at `t2` is allowed if and only if at least one
/// interval separates the two; closer requests are rejected.
pub proof fn lemma_throttle_min_interval(last: u64, interval: u64, t1: u64, t2: u64)
    requires
        spec_send_allowed(last, t1, interval),
        t1 <= t2,
    ensures
        t2 - t1 < interval ==> !spec_send_allowed(t1, t2, interval),
        t2 - t1 >= interval ==> spec_send_allowed(t1, t2, interval),
{
}

} // verus!
