use vstd::prelude::*;

verus! {

/// Seconds between two purchase attempts.
pub const BUY_NEXT_CALL_SECS: i64 = 10;

/// The local rate limit on automatic purchases: one attempt per cooldown
/// window.  An attempt inside the window is simply not performed; it is
/// never queued or retried.
#[derive(Debug)]
pub struct PurchaseCooldown {
    pub next_call: i64,
}

impl PurchaseCooldown {
    pub fn new(now: i64) -> (s: Self)
        ensures
            s.next_call == now,
    {
        PurchaseCooldown { next_call: now }
    }

    /// Whether a purchase may start now; starting one opens a new
    /// cooldown window.
    pub fn try_acquire(&mut self, now: i64) -> (allowed: bool)
        requires
            now <= i64::MAX - BUY_NEXT_CALL_SECS,
        ensures
            allowed == (old(self).next_call <= now),
            allowed ==> final(self).next_call == now + BUY_NEXT_CALL_SECS,
            !allowed ==> *final(self) == *old(self),
    {
        if self.next_call > now {
            return false;
        }
        self.next_call = now + BUY_NEXT_CALL_SECS;
        true
    }
}

} // verus!
