use vstd::prelude::*;

verus! {

/// Number of simulation frames run so far.
pub struct GlobalFrameCounter(pub u64);

impl Default for GlobalFrameCounter {
    fn default() -> (c: Self)
        ensures
            c.0 == 0,
    {
        GlobalFrameCounter(0)
    }
}

impl GlobalFrameCounter {
    /// Moves on by one frame, staying at `u64::MAX` once reached.
    pub fn advance(&mut self)
        ensures
            final(self).0 == if old(self).0 < u64::MAX {
                old(self).0 + 1
            } else {
                u64::MAX as int
            },
    {
        self.0 = self.0.saturating_add(1);
    }

    /// Frames elapsed since frame `since`, or 0 if `since` lies ahead.
    pub fn frames_since(&self, since: u64) -> (n: u64)
        ensures
            n == if self.0 >= since {
                self.0 - since
            } else {
                0
            },
    {
        self.0.saturating_sub(since)
    }
}

} // verus!
