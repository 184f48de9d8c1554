use vstd::prelude::*;

verus! {

/// A wait that lets other tasks run once.
pub struct YieldNow {
    yielded: bool,
}

impl YieldNow {
    pub closed spec fn yielded(&self) -> bool {
        self.yielded
    }

    pub fn new() -> (y: Self)
        ensures
            !y.yielded(),
    {
        YieldNow { yielded: false }
    }

    /// `true` once the wait is over: at the second poll and from then on. After a poll that
    /// gives `false` the task has to be woken.
    pub fn poll(&mut self) -> (ready: bool)
        ensures
            ready == old(self).yielded(),
            final(self).yielded(),
    {
        if self.yielded {
            true
        } else {
            self.yielded = true;
            false
        }
    }
}

} // verus!
