//! A lock that can be tried but not waited for.

use vstd::prelude::*;

verus! {

/// A value, and whether somebody has locked it. Only whoever has locked it may touch the value.
pub struct Lock<T> {
    pub locked: bool,
    pub data: T,
}

impl<T> Lock<T> {
    pub fn new(data: T) -> (lock: Self)
        ensures
            lock == (Lock { locked: false, data }),
    {
        Lock { locked: false, data }
    }

    /// Locks the value, unless it is locked already, and says whether that worked.
    pub fn try_lock(&mut self) -> (acquired: bool)
        ensures
            acquired == !old(self).locked,
            *final(self) == (Lock { locked: true, data: old(self).data }),
    {
        if self.locked {
            false
        } else {
            self.locked = true;
            true
        }
    }

    /// Gives the value free.
    pub fn unlock(&mut self)
        requires
            old(self).locked,
        ensures
            *final(self) == (Lock { locked: false, data: old(self).data }),
    {
        self.locked = false;
    }
}

} // verus!
