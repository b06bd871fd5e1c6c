//! The single slot that holds the cancellation signal of the install in
//! progress, so that a cancel request can reach it.

use vstd::prelude::*;

verus! {

/// Holds at most one cancellation signal; the latest registration wins.
pub struct CancelSlot<F> {
    slot: Option<F>,
}

impl<F> CancelSlot<F> {
    /// The signal held, if any.
    pub closed spec fn current(&self) -> Option<F> {
        self.slot
    }

    /// An empty slot.
    pub fn new() -> (r: Self)
        ensures
            r.current() is None,
    {
        CancelSlot { slot: None }
    }

    /// Holds `flag` in place of any earlier signal.
    pub fn register(&mut self, flag: F)
        ensures
            final(self).current() == Some(flag),
    {
        self.slot = Some(flag);
    }

    /// The signal to set for a cancel request; `None` when no install is in
    /// progress, and a cancel request is then a no-op.
    pub fn active(&self) -> (r: Option<&F>)
        ensures
            match r {
                Some(f) => self.current() == Some(*f),
                None => self.current() is None,
            },
    {
        match &self.slot {
            Some(f) => Some(f),
            None => None,
        }
    }

    /// Empties the slot once an install is over, so that a stale signal cannot
    /// reach a later install.
    pub fn clear(&mut self)
        ensures
            final(self).current() is None,
    {
        self.slot = None;
    }
}

} // verus!
