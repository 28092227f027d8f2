//! Handles that stand for things outside: queues and connections.

use vstd::prelude::*;

verus! {

/// Gives out handles, none of them twice.
pub struct Handles {
    last: u64,
}

/// The handle that is given out once `count` handles are out; `None` where there is no further
/// one.
pub open spec fn next_handle(count: nat) -> Option<u64> {
    if count < u64::MAX {
        Some((count + 1) as u64)
    } else {
        None
    }
}

impl Handles {
    /// How many handles are out.
    pub closed spec fn count(&self) -> nat {
        self.last as nat
    }

    /// The handles that are out.
    pub open spec fn given(&self) -> Set<u64> {
        Set::new(|handle: u64| 0 < handle <= self.count())
    }

    /// No handle is out.
    pub fn new() -> (handles: Handles)
        ensures
            handles.count() == 0,
            handles.given() == Set::<u64>::empty(),
    {
        let handles = Handles { last: 0 };
        assert(handles.given() =~= Set::<u64>::empty());
        handles
    }

    /// Gives out a handle that was never given out before; `None` once all of them are out.
    pub fn fresh(&mut self) -> (handle: Option<u64>)
        ensures
            handle == next_handle(old(self).count()),
            handle is None <==> old(self).count() == u64::MAX,
            match handle {
                Some(h) => {
                    &&& !old(self).given().contains(h)
                    &&& final(self).given() == old(self).given().insert(h)
                    &&& final(self).count() == old(self).count() + 1
                },
                None => *final(self) == *old(self),
            },
    {
        if self.last == u64::MAX {
            return None;
        }
        let ghost before = self.given();
        self.last = self.last + 1;
        assert(self.given() =~= before.insert(self.last));
        Some(self.last)
    }
}

/// Handles that are given out at different times differ: `earlier` and `later` are how many were
/// out at the two times.
pub proof fn handles_never_repeat(earlier: nat, later: nat)
    requires
        earlier < later,
        next_handle(later) is Some,
    ensures
        next_handle(earlier) is Some,
        next_handle(earlier) != next_handle(later),
{
}

} // verus!
