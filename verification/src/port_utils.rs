//! A process-wide port allocator, modelled as an explicit object with
//! exclusive-access semantics left to the caller.

use vstd::prelude::*;

verus! {

/// First port handed out: the start of the dynamic/private port range.
pub const MIN_PORT: u16 = 49152;

/// Last port that may be handed out.
pub const MAX_PORT: u16 = 65535;

/// Hands out ports one at a time, wrapping back to `MIN_PORT` after
/// `MAX_PORT`. The caller serialises access (behind a mutex or a channel).
pub struct PortAllocator {
    next: u16,
}

impl PortAllocator {
    /// True when every port this allocator will hand out lies in the
    /// dynamic/private range.
    pub closed spec fn wf(&self) -> bool {
        MIN_PORT <= self.next <= MAX_PORT
    }

    pub closed spec fn spec_next(&self) -> u16 {
        self.next
    }

    pub fn new() -> (r: PortAllocator)
        ensures
            r.wf(),
            r.spec_next() == MIN_PORT,
    {
        PortAllocator { next: MIN_PORT }
    }

    /// Returns the current port and advances, wrapping to `MIN_PORT` once
    /// the end of the range is reached.
    pub fn get_next_port(&mut self) -> (r: u16)
        requires
            old(self).wf(),
        ensures
            final(self).wf(),
            r == old(self).spec_next(),
            old(self).spec_next() >= MAX_PORT ==> final(self).spec_next() == MIN_PORT,
            old(self).spec_next() < MAX_PORT ==> final(self).spec_next() == old(self).spec_next() + 1,
    {
        let current = self.next;
        if current >= MAX_PORT {
            self.next = MIN_PORT;
        } else {
            self.next = current + 1;
        }
        current
    }
}

} // verus!
