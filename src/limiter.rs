//! The concurrency limiter: a pool of permits, one per fetch in flight.
use vstd::prelude::*;

verus! {

/// Acquiring from a limiter that has been closed.
#[derive(PartialEq, Eq, Structural, Clone, Copy, Debug)]
pub struct ShutdownError;

pub struct Limiter {
    capacity: usize,
    held: usize,
    closed: bool,
}

impl Limiter {
    pub closed spec fn capacity_spec(&self) -> nat {
        self.capacity as nat
    }

    pub closed spec fn held_spec(&self) -> nat {
        self.held as nat
    }

    pub closed spec fn is_closed(&self) -> bool {
        self.closed
    }

    /// Never more permits out than there are slots.
    pub open spec fn wf(&self) -> bool {
        self.held_spec() <= self.capacity_spec()
    }

    pub fn new(capacity: usize) -> (l: Limiter)
        ensures
            l.wf(),
            l.capacity_spec() == capacity,
            l.held_spec() == 0,
            !l.is_closed(),
    {
        Limiter { capacity, held: 0, closed: false }
    }

    pub fn capacity(&self) -> (n: usize)
        ensures
            n == self.capacity_spec(),
    {
        self.capacity
    }

    pub fn held(&self) -> (n: usize)
        ensures
            n == self.held_spec(),
    {
        self.held
    }

    pub fn closed(&self) -> (b: bool)
        ensures
            b == self.is_closed(),
    {
        self.closed
    }

    /// Takes a permit if one is free: `Ok(true)` with one more permit out,
    /// `Ok(false)` with nothing changed when all are out, and
    /// `Err(ShutdownError)` once the limiter is closed.
    pub fn try_acquire(&mut self) -> (r: Result<bool, ShutdownError>)
        requires
            old(self).wf(),
        ensures
            final(self).wf(),
            final(self).capacity_spec() == old(self).capacity_spec(),
            final(self).is_closed() == old(self).is_closed(),
            old(self).is_closed() ==> r is Err && final(self).held_spec() == old(self).held_spec(),
            !old(self).is_closed() ==> r is Ok,
            r == Ok::<bool, ShutdownError>(true) <==> !old(self).is_closed()
                && old(self).held_spec() < old(self).capacity_spec(),
            r == Ok::<bool, ShutdownError>(true) ==> final(self).held_spec() == old(self).held_spec() + 1,
            r != Ok::<bool, ShutdownError>(true) ==> final(self).held_spec() == old(self).held_spec(),
    {
        if self.closed {
            Err(ShutdownError)
        } else if self.held < self.capacity {
            self.held = self.held + 1;
            Ok(true)
        } else {
            Ok(false)
        }
    }

    /// Gives a permit back.
    pub fn release(&mut self)
        requires
            old(self).wf(),
            old(self).held_spec() > 0,
        ensures
            final(self).wf(),
            final(self).capacity_spec() == old(self).capacity_spec(),
            final(self).is_closed() == old(self).is_closed(),
            final(self).held_spec() == old(self).held_spec() - 1,
    {
        self.held = self.held - 1;
    }

    /// Closes the limiter: no permit is given out from now on; those out
    /// may still be given back.
    pub fn close(&mut self)
        requires
            old(self).wf(),
        ensures
            final(self).wf(),
            final(self).capacity_spec() == old(self).capacity_spec(),
            final(self).held_spec() == old(self).held_spec(),
            final(self).is_closed(),
    {
        self.closed = true;
    }
}

} // verus!
