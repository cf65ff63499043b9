//! The scoped instrumentation guard: it remembers its event id and computes
//! the emissions a scope makes — the enter observation when it opens, any
//! update inside, and the `(id, 0)` leave observation when it closes. The
//! embedding application feeds each pair to the current thread's buffer and
//! emits the leave pair from the guard's drop.

use vstd::prelude::*;

verus! {

/// A scope bound to one event id.
#[derive(Clone, Copy, PartialEq, Eq, Structural, Debug)]
pub struct Guard {
    pub id: u16,
}

impl Guard {
    /// Open a scope: the guard for the id and the enter observation to
    /// emit at this instant.
    pub fn new(id: u16, value: u32) -> (r: (Guard, (u16, u32)))
        ensures
            r.0.id == id,
            r.1 == (id, value),
    {
        (Guard { id }, (id, value))
    }

    /// An update inside the scope: the observation to emit now.
    pub fn update(&self, value: u32) -> (r: (u16, u32))
        ensures
            r == (self.id, value),
    {
        (self.id, value)
    }

    /// Close the scope: the leave observation, always with value zero.
    pub fn leave(&self) -> (r: (u16, u32))
        ensures
            r == (self.id, 0u32),
    {
        (self.id, 0)
    }
}

} // verus!
