//! Small newtypes shared by the whole model.

use vstd::prelude::*;

verus! {

/// A transport-stream packet identifier.
#[derive(Debug, Clone, Copy, PartialEq, Eq, Structural)]
pub struct Pid {
    /// The identifier as it stands on the wire.
    pub raw: u16,
}

impl Pid {
    /// The identifier `raw`.
    pub fn new(raw: u16) -> (pid: Self)
        ensures
            pid.raw == raw,
    {
        Pid { raw }
    }

    /// The identifier as an integer.
    pub fn get(self) -> (raw: u16)
        ensures
            raw == self.raw,
    {
        self.raw
    }
}

} // verus!
