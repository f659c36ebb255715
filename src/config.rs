use vstd::prelude::*;

verus! {

/// Timeouts of outbound connects and of each read or write, in milliseconds.
#[derive(Clone, Copy, Debug, PartialEq, Eq, Structural)]
pub struct Timeout {
    pub connect: u64,
    pub io: u64,
}

} // verus!
