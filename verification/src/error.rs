//! What can go wrong between the debugger and the core.
use crate::memory::TransportError;
use vstd::prelude::*;

verus! {

/// The ways in which an operation of the library fails.
#[derive(Clone, Copy, Debug, PartialEq, Eq, Structural)]
pub enum Error {
    /// The memory capability reported a failure.
    Transport(TransportError),
    /// A status bit did not come up within the polls allowed.
    Timeout,
    /// The flash patch and breakpoint unit is of a revision other than 0.
    UnsupportedRevision,
    /// Every breakpoint unit of the core is in use.
    BreakpointUnitsExhausted,
    /// No breakpoint is set at the address given.
    BreakpointNotFound,
    /// A command packet does not follow the grammar of its command.
    MalformedPacket,
}

} // verus!
