//! The capability through which the target's address space is reached.
//!
//! Whoever owns the debug probe implements [`Memory`]. The library never
//! assumes what the target answers; it states which accesses it makes, in
//! which order, and what it returns for each possible answer. To that end a
//! memory carries the record of the accesses made through it.
use vstd::prelude::*;

verus! {

/// The probe could not carry out an access. The code is the probe's own.
#[derive(Clone, Copy, Debug, PartialEq, Eq, Structural)]
pub struct TransportError {
    pub code: u32,
}

/// One access to the target, with what came back.
#[allow(inconsistent_fields)]
pub enum Access {
    /// A 32-bit read.
    Read32 { address: u32, outcome: Result<u32, TransportError> },
    /// A 32-bit write.
    Write32 { address: u32, value: u32, outcome: Result<(), TransportError> },
    /// A read of `data.len()` bytes; `data` is the buffer after the call.
    ReadBlock8 { address: u32, data: Seq<u8>, outcome: Result<(), TransportError> },
    /// A write of the bytes `data`.
    WriteBlock8 { address: u32, data: Seq<u8>, outcome: Result<(), TransportError> },
}

/// Access to the target's memory, 32 bits or a block of bytes at a time.
/// Every access may fail with a transport error.
pub trait Memory {
    /// The accesses made through this memory so far, oldest first.
    spec fn history(&self) -> Seq<Access>;

    /// Reads the word at `address`.
    fn read32(&mut self, address: u32) -> (r: Result<u32, TransportError>)
        ensures
            final(self).history() == old(self).history().push(
                (Access::Read32 { address, outcome: r }),
            ),
    ;

    /// Writes `value` to the word at `address`.
    fn write32(&mut self, address: u32, value: u32) -> (r: Result<(), TransportError>)
        ensures
            final(self).history() == old(self).history().push(
                (Access::Write32 { address, value, outcome: r }),
            ),
    ;

    /// Fills `data` with the bytes that start at `address`.
    fn read_block8(&mut self, address: u32, data: &mut Vec<u8>) -> (r: Result<
        (),
        TransportError,
    >)
        ensures
            final(data)@.len() == old(data)@.len(),
            final(self).history() == old(self).history().push(
                (Access::ReadBlock8 { address, data: final(data)@, outcome: r }),
            ),
    ;

    /// Writes the bytes of `data` to the addresses that start at `address`.
    fn write_block8(&mut self, address: u32, data: &[u8]) -> (r: Result<(), TransportError>)
        ensures
            final(self).history() == old(self).history().push(
                (Access::WriteBlock8 { address, data: data@, outcome: r }),
            ),
    ;
}

} // verus!
