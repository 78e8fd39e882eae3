//! A target made of plain memory, for running the engine without a probe.
//!
//! Every byte of a [`RamTarget`] holds what was last written to it, and zero
//! before that. The target keeps a log of the accesses made to it and can be
//! told to fail from some access on.
use crate::memory::{Access, Memory, TransportError};
use vstd::prelude::*;
use vstd::slice::slice_to_vec;

verus! {

/// The code of the error with which a [`RamTarget`] fails.
pub const TARGET_FAILURE: u32 = 1;

/// One access to a [`RamTarget`], as its log keeps it.
#[allow(inconsistent_fields)]
#[derive(Debug, PartialEq, Eq)]
pub enum Record {
    /// A 32-bit read.
    Read32 { address: u32, outcome: Result<u32, TransportError> },
    /// A 32-bit write.
    Write32 { address: u32, value: u32, outcome: Result<(), TransportError> },
    /// A read of a block; `data` is the buffer after the call.
    ReadBlock8 { address: u32, data: Vec<u8>, outcome: Result<(), TransportError> },
    /// A write of a block.
    WriteBlock8 { address: u32, data: Vec<u8>, outcome: Result<(), TransportError> },
}

impl View for Record {
    type V = Access;

    open spec fn view(&self) -> Access {
        match *self {
            Record::Read32 { address, outcome } => Access::Read32 { address, outcome },
            Record::Write32 { address, value, outcome } => Access::Write32 {
                address,
                value,
                outcome,
            },
            Record::ReadBlock8 { address, data, outcome } => Access::ReadBlock8 {
                address,
                data: data@,
                outcome,
            },
            Record::WriteBlock8 { address, data, outcome } => Access::WriteBlock8 {
                address,
                data: data@,
                outcome,
            },
        }
    }
}

/// The accesses that a log holds.
pub open spec fn accesses(log: Seq<Record>) -> Seq<Access> {
    Seq::new(log.len(), |i: int| log[i]@)
}

/// What the byte at `address` holds after the writes `cells`, the last of
/// which counts: zero where nothing was written.
pub open spec fn stored(cells: Seq<(u32, u8)>, address: u32) -> u8
    decreases cells.len(),
{
    if cells.len() == 0 {
        0
    } else if cells.last().0 == address {
        cells.last().1
    } else {
        stored(cells.drop_last(), address)
    }
}

/// The address `k` bytes after `address`, wrapping at the end of the
/// address space.
pub open spec fn address_after(address: u32, k: int) -> u32 {
    ((address + k) % 0x1_0000_0000) as u32
}

/// The word made of four bytes, `b0` the least significant.
pub open spec fn word_of(b0: u8, b1: u8, b2: u8, b3: u8) -> u32 {
    (b0 as u32) | ((b1 as u32) << 8) | ((b2 as u32) << 16) | ((b3 as u32) << 24)
}

/// Byte `k` of a word, byte 0 the least significant.
pub open spec fn byte_of(word: u32, k: int) -> u8 {
    if k == 0 {
        (word & 0xff) as u8
    } else if k == 1 {
        ((word >> 8) & 0xff) as u8
    } else if k == 2 {
        ((word >> 16) & 0xff) as u8
    } else {
        ((word >> 24) & 0xff) as u8
    }
}

/// A target of plain memory.
pub struct RamTarget {
    cells: Vec<(u32, u8)>,
    log: Vec<Record>,
    fail_from: Option<usize>,
}

impl RamTarget {
    /// The writes made to the target's bytes, oldest first.
    pub closed spec fn cells(&self) -> Seq<(u32, u8)> {
        self.cells@
    }

    /// What the byte at `address` holds.
    pub open spec fn byte(&self, address: u32) -> u8 {
        stored(self.cells(), address)
    }

    /// What the word at `address` holds, least significant byte first.
    pub open spec fn word(&self, address: u32) -> u32 {
        word_of(
            self.byte(address),
            self.byte(address_after(address, 1)),
            self.byte(address_after(address, 2)),
            self.byte(address_after(address, 3)),
        )
    }

    /// The log of the target.
    pub closed spec fn records(&self) -> Seq<Record> {
        self.log@
    }

    /// The number of the access from which on every access fails, where
    /// there is one.
    pub closed spec fn failing_from(&self) -> Option<usize> {
        self.fail_from
    }

    /// Whether the next access fails.
    pub open spec fn failing(&self) -> bool {
        match self.failing_from() {
            Some(count) => self.records().len() >= count,
            None => false,
        }
    }

    /// A target whose bytes are all zero and which never fails.
    pub fn new() -> (target: Self)
        ensures
            target.cells() == Seq::<(u32, u8)>::empty(),
            target.records() == Seq::<Record>::empty(),
            target.failing_from() is None,
            target.history() == Seq::<Access>::empty(),
    {
        let target = RamTarget { cells: Vec::new(), log: Vec::new(), fail_from: None };
        assert(target.history() =~= Seq::<Access>::empty());
        target
    }

    /// Makes every access fail once `count` accesses have been made, this
    /// call not counted.
    pub fn fail_from(&mut self, count: usize)
        ensures
            final(self).cells() == old(self).cells(),
            final(self).records() == old(self).records(),
            final(self).failing_from() == Some(count),
            final(self).history() == old(self).history(),
    {
        self.fail_from = Some(count);
    }

    /// The accesses made so far, oldest first.
    pub fn log(&self) -> (log: &Vec<Record>)
        ensures
            log@ == self.records(),
            accesses(log@) == self.history(),
    {
        &self.log
    }

    /// Puts `value` into the word at `address` without an access: the log
    /// does not grow.
    pub fn load32(&mut self, address: u32, value: u32)
        ensures
            final(self).records() == old(self).records(),
            final(self).failing_from() == old(self).failing_from(),
            final(self).history() == old(self).history(),
            final(self).cells() == old(self).cells().push((address, byte_of(value, 0))).push(
                (address_after(address, 1), byte_of(value, 1)),
            ).push((address_after(address, 2), byte_of(value, 2))).push(
                (address_after(address, 3), byte_of(value, 3)),
            ),
    {
        self.cells.push((address, (value & 0xff) as u8));
        self.cells.push((address.wrapping_add(1), ((value >> 8) & 0xff) as u8));
        self.cells.push((address.wrapping_add(2), ((value >> 16) & 0xff) as u8));
        self.cells.push((address.wrapping_add(3), ((value >> 24) & 0xff) as u8));
    }

    /// What the byte at `address` holds.
    pub fn peek8(&self, address: u32) -> (value: u8)
        ensures
            value == self.byte(address),
    {
        let mut i: usize = self.cells.len();
        assert(self.cells@.subrange(0, i as int) =~= self.cells@);
        while i > 0
            invariant
                i <= self.cells.len(),
                stored(self.cells@, address) == stored(self.cells@.subrange(0, i as int), address),
            decreases i,
        {
            let ghost upto = self.cells@.subrange(0, i as int);
            i -= 1;
            assert(upto.last() == self.cells@[i as int]);
            assert(upto.drop_last() =~= self.cells@.subrange(0, i as int));
            if self.cells[i].0 == address {
                return self.cells[i].1;
            }
        }
        assert(self.cells@.subrange(0, 0).len() == 0);
        0
    }

    /// What the word at `address` holds.
    pub fn peek32(&self, address: u32) -> (value: u32)
        ensures
            value == self.word(address),
    {
        let b0: u8 = self.peek8(address);
        let b1: u8 = self.peek8(address.wrapping_add(1));
        let b2: u8 = self.peek8(address.wrapping_add(2));
        let b3: u8 = self.peek8(address.wrapping_add(3));
        (b0 as u32) | ((b1 as u32) << 8) | ((b2 as u32) << 16) | ((b3 as u32) << 24)
    }

    /// Whether the next access fails.
    fn fails_now(&self) -> (r: bool)
        ensures
            r == self.failing(),
    {
        match self.fail_from {
            Some(count) => self.log.len() >= count,
            None => false,
        }
    }

    /// Adds `record` to the log.
    fn note(&mut self, record: Record)
        ensures
            final(self).cells() == old(self).cells(),
            final(self).failing_from() == old(self).failing_from(),
            final(self).records() == old(self).records().push(record),
            final(self).history() == old(self).history().push(record@),
    {
        self.log.push(record);
        assert(self.history() =~= old(self).history().push(record@));
    }
}

impl Memory for RamTarget {
    closed spec fn history(&self) -> Seq<Access> {
        accesses(self.log@)
    }

    /// Reads the word at `address`: what was last written there.
    fn read32(&mut self, address: u32) -> (r: Result<u32, TransportError>)
        ensures
            final(self).cells() == old(self).cells(),
            final(self).failing_from() == old(self).failing_from(),
            r == (if old(self).failing() {
                Err::<u32, TransportError>(TransportError { code: TARGET_FAILURE })
            } else {
                Ok::<u32, TransportError>(old(self).word(address))
            }),
    {
        let outcome = if self.fails_now() {
            Err(TransportError { code: TARGET_FAILURE })
        } else {
            Ok(self.peek32(address))
        };
        self.note(Record::Read32 { address, outcome });
        outcome
    }

    /// Writes `value` to the word at `address`, least significant byte
    /// first. A write that fails changes nothing.
    fn write32(&mut self, address: u32, value: u32) -> (r: Result<(), TransportError>)
        ensures
            final(self).failing_from() == old(self).failing_from(),
            r is Err == old(self).failing(),
            r matches Err(e) ==> e.code == TARGET_FAILURE && final(self).cells() == old(
                self,
            ).cells(),
            r is Ok ==> final(self).cells() == old(self).cells().push(
                (address, byte_of(value, 0)),
            ).push((address_after(address, 1), byte_of(value, 1))).push(
                (address_after(address, 2), byte_of(value, 2)),
            ).push((address_after(address, 3), byte_of(value, 3))),
    {
        let outcome = if self.fails_now() {
            Err(TransportError { code: TARGET_FAILURE })
        } else {
            self.load32(address, value);
            Ok(())
        };
        self.note(Record::Write32 { address, value, outcome });
        outcome
    }

    /// Fills `data` with the bytes from `address` on. A read that fails
    /// leaves `data` as it is.
    fn read_block8(&mut self, address: u32, data: &mut Vec<u8>) -> (r: Result<(), TransportError>)
        ensures
            final(self).cells() == old(self).cells(),
            final(self).failing_from() == old(self).failing_from(),
            r is Err == old(self).failing(),
            r matches Err(e) ==> e.code == TARGET_FAILURE && final(data)@ == old(data)@,
            r is Ok ==> forall|k: int|
                0 <= k < final(data)@.len() ==> final(data)@[k] == old(self).byte(
                    address_after(address, k),
                ),
    {
        let outcome = if self.fails_now() {
            Err(TransportError { code: TARGET_FAILURE })
        } else {
            let mut i: usize = 0;
            let mut at: u32 = address;
            while i < data.len()
                invariant
                    i <= data.len(),
                    data@.len() == old(data)@.len(),
                    at == address_after(address, i as int),
                    self.cells() == old(self).cells(),
                    forall|k: int|
                        0 <= k < i ==> data@[k] == self.byte(address_after(address, k)),
                decreases data.len() - i,
            {
                let value: u8 = self.peek8(at);
                data.set(i, value);
                at = at.wrapping_add(1);
                i += 1;
            }
            Ok(())
        };
        self.note(Record::ReadBlock8 { address, data: slice_to_vec(data.as_slice()), outcome });
        outcome
    }

    /// Writes the bytes of `data` from `address` on. A write that fails
    /// changes nothing.
    fn write_block8(&mut self, address: u32, data: &[u8]) -> (r: Result<(), TransportError>)
        ensures
            final(self).failing_from() == old(self).failing_from(),
            r is Err == old(self).failing(),
            r matches Err(e) ==> e.code == TARGET_FAILURE && final(self).cells() == old(
                self,
            ).cells(),
            r is Ok ==> final(self).cells() == old(self).cells() + Seq::new(
                data@.len(),
                |k: int| (address_after(address, k), data@[k]),
            ),
    {
        let outcome = if self.fails_now() {
            Err(TransportError { code: TARGET_FAILURE })
        } else {
            let mut i: usize = 0;
            let mut at: u32 = address;
            while i < data.len()
                invariant
                    i <= data.len(),
                    at == address_after(address, i as int),
                    self.failing_from() == old(self).failing_from(),
                    self.records() == old(self).records(),
                    self.history() == old(self).history(),
                    self.cells() == old(self).cells() + Seq::new(
                        i as nat,
                        |k: int| (address_after(address, k), data@[k]),
                    ),
                decreases data.len() - i,
            {
                self.cells.push((at, data[i]));
                assert(self.cells() =~= old(self).cells() + Seq::new(
                    (i + 1) as nat,
                    |k: int| (address_after(address, k), data@[k]),
                ));
                at = at.wrapping_add(1);
                i += 1;
            }
            Ok(())
        };
        self.note(Record::WriteBlock8 { address, data: slice_to_vec(data), outcome });
        outcome
    }
}

} // verus!
