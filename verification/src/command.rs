//! The commands of the remote serial protocol that the bridge knows, and how
//! a packet's payload is read as one of them.
use crate::error::Error;
use crate::hex::{begins_with, bytes_of, field_end, number_at, parse_hex, starts_with, word_byte};
use crate::hex::lemma_field_end_covers;
use vstd::prelude::*;

verus! {

/// The greatest number that a field of a packet may write.
pub const MAX_NUMBER: u32 = 0xffff_ffff;

/// The greatest selector that a register read may name.
pub const MAX_SELECTOR: u32 = 0xff;

/// A comma.
pub const COMMA: u8 = 0x2c;

/// A colon.
pub const COLON: u8 = 0x3a;

/// The byte that the debugger sends to interrupt the target (Ctrl-C).
pub const INTERRUPT: u8 = 0x03;

/// How many bytes the prefix of a memory map request has.
pub const MEMORY_MAP_PREFIX: usize = 21;

/// What the debugger asks for.
#[derive(Clone, Copy, Debug, PartialEq, Eq, Structural)]
pub enum Command {
    /// `qSupported`: which features the bridge has.
    Supported,
    /// A query that the bridge answers with the empty reply.
    Unsupported,
    /// `qAttached`: whether the bridge attached to a running target.
    Attached,
    /// `?`: why the target stopped.
    StopReason,
    /// `g`: the general registers.
    GeneralRegisters,
    /// `p`: one core register.
    Register { selector: u8 },
    /// `m`: `length` bytes of memory from `address` on.
    ReadMemory { address: u32, length: u32 },
    /// `vCont?`: which resume actions the bridge has.
    ResumeActions,
    /// `c` or `vCont;c`: let the target run.
    Continue,
    /// `vCont;t`: stop the target.
    Stop,
    /// `s` or `vCont;s`: step one instruction.
    Step,
    /// `Z1`: set a hardware breakpoint.
    InsertBreakpoint { address: u32 },
    /// `z1`: clear a hardware breakpoint.
    RemoveBreakpoint { address: u32 },
    /// `X`: write the last `length` bytes of the payload to memory from
    /// `address` on.
    WriteMemory { address: u32, length: u32 },
    /// `qXfer:memory-map:read`: a window of the memory map.
    MemoryMap { offset: u32, length: u32 },
    /// The interrupt byte: halt the target.
    Interrupt,
    /// `D`: the debugger detaches.
    Detach,
    /// `qRcmd,7265736574`: the monitor command `reset`.
    MonitorReset,
    /// Anything else.
    Other,
}

/// Whether `data` holds the byte `b` at position `at`.
pub open spec fn byte_at(data: Seq<u8>, at: int, b: u8) -> bool {
    0 <= at < data.len() && data[at] == b
}

/// Whether `data` begins with the ASCII text `prefix`.
pub open spec fn opens_with(data: Seq<u8>, prefix: Seq<char>) -> bool {
    begins_with(data, bytes_of(prefix))
}

/// Whether `data` is one of the queries that get the empty reply.
pub open spec fn is_unsupported(data: Seq<u8>) -> bool {
    opens_with(data, "vMustReplyEmpty"@) || opens_with(data, "qTStatus"@) || opens_with(data, "qTfV"@) || opens_with(
        data,
        "qTsP"@,
    ) || opens_with(data, "qfThreadInfo"@) || opens_with(data, "qL"@) || opens_with(data, "qC"@) || opens_with(
        data,
        "qOffsets"@,
    ) || opens_with(data, "Z0"@)
}

/// Two numbers with a comma between them, from `start` on: the numbers and
/// where the second one ends.
pub open spec fn two_numbers(data: Seq<u8>, start: int) -> Option<(nat, nat, int)> {
    match number_at(data, start, MAX_NUMBER as nat) {
        None => None,
        Some((first, comma)) => if byte_at(data, comma, COMMA) {
            match number_at(data, comma + 1, MAX_NUMBER as nat) {
                None => None,
                Some((second, end)) => Some((first, second, end)),
            }
        } else {
            None
        },
    }
}

/// Where the first colon from `start` on stands, or the length of `data`
/// where there is none.
pub open spec fn next_colon(data: Seq<u8>, start: int) -> int
    decreases data.len() - start,
{
    if 0 <= start < data.len() && data[start] != COLON {
        next_colon(data, start + 1)
    } else {
        start
    }
}

/// `p<selector>`: the selector is a hexadecimal number of at most 0xff.
pub open spec fn register_command(data: Seq<u8>) -> Result<Command, Error> {
    match number_at(data, 1, MAX_SELECTOR as nat) {
        Some((selector, _)) => Ok(Command::Register { selector: selector as u8 }),
        None => Err(Error::MalformedPacket),
    }
}

/// `m<address>,<length>`, both hexadecimal numbers of at most 32 bits.
pub open spec fn read_memory_command(data: Seq<u8>) -> Result<Command, Error> {
    match two_numbers(data, 1) {
        Some((address, length, _)) => Ok(
            Command::ReadMemory { address: address as u32, length: length as u32 },
        ),
        None => Err(Error::MalformedPacket),
    }
}

/// `X<address>,<length>:` and the bytes to write, of which the payload
/// must hold at least `length`.
pub open spec fn write_memory_command(data: Seq<u8>) -> Result<Command, Error> {
    match two_numbers(data, 1) {
        Some((address, length, end)) => if byte_at(data, end, COLON) && length <= data.len() {
            Ok(Command::WriteMemory { address: address as u32, length: length as u32 })
        } else {
            Err(Error::MalformedPacket)
        },
        None => Err(Error::MalformedPacket),
    }
}

/// The address in `Z1,<address>,<size>` or `z1,<address>,<size>`: a
/// hexadecimal number of at most 32 bits. The size is a field that is not
/// empty; it is not read as a number.
pub open spec fn breakpoint_address(data: Seq<u8>) -> Option<u32> {
    if byte_at(data, 2, COMMA) {
        match number_at(data, 3, MAX_NUMBER as nat) {
            Some((address, comma)) => if byte_at(data, comma, COMMA) && field_end(data, comma + 1)
                > comma + 1 {
                Some(address as u32)
            } else {
                None
            },
            None => None,
        }
    } else {
        None
    }
}

/// `qXfer:memory-map:read:<annex>:<offset>,<length>`: the annex is
/// whatever stands before the next colon, offset and length are
/// hexadecimal numbers of at most 32 bits.
pub open spec fn memory_map_command(data: Seq<u8>) -> Result<Command, Error> {
    if byte_at(data, MEMORY_MAP_PREFIX as int, COLON) {
        match two_numbers(data, next_colon(data, MEMORY_MAP_PREFIX + 1) + 1) {
            Some((offset, length, _)) => Ok(
                Command::MemoryMap { offset: offset as u32, length: length as u32 },
            ),
            None => Err(Error::MalformedPacket),
        }
    } else {
        Err(Error::MalformedPacket)
    }
}

/// The command that a payload holds. The payload is matched by how it
/// begins; a payload that begins like a command with arguments and does
/// not hold them is malformed; a payload that begins like no command is
/// `Other`.
pub open spec fn command_of(data: Seq<u8>) -> Result<Command, Error> {
    if opens_with(data, "qSupported"@) {
        Ok(Command::Supported)
    } else if is_unsupported(data) {
        Ok(Command::Unsupported)
    } else if opens_with(data, "qAttached"@) {
        Ok(Command::Attached)
    } else if opens_with(data, "?"@) {
        Ok(Command::StopReason)
    } else if opens_with(data, "g"@) {
        Ok(Command::GeneralRegisters)
    } else if opens_with(data, "p"@) {
        register_command(data)
    } else if opens_with(data, "m"@) {
        read_memory_command(data)
    } else if opens_with(data, "vCont?"@) {
        Ok(Command::ResumeActions)
    } else if opens_with(data, "vCont;c"@) || opens_with(data, "c"@) {
        Ok(Command::Continue)
    } else if opens_with(data, "vCont;t"@) {
        Ok(Command::Stop)
    } else if opens_with(data, "vCont;s"@) || opens_with(data, "s"@) {
        Ok(Command::Step)
    } else if opens_with(data, "Z1"@) {
        match breakpoint_address(data) {
            Some(address) => Ok(Command::InsertBreakpoint { address }),
            None => Err(Error::MalformedPacket),
        }
    } else if opens_with(data, "z1"@) {
        match breakpoint_address(data) {
            Some(address) => Ok(Command::RemoveBreakpoint { address }),
            None => Err(Error::MalformedPacket),
        }
    } else if opens_with(data, "X"@) {
        write_memory_command(data)
    } else if opens_with(data, "qXfer:memory-map:read"@) {
        memory_map_command(data)
    } else if byte_at(data, 0, INTERRUPT) {
        Ok(Command::Interrupt)
    } else if opens_with(data, "D"@) {
        Ok(Command::Detach)
    } else if opens_with(data, "qRcmd,7265736574"@) {
        Ok(Command::MonitorReset)
    } else {
        Ok(Command::Other)
    }
}

/// Whether `data` is one of the queries that get the empty reply.
fn unsupported(data: &[u8]) -> (r: bool)
    ensures
        r == is_unsupported(data@),
{
    proof {
        reveal_strlit("vMustReplyEmpty");
        reveal_strlit("qTStatus");
        reveal_strlit("qTfV");
        reveal_strlit("qTsP");
        reveal_strlit("qfThreadInfo");
        reveal_strlit("qL");
        reveal_strlit("qC");
        reveal_strlit("qOffsets");
        reveal_strlit("Z0");
    }
    starts_with(data, "vMustReplyEmpty") || starts_with(data, "qTStatus") || starts_with(
        data,
        "qTfV",
    ) || starts_with(data, "qTsP") || starts_with(data, "qfThreadInfo") || starts_with(data, "qL")
        || starts_with(data, "qC") || starts_with(data, "qOffsets") || starts_with(data, "Z0")
}

/// Reads two numbers with a comma between them, from `start` on.
fn parse_two_numbers(data: &[u8], start: usize) -> (r: Option<(u32, u32, usize)>)
    requires
        start <= data.len(),
    ensures
        match two_numbers(data@, start as int) {
            Some((first, second, end)) => r == Some((first as u32, second as u32, end as usize))
                && end <= data.len(),
            None => r is None,
        },
{
    match parse_hex(data, start, MAX_NUMBER) {
        None => None,
        Some((first, comma)) => {
            if comma < data.len() && data[comma] == COMMA {
                match parse_hex(data, comma + 1, MAX_NUMBER) {
                    None => None,
                    Some((second, end)) => Some((first, second, end)),
                }
            } else {
                None
            }
        },
    }
}

/// Reads the address of a breakpoint command.
fn parse_breakpoint_address(data: &[u8]) -> (r: Option<u32>)
    ensures
        r == breakpoint_address(data@),
{
    if 2 < data.len() && data[2] == COMMA {
        match parse_hex(data, 3, MAX_NUMBER) {
            None => None,
            Some((address, comma)) => {
                if comma < data.len() && data[comma] == COMMA {
                    if comma + 1 < data.len() && word_byte(data[comma + 1]) {
                        proof {
                            lemma_field_end_covers(data@, comma + 2);
                        }
                        Some(address)
                    } else {
                        None
                    }
                } else {
                    None
                }
            },
        }
    } else {
        None
    }
}

/// Finds the first colon from `start` on.
fn find_colon(data: &[u8], start: usize) -> (r: usize)
    requires
        start <= data.len(),
    ensures
        r == next_colon(data@, start as int),
        start <= r <= data.len(),
{
    let mut i: usize = start;
    while i < data.len() && data[i] != COLON
        invariant
            start <= i <= data.len(),
            next_colon(data@, start as int) == next_colon(data@, i as int),
        decreases data.len() - i,
    {
        i += 1;
    }
    i
}

/// Reads a payload as a command.
pub fn parse(data: &[u8]) -> (r: Result<Command, Error>)
    ensures
        r == command_of(data@),
{
    proof {
        reveal_strlit("qSupported");
        reveal_strlit("qAttached");
        reveal_strlit("?");
        reveal_strlit("g");
        reveal_strlit("p");
        reveal_strlit("m");
        reveal_strlit("vCont?");
        reveal_strlit("vCont;c");
        reveal_strlit("c");
        reveal_strlit("vCont;t");
        reveal_strlit("vCont;s");
        reveal_strlit("s");
        reveal_strlit("Z1");
        reveal_strlit("z1");
        reveal_strlit("X");
        reveal_strlit("qXfer:memory-map:read");
        reveal_strlit("D");
        reveal_strlit("qRcmd,7265736574");
    }
    if starts_with(data, "qSupported") {
        Ok(Command::Supported)
    } else if unsupported(data) {
        Ok(Command::Unsupported)
    } else if starts_with(data, "qAttached") {
        Ok(Command::Attached)
    } else if starts_with(data, "?") {
        Ok(Command::StopReason)
    } else if starts_with(data, "g") {
        Ok(Command::GeneralRegisters)
    } else if starts_with(data, "p") {
        match parse_hex(data, 1, MAX_SELECTOR) {
            Some((selector, _)) => Ok(Command::Register { selector: selector as u8 }),
            None => Err(Error::MalformedPacket),
        }
    } else if starts_with(data, "m") {
        match parse_two_numbers(data, 1) {
            Some((address, length, _)) => Ok(Command::ReadMemory { address, length }),
            None => Err(Error::MalformedPacket),
        }
    } else if starts_with(data, "vCont?") {
        Ok(Command::ResumeActions)
    } else if starts_with(data, "vCont;c") || starts_with(data, "c") {
        Ok(Command::Continue)
    } else if starts_with(data, "vCont;t") {
        Ok(Command::Stop)
    } else if starts_with(data, "vCont;s") || starts_with(data, "s") {
        Ok(Command::Step)
    } else if starts_with(data, "Z1") {
        match parse_breakpoint_address(data) {
            Some(address) => Ok(Command::InsertBreakpoint { address }),
            None => Err(Error::MalformedPacket),
        }
    } else if starts_with(data, "z1") {
        match parse_breakpoint_address(data) {
            Some(address) => Ok(Command::RemoveBreakpoint { address }),
            None => Err(Error::MalformedPacket),
        }
    } else if starts_with(data, "X") {
        match parse_two_numbers(data, 1) {
            Some((address, length, end)) => {
                if end < data.len() && data[end] == COLON && length as usize <= data.len() {
                    Ok(Command::WriteMemory { address, length })
                } else {
                    Err(Error::MalformedPacket)
                }
            },
            None => Err(Error::MalformedPacket),
        }
    } else if starts_with(data, "qXfer:memory-map:read") {
        if MEMORY_MAP_PREFIX < data.len() && data[MEMORY_MAP_PREFIX] == COLON {
            let colon = find_colon(data, MEMORY_MAP_PREFIX + 1);
            if colon < data.len() {
                match parse_two_numbers(data, colon + 1) {
                    Some((offset, length, _)) => Ok(Command::MemoryMap { offset, length }),
                    None => Err(Error::MalformedPacket),
                }
            } else {
                proof {
                    assert(two_numbers(data@, colon + 1) is None);
                }
                Err(Error::MalformedPacket)
            }
        } else {
            Err(Error::MalformedPacket)
        }
    } else if data.len() > 0 && data[0] == INTERRUPT {
        Ok(Command::Interrupt)
    } else if starts_with(data, "D") {
        Ok(Command::Detach)
    } else if starts_with(data, "qRcmd,7265736574") {
        Ok(Command::MonitorReset)
    } else {
        Ok(Command::Other)
    }
}

} // verus!
