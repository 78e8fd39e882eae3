//! The memory map of the target, as the debugger reads it window by window.
use crate::hex::{bytes_of, text};
use vstd::prelude::*;

verus! {

/// The memory map that is served: 16 KiB of RAM at 0x20000000 and 256 KiB
/// of ROM at 0.
pub const MEMORY_MAP: &'static str =
    "<?xml version=\"1.0\"?>\n<!DOCTYPE memory-map PUBLIC \"+//IDN gnu.org//DTD GDB Memory Map V1.0//EN\" \"http://sourceware.org/gdb/gdb-memory-map.dtd\">\n<memory-map>\n<memory type=\"ram\" start=\"0x20000000\" length=\"0x4000\"/>\n<memory type=\"rom\" start=\"0x00000000\" length=\"0x40000\"/>\n</memory-map>";

/// The byte `m`, which opens a window that more data follows.
pub const MORE: u8 = 0x6d;

/// The byte `l`, which opens the last window.
pub const LAST: u8 = 0x6c;

/// The window of `length` bytes at `offset` into `source`, as a reply: `l`
/// alone where the offset lies behind the end; else the bytes from the
/// offset on, as many as asked for or as are left, behind `m` where the
/// window is full and behind `l` where it is not.
pub open spec fn window(source: Seq<u8>, offset: nat, length: nat) -> Seq<u8> {
    if offset > source.len() {
        seq![LAST]
    } else {
        let end = if offset + length > source.len() {
            source.len() as int
        } else {
            (offset + length) as int
        };
        let slice = source.subrange(offset as int, end);
        if slice.len() >= length {
            seq![MORE] + slice
        } else {
            seq![LAST] + slice
        }
    }
}

/// The bytes of the memory map.
pub fn memory_map() -> (r: Vec<u8>)
    ensures
        r@ == bytes_of(MEMORY_MAP@),
{
    proof {
        reveal_strlit(
            "<?xml version=\"1.0\"?>\n<!DOCTYPE memory-map PUBLIC \"+//IDN gnu.org//DTD GDB Memory Map V1.0//EN\" \"http://sourceware.org/gdb/gdb-memory-map.dtd\">\n<memory-map>\n<memory type=\"ram\" start=\"0x20000000\" length=\"0x4000\"/>\n<memory type=\"rom\" start=\"0x00000000\" length=\"0x40000\"/>\n</memory-map>",
        );
    }
    text(MEMORY_MAP)
}

/// Cuts the window of `len` bytes at `offset` out of `data` and marks it
/// as full or as the last one.
pub fn gdb_sanitize_file(data: Vec<u8>, offset: u32, len: u32) -> (r: Vec<u8>)
    ensures
        r@ == window(data@, offset as nat, len as nat),
{
    let total: u64 = data.len() as u64;
    let offset: u64 = offset as u64;
    let len: u64 = len as u64;
    let mut end: u64 = offset + len;
    let mut trimmed_data: Vec<u8> = Vec::new();
    if offset > total {
        trimmed_data.push(LAST);
        assert(trimmed_data@ =~= seq![LAST]);
        trimmed_data
    } else {
        if end > total {
            end = total;
        }
        if end - offset >= len {
            trimmed_data.push(MORE);
        } else {
            trimmed_data.push(LAST);
        }
        let ghost mark = trimmed_data@;
        let mut i: usize = offset as usize;
        while i < end as usize
            invariant
                offset <= i <= end <= total,
                total == data@.len(),
                trimmed_data@ == mark + data@.subrange(offset as int, i as int),
            decreases end - i,
        {
            trimmed_data.push(data[i]);
            assert(data@.subrange(offset as int, i + 1) =~= data@.subrange(
                offset as int,
                i as int,
            ).push(data@[i as int]));
            assert(trimmed_data@ =~= mark + data@.subrange(offset as int, i + 1));
            i += 1;
        }
        trimmed_data
    }
}

} // verus!
