//! Hexadecimal numbers and text, as the packets of the protocol carry them.
use vstd::prelude::*;
use vstd::slice::slice_to_vec;
use vstd::string::is_ascii_spec_bytes;

verus! {

/// The bytes of a text of ASCII characters.
pub open spec fn bytes_of(text: Seq<char>) -> Seq<u8> {
    Seq::new(text.len(), |i: int| text[i] as u8)
}

/// Whether `data` begins with the bytes `prefix`.
pub open spec fn begins_with(data: Seq<u8>, prefix: Seq<u8>) -> bool {
    prefix.len() <= data.len() && forall|i: int| 0 <= i < prefix.len() ==> data[i] == prefix[i]
}

/// The value of a hexadecimal digit, in either case.
pub open spec fn digit_value(b: u8) -> Option<u8> {
    if 0x30 <= b <= 0x39 {
        Some((b - 0x30) as u8)
    } else if 0x41 <= b <= 0x46 {
        Some((b - 0x41 + 10) as u8)
    } else if 0x61 <= b <= 0x66 {
        Some((b - 0x61 + 10) as u8)
    } else {
        None
    }
}

/// Whether `b` can stand in a field of a packet: an ASCII letter, a digit or
/// an underscore.
pub open spec fn is_word_byte(b: u8) -> bool {
    (0x30 <= b <= 0x39) || (0x41 <= b <= 0x5a) || (0x61 <= b <= 0x7a) || b == 0x5f
}

/// Whether every byte of `digits` is a hexadecimal digit.
pub open spec fn all_hex(digits: Seq<u8>) -> bool {
    forall|i: int| 0 <= i < digits.len() ==> digit_value(#[trigger] digits[i]) is Some
}

/// The number that the hexadecimal digits `digits` write, most significant
/// digit first.
pub open spec fn hex_value(digits: Seq<u8>) -> nat
    decreases digits.len(),
{
    if digits.len() == 0 {
        0
    } else {
        16 * hex_value(digits.drop_last()) + (match digit_value(digits.last()) {
            Some(d) => d as nat,
            None => 0,
        })
    }
}

/// Where the field that starts at `start` ends: at the first byte from
/// there on that cannot stand in a field, or at the end of `data`.
pub open spec fn field_end(data: Seq<u8>, start: int) -> int
    decreases data.len() - start,
{
    if 0 <= start < data.len() && is_word_byte(data[start]) {
        field_end(data, start + 1)
    } else {
        start
    }
}

/// The number in the field of `data` that starts at `start`, with the
/// place where the field ends. The field must hold at least one byte, all
/// its bytes must be hexadecimal digits, and the number must not exceed
/// `max`; any count of digits is taken.
pub open spec fn number_at(data: Seq<u8>, start: int, max: nat) -> Option<(nat, int)> {
    let end = field_end(data, start);
    let digits = data.subrange(start, end);
    if start < end && all_hex(digits) && hex_value(digits) <= max {
        Some((hex_value(digits), end))
    } else {
        None
    }
}

/// The lower-case hexadecimal digit of a value below sixteen.
pub open spec fn digit_of(value: u8) -> u8 {
    if value < 10 {
        (0x30 + value) as u8
    } else {
        (0x61 + value - 10) as u8
    }
}

/// Two lower-case hexadecimal digits for each byte of `data`, high digit
/// first.
pub open spec fn hex_of(data: Seq<u8>) -> Seq<u8> {
    Seq::new(
        2 * data.len(),
        |i: int|
            if i % 2 == 0 {
                digit_of(data[i / 2] / 16)
            } else {
                digit_of(data[i / 2] % 16)
            },
    )
}

/// The four bytes of a word, least significant first.
pub open spec fn le_bytes(word: u32) -> Seq<u8> {
    seq![
        (word & 0xff) as u8,
        ((word >> 8) & 0xff) as u8,
        ((word >> 16) & 0xff) as u8,
        ((word >> 24) & 0xff) as u8,
    ]
}

/// The bytes of an ASCII text.
pub fn text(s: &str) -> (r: Vec<u8>)
    requires
        s.is_ascii(),
    ensures
        r@ == bytes_of(s@),
{
    broadcast use is_ascii_spec_bytes;

    let v = slice_to_vec(s.as_bytes());
    assert(v@ =~= bytes_of(s@));
    v
}

/// Whether `data` begins with the ASCII text `prefix`.
pub fn starts_with(data: &[u8], prefix: &str) -> (r: bool)
    requires
        prefix.is_ascii(),
    ensures
        r == begins_with(data@, bytes_of(prefix@)),
{
    broadcast use is_ascii_spec_bytes;

    let wanted = prefix.as_bytes();
    assert(wanted@ =~= bytes_of(prefix@));
    if wanted.len() > data.len() {
        return false;
    }
    let mut i: usize = 0;
    while i < wanted.len()
        invariant
            i <= wanted.len() <= data.len(),
            wanted@ == bytes_of(prefix@),
            forall|k: int| 0 <= k < i ==> data@[k] == wanted@[k],
        decreases wanted.len() - i,
    {
        if data[i] != wanted[i] {
            return false;
        }
        i += 1;
    }
    true
}

/// The value of the hexadecimal digit `b`, in either case.
pub fn hex_digit(b: u8) -> (r: Option<u8>)
    ensures
        r == digit_value(b),
        r matches Some(d) ==> d < 16,
{
    if 0x30 <= b && b <= 0x39 {
        Some(b - 0x30)
    } else if 0x41 <= b && b <= 0x46 {
        Some(b - 0x41 + 10)
    } else if 0x61 <= b && b <= 0x66 {
        Some(b - 0x61 + 10)
    } else {
        None
    }
}

/// Whether `b` can stand in a field of a packet.
pub fn word_byte(b: u8) -> (r: bool)
    ensures
        r == is_word_byte(b),
{
    (0x30 <= b && b <= 0x39) || (0x41 <= b && b <= 0x5a) || (0x61 <= b && b <= 0x7a) || b == 0x5f
}

/// Reads the hexadecimal number in the field of `data` that starts at
/// `start`. The result is the number and the place where the field ends,
/// or `None` where the field is empty, holds a byte that is no hexadecimal
/// digit, or writes a number above `max`.
pub fn parse_hex(data: &[u8], start: usize, max: u32) -> (r: Option<(u32, usize)>)
    requires
        start <= data.len(),
    ensures
        match number_at(data@, start as int, max as nat) {
            Some((value, end)) => r == Some((value as u32, end as usize)) && value <= max
                && start < end <= data.len(),
            None => r is None,
        },
{
    let mut value: u32 = 0;
    let mut i: usize = start;
    while i < data.len() && word_byte(data[i])
        invariant
            start <= i <= data.len(),
            value <= max,
            value == hex_value(data@.subrange(start as int, i as int)),
            all_hex(data@.subrange(start as int, i as int)),
            field_end(data@, start as int) == field_end(data@, i as int),
        decreases data.len() - i,
    {
        let ghost seen = data@.subrange(start as int, i as int);
        let ghost next = data@.subrange(start as int, i + 1);
        proof {
            assert(next.drop_last() =~= seen);
            assert(next.last() == data@[i as int]);
            lemma_field_end_covers(data@, i as int + 1);
        }
        match hex_digit(data[i]) {
            None => {
                proof {
                    let end = field_end(data@, start as int);
                    let digits = data@.subrange(start as int, end);
                    assert(digits[i - start] == data@[i as int]);
                }
                return None;
            },
            Some(d) => {
                let wider: u64 = (value as u64) * 16 + d as u64;
                proof {
                    assert(hex_value(next) == wider);
                    assert(all_hex(next)) by {
                        assert forall|k: int| 0 <= k < next.len() implies digit_value(
                            #[trigger] next[k],
                        ) is Some by {
                            if k < seen.len() {
                                assert(next[k] == seen[k]);
                            }
                        }
                    }
                }
                if wider > max as u64 {
                    proof {
                        let end = field_end(data@, start as int);
                        let digits = data@.subrange(start as int, end);
                        if all_hex(digits) {
                            assert(digits.subrange(0, i + 1 - start) =~= next);
                            lemma_hex_value_grows(digits, i + 1 - start);
                        }
                    }
                    return None;
                }
                value = wider as u32;
            },
        }
        i += 1;
    }
    if i == start {
        None
    } else {
        Some((value, i))
    }
}

/// The lower-case hexadecimal digit of `value`.
pub fn hex_char(value: u8) -> (r: u8)
    requires
        value < 16,
    ensures
        r == digit_of(value),
{
    if value < 10 {
        0x30 + value
    } else {
        0x61 + value - 10
    }
}

/// Writes each byte of `data` as two lower-case hexadecimal digits.
pub fn hex_encode(data: &[u8]) -> (r: Vec<u8>)
    ensures
        r@ == hex_of(data@),
{
    let mut out: Vec<u8> = Vec::new();
    let mut i: usize = 0;
    while i < data.len()
        invariant
            i <= data.len(),
            out@.len() == 2 * i,
            forall|k: int| 0 <= k < out@.len() ==> out@[k] == hex_of(data@)[k],
        decreases data.len() - i,
    {
        let b: u8 = data[i];
        out.push(hex_char(b / 16));
        out.push(hex_char(b % 16));
        i += 1;
    }
    assert(out@ =~= hex_of(data@));
    out
}

/// Writes a word as the hexadecimal digits of its four bytes, least
/// significant byte first.
pub fn word_hex(word: u32) -> (r: Vec<u8>)
    ensures
        r@ == hex_of(le_bytes(word)),
{
    let mut bytes: Vec<u8> = Vec::new();
    bytes.push((word & 0xff) as u8);
    bytes.push(((word >> 8) & 0xff) as u8);
    bytes.push(((word >> 16) & 0xff) as u8);
    bytes.push(((word >> 24) & 0xff) as u8);
    assert(bytes@ =~= le_bytes(word));
    hex_encode(bytes.as_slice())
}

/// A field ends no earlier than it starts and no later than the data.
pub proof fn lemma_field_end_covers(data: Seq<u8>, start: int)
    requires
        0 <= start <= data.len(),
    ensures
        start <= field_end(data, start) <= data.len(),
    decreases data.len() - start,
{
    if start < data.len() && is_word_byte(data[start]) {
        lemma_field_end_covers(data, start + 1);
    }
}

/// The number that the first `k` of some hexadecimal digits write is no
/// greater than the number that all of them write.
pub proof fn lemma_hex_value_grows(digits: Seq<u8>, k: int)
    requires
        0 <= k <= digits.len(),
    ensures
        hex_value(digits.subrange(0, k)) <= hex_value(digits),
    decreases digits.len() - k,
{
    if k == digits.len() {
        assert(digits.subrange(0, k) =~= digits);
    } else {
        lemma_hex_value_grows(digits.drop_last(), k);
        assert(digits.drop_last().subrange(0, k) =~= digits.subrange(0, k));
    }
}

/// A letter in lower case; any other byte as it is.
pub open spec fn lower(b: u8) -> u8 {
    if 0x41 <= b <= 0x5a {
        (b + 0x20) as u8
    } else {
        b
    }
}

/// Hexadecimal digits are read without regard to case: two sequences of
/// digits that differ only in the case of their letters write the same
/// number.
pub proof fn lemma_hex_ignores_case(a: Seq<u8>, b: Seq<u8>)
    requires
        a.len() == b.len(),
        forall|i: int| 0 <= i < a.len() ==> lower(a[i]) == lower(b[i]),
        all_hex(a),
    ensures
        all_hex(b),
        hex_value(b) == hex_value(a),
    decreases a.len(),
{
    assert forall|i: int| 0 <= i < b.len() implies digit_value(#[trigger] b[i]) is Some by {
        assert(digit_value(a[i]) is Some);
        assert(lower(a[i]) == lower(b[i]));
    }
    if a.len() > 0 {
        assert(all_hex(a.drop_last())) by {
            assert forall|i: int| 0 <= i < a.drop_last().len() implies digit_value(
                #[trigger] a.drop_last()[i],
            ) is Some by {
                assert(a.drop_last()[i] == a[i]);
            }
        }
        lemma_hex_ignores_case(a.drop_last(), b.drop_last());
        assert(digit_value(a[a.len() - 1]) is Some);
        assert(lower(a[a.len() - 1]) == lower(b[a.len() - 1]));
    }
}

/// A run of hexadecimal digits of any length is read as a number, as long
/// as the number does not exceed `max` and the run ends the data or is
/// followed by a byte that cannot stand in a field.
pub proof fn lemma_number_at_reads(data: Seq<u8>, start: int, end: int, max: nat)
    requires
        0 <= start < end <= data.len(),
        all_hex(data.subrange(start, end)),
        end < data.len() ==> !is_word_byte(data[end]),
        hex_value(data.subrange(start, end)) <= max,
    ensures
        number_at(data, start, max) == Some((hex_value(data.subrange(start, end)), end)),
{
    lemma_field_runs(data, start, end);
}

/// A field that starts among hexadecimal digits runs on to where they end.
proof fn lemma_field_runs(data: Seq<u8>, start: int, end: int)
    requires
        0 <= start <= end <= data.len(),
        all_hex(data.subrange(start, end)),
        end < data.len() ==> !is_word_byte(data[end]),
    ensures
        field_end(data, start) == end,
    decreases end - start,
{
    if start < end {
        assert(data.subrange(start, end)[0] == data[start]);
        assert(digit_value(data[start]) is Some);
        assert(all_hex(data.subrange(start + 1, end))) by {
            assert forall|i: int| 0 <= i < end - start - 1 implies digit_value(
                #[trigger] data.subrange(start + 1, end)[i],
            ) is Some by {
                assert(data.subrange(start + 1, end)[i] == data.subrange(start, end)[i + 1]);
            }
        }
        lemma_field_runs(data, start + 1, end);
    }
}

} // verus!
