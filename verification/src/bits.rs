//! Single bits and bit ranges of a 32-bit word.
use vstd::prelude::*;

verus! {

/// The bit of `word` at position `index`.
pub open spec fn bit(word: u32, index: u32) -> bool {
    (word >> index) & 1 == 1
}

/// `word` with the bit at `index` replaced by `value`.
pub open spec fn with_bit(word: u32, index: u32, value: bool) -> u32 {
    if value {
        word | (1u32 << index)
    } else {
        word & !(1u32 << index)
    }
}

/// A mask of `msb - lsb + 1` ones in the lowest positions.
pub open spec fn low_mask(msb: u32, lsb: u32) -> u32 {
    0xffff_ffffu32 >> ((31 - msb + lsb) as u32)
}

/// The bits `msb..=lsb` of `word`, moved down to position 0.
pub open spec fn field(word: u32, msb: u32, lsb: u32) -> u32 {
    (word >> lsb) & low_mask(msb, lsb)
}

/// `word` with the bits `msb..=lsb` replaced by the low bits of `value`.
pub open spec fn with_field(word: u32, msb: u32, lsb: u32, value: u32) -> u32 {
    (word & !(low_mask(msb, lsb) << lsb)) | ((value & low_mask(msb, lsb)) << lsb)
}

/// Reads one bit.
pub fn get_bit(word: u32, index: u32) -> (r: bool)
    requires
        index < 32,
    ensures
        r == bit(word, index),
{
    (word >> index) & 1 == 1
}

/// Replaces one bit and leaves the others as they are.
pub fn set_bit(word: u32, index: u32, value: bool) -> (r: u32)
    requires
        index < 32,
    ensures
        r == with_bit(word, index, value),
{
    if value {
        word | (1u32 << index)
    } else {
        word & !(1u32 << index)
    }
}

/// Reads the bit range `msb..=lsb`.
pub fn get_field(word: u32, msb: u32, lsb: u32) -> (r: u32)
    requires
        lsb <= msb < 32,
    ensures
        r == field(word, msb, lsb),
{
    let width_gap: u32 = 31 - msb + lsb;
    (word >> lsb) & (0xffff_ffffu32 >> width_gap)
}

/// Replaces the bit range `msb..=lsb` by the low bits of `value`; bits of
/// `value` above the width of the range are dropped.
pub fn set_field(word: u32, msb: u32, lsb: u32, value: u32) -> (r: u32)
    requires
        lsb <= msb < 32,
    ensures
        r == with_field(word, msb, lsb, value),
{
    let width_gap: u32 = 31 - msb + lsb;
    let mask: u32 = 0xffff_ffffu32 >> width_gap;
    (word & !(mask << lsb)) | ((value & mask) << lsb)
}

/// A bit that was written reads back as written, and every other bit keeps
/// its value.
pub proof fn lemma_bit_of_with_bit(word: u32, index: u32, value: bool, other: u32)
    requires
        index < 32,
        other < 32,
    ensures
        bit(with_bit(word, index, value), other) == (if other == index {
            value
        } else {
            bit(word, other)
        }),
{
    assert(((word | (1u32 << index)) >> other) & 1 == (if other == index {
        1u32
    } else {
        (word >> other) & 1
    })) by (bit_vector)
        requires
            index < 32,
            other < 32,
    ;
    assert(((word & !(1u32 << index)) >> other) & 1 == (if other == index {
        0u32
    } else {
        (word >> other) & 1
    })) by (bit_vector)
        requires
            index < 32,
            other < 32,
    ;
    assert((word >> other) & 1 == 0 || (word >> other) & 1 == 1) by (bit_vector);
}

/// A range that was written reads back as the low bits of what was written.
pub proof fn lemma_field_of_with_field(word: u32, msb: u32, lsb: u32, value: u32)
    requires
        lsb <= msb < 32,
    ensures
        field(with_field(word, msb, lsb, value), msb, lsb) == value & low_mask(msb, lsb),
{
    let gap: u32 = (31 - msb + lsb) as u32;
    assert((((word & !((0xffff_ffffu32 >> gap) << lsb)) | ((value & (0xffff_ffffu32 >> gap))
        << lsb)) >> lsb) & (0xffff_ffffu32 >> gap) == value & (0xffff_ffffu32 >> gap))
        by (bit_vector)
        requires
            lsb <= gap,
            gap < 32,
    ;
}

/// Writing a range leaves every bit outside it as it was.
pub proof fn lemma_with_field_keeps_others(word: u32, msb: u32, lsb: u32, value: u32, other: u32)
    requires
        lsb <= msb < 32,
        other < 32,
        other < lsb || other > msb,
    ensures
        bit(with_field(word, msb, lsb, value), other) == bit(word, other),
{
    let gap: u32 = (31 - msb + lsb) as u32;
    assert((((word & !((0xffff_ffffu32 >> gap) << lsb)) | ((value & (0xffff_ffffu32 >> gap))
        << lsb)) >> other) & 1 == (word >> other) & 1) by (bit_vector)
        requires
            lsb <= gap,
            gap < 32,
            other < 32,
            other < lsb || other > 31 - gap + lsb,
    ;
}

} // verus!
