//! What the records of the engine's operations look like: which registers
//! an operation touches, how often, and in which order.
use crate::bits::{bit, field};
use crate::error::Error;
use crate::memory::{Access, TransportError};
use crate::trace;
use crate::trace::{
    catch_reset, dcrsr_word, end_of, halt, keep_thumb, pending, poll, read_at, read_core_reg,
    reset_and_halt, reset_into_halt, restore_and_report, result_of, run, settled, step,
    wait_for_core_halted, write_core_reg, AIRCR, DCRDR, DCRSR, DEMCR, DHCSR, DHCSR_DEBUGEN,
    DHCSR_HALT, DHCSR_RUN, DHCSR_STEP, PC_SELECTOR, POLL_LIMIT, S_HALT_BIT, S_REGRDY_BIT,
    THUMB_BIT, XPSR_SELECTOR, XPSR_THUMB,
};
use vstd::prelude::*;

verus! {

/// Whether `access` is a 32-bit read of `address`.
pub open spec fn reads(access: Access, address: u32) -> bool {
    match access {
        Access::Read32 { address: a, .. } => a == address,
        _ => false,
    }
}

/// Whether `access` is a 32-bit write to `address`.
pub open spec fn writes(access: Access, address: u32) -> bool {
    match access {
        Access::Write32 { address: a, .. } => a == address,
        _ => false,
    }
}

/// Whether none of the accesses `from..to` is a 32-bit read of `address`.
pub open spec fn no_read(t: Seq<Access>, from: int, to: int, address: u32) -> bool {
    forall|i: int| from <= i < to ==> !reads(#[trigger] t[i], address)
}

/// Whether none of the accesses `from..to` is a 32-bit write to `address`.
pub open spec fn no_write(t: Seq<Access>, from: int, to: int, address: u32) -> bool {
    forall|i: int| from <= i < to ==> !writes(#[trigger] t[i], address)
}

/// What the first 32-bit read of `address` among the accesses `from..to`
/// returned.
pub open spec fn first_read(t: Seq<Access>, from: int, to: int, address: u32) -> Option<
    Result<u32, TransportError>,
>
    decreases to - from,
{
    if 0 <= from < to <= t.len() {
        match t[from] {
            Access::Read32 { address: a, outcome } => if a == address {
                Some(outcome)
            } else {
                first_read(t, from + 1, to, address)
            },
            _ => first_read(t, from + 1, to, address),
        }
    } else {
        None
    }
}

/// The value of the last 32-bit write to `address` among the accesses
/// `from..to`.
pub open spec fn last_write(t: Seq<Access>, from: int, to: int, address: u32) -> Option<u32>
    decreases to - from,
{
    if 0 <= from < to <= t.len() {
        match t[to - 1] {
            Access::Write32 { address: a, value, .. } => if a == address {
                Some(value)
            } else {
                last_write(t, from, to - 1, address)
            },
            _ => last_write(t, from, to - 1, address),
        }
    } else {
        None
    }
}

/// Accesses that do not read `address` do not count for the first read of
/// it.
pub proof fn lemma_first_read_skips(t: Seq<Access>, from: int, mid: int, to: int, address: u32)
    requires
        0 <= from <= mid <= to <= t.len(),
        no_read(t, from, mid, address),
    ensures
        first_read(t, from, to, address) == first_read(t, mid, to, address),
    decreases mid - from,
{
    if from < mid {
        assert(!reads(t[from], address));
        lemma_first_read_skips(t, from + 1, mid, to, address);
    }
}

/// Accesses that do not write `address` do not count for the last write to
/// it.
pub proof fn lemma_last_write_skips(t: Seq<Access>, from: int, mid: int, to: int, address: u32)
    requires
        0 <= from <= mid <= to <= t.len(),
        no_write(t, mid, to, address),
    ensures
        last_write(t, from, to, address) == last_write(t, from, mid, address),
    decreases to - mid,
{
    if mid < to {
        assert(!writes(t[to - 1], address));
        if from < to - 1 {
            lemma_last_write_skips(t, from, mid, to - 1, address);
        } else {
        }
    }
}

/// A poll reads DHCSR and nothing else, at most as often as its budget
/// allows. It ends well with the first read that finds the bit set; it
/// times out when, and only when, the budget is used up by reads that
/// found the bit clear.
pub proof fn lemma_poll_shape(t: Seq<Access>, at: int, index: u32, budget: nat)
    requires
        0 <= at,
        poll(t, at, index, budget) is Some,
    ensures
        ({
            let end = end_of(poll(t, at, index, budget));
            let r = result_of(poll(t, at, index, budget));
            &&& at <= end <= at + budget
            &&& end <= t.len() || end == at
            &&& forall|i: int| at <= i < end ==> reads(#[trigger] t[i], DHCSR)
            &&& forall|i: int| at <= i < end - 1 ==> pending(t, i, index)
            &&& r is Ok ==> at < end && settled(t, end - 1, index)
            &&& r == Err::<(), Error>(Error::Timeout) <==> end == at + budget && forall|i: int|
                at <= i < end ==> pending(t, i, index)
        }),
    decreases budget,
{
    if budget > 0 {
        match read_at(t, at, DHCSR) {
            Some(Ok(word)) => {
                if !bit(word, index) {
                    lemma_poll_shape(t, at + 1, index, (budget - 1) as nat);
                    let end = end_of(poll(t, at, index, budget));
                    let r = result_of(poll(t, at, index, budget));
                    assert(pending(t, at, index));
                    assert forall|i: int| at <= i < end - 1 implies pending(t, i, index) by {
                        if i > at {
                        }
                    }
                    assert(r == Err::<(), Error>(Error::Timeout) ==> forall|i: int|
                        at <= i < end ==> pending(t, i, index)) by {
                        if r == Err::<(), Error>(Error::Timeout) {
                            assert forall|i: int| at <= i < end implies pending(t, i, index) by {
                                if i > at {
                                }
                            }
                        }
                    }
                } else {
                    assert(!pending(t, at, index));
                }
            },
            Some(Err(e)) => {
                assert(!pending(t, at, index));
            },
            None => {},
        }
    }
}

/// One hundred reads of DHCSR that all find S_HALT clear are a wait for
/// the halt that timed out, and the wait ends with them.
pub proof fn lemma_wait_for_core_halted_times_out(t: Seq<Access>, at: int)
    requires
        0 <= at,
        forall|i: int| at <= i < at + 100 ==> pending(t, i, S_HALT_BIT),
    ensures
        wait_for_core_halted(t, at) == Some((at + 100, Err::<(), Error>(Error::Timeout))),
{
    trace::lemma_poll_skips(t, at, S_HALT_BIT, 100, 100);
}

/// A core register read that came to its end wrote DCRSR once, first of
/// all, with the selector and REGWNR clear; then read DHCSR until it
/// found S_REGRDY set; then read DCRDR once, and returned what it read.
pub proof fn lemma_read_core_reg_shape(t: Seq<Access>, at: int, selector: u8)
    requires
        0 <= at,
        read_core_reg(t, at, selector) is Some,
        result_of(read_core_reg(t, at, selector)) is Ok,
    ensures
        ({
            let end = end_of(read_core_reg(t, at, selector));
            let value = result_of(read_core_reg(t, at, selector))->Ok_0;
            &&& at + 3 <= end <= t.len()
            &&& t[at] matches Access::Write32 { address, value: word, outcome } && address
                == DCRSR && word == dcrsr_word(selector, false) && outcome is Ok
            &&& forall|i: int| at < i < end - 1 ==> reads(#[trigger] t[i], DHCSR)
            &&& forall|i: int| at < i < end - 2 ==> pending(t, i, S_REGRDY_BIT)
            &&& settled(t, end - 2, S_REGRDY_BIT)
            &&& t[end - 1] == (Access::Read32 { address: DCRDR, outcome: Ok(value) })
        }),
{
    lemma_poll_shape(t, at + 1, S_REGRDY_BIT, POLL_LIMIT as nat);
}

/// A core register transfer, whatever its end, writes DCRSR first and
/// then only reads; a write transfer loads DCRDR before that.
pub proof fn lemma_transfer_footprint(t: Seq<Access>, at: int, selector: u8, value: u32)
    requires
        0 <= at,
    ensures
        read_core_reg(t, at, selector) is Some ==> ({
            let end = end_of(read_core_reg(t, at, selector));
            &&& at < end <= t.len()
            &&& writes(t[at], DCRSR)
            &&& forall|i: int| at < i < end ==> (#[trigger] t[i]) is Read32
            &&& forall|i: int| at < i < end - 1 ==> reads(#[trigger] t[i], DHCSR)
            &&& reads(t[end - 1], DHCSR) || reads(t[end - 1], DCRDR) || end == at + 1
        }),
        write_core_reg(t, at, selector, value) is Some ==> ({
            let end = end_of(write_core_reg(t, at, selector, value));
            &&& at < end <= t.len()
            &&& t[at] matches Access::Write32 { address, value: loaded, .. } && address == DCRDR
                && loaded == value
            &&& end > at + 1 ==> writes(t[at + 1], DCRSR)
            &&& forall|i: int| at + 1 < i < end ==> reads(#[trigger] t[i], DHCSR)
        }),
{
    if read_core_reg(t, at, selector) is Some {
        match trace::write(t, at, DCRSR, dcrsr_word(selector, false)) {
            Some((selected, Ok(_))) => {
                lemma_poll_shape(t, selected, S_REGRDY_BIT, POLL_LIMIT as nat);
            },
            _ => {},
        }
    }
    if write_core_reg(t, at, selector, value) is Some {
        match trace::write(t, at, DCRDR, value) {
            Some((loaded, Ok(_))) => {
                match trace::write(t, loaded, DCRSR, dcrsr_word(selector, true)) {
                    Some((selected, Ok(_))) => {
                        lemma_poll_shape(t, selected, S_REGRDY_BIT, POLL_LIMIT as nat);
                    },
                    _ => {},
                }
            },
            _ => {},
        }
    }
}

/// A halt, whatever its end, writes DHCSR exactly once: first of all,
/// with the debug key, C_HALT and C_DEBUGEN. After that it reads DHCSR,
/// and nothing else, until the wait for the halt ends; and whatever
/// follows is no write to DHCSR.
pub proof fn lemma_halt_writes_dhcsr_once(t: Seq<Access>, at: int)
    requires
        0 <= at,
        halt(t, at) is Some,
    ensures
        ({
            let end = end_of(halt(t, at));
            &&& at < end <= t.len()
            &&& t[at] matches Access::Write32 { address, value, .. } && address == DHCSR && value
                == DHCSR_HALT
            &&& bit(DHCSR_HALT, 1)
            &&& bit(DHCSR_HALT, 0)
            &&& field(DHCSR_HALT, 31, 16) == 0xA05F
            &&& no_write(t, at + 1, end, DHCSR)
            &&& end > at + 1 ==> wait_for_core_halted(t, at + 1) is Some && forall|i: int|
                at < i < end_of(wait_for_core_halted(t, at + 1)) ==> reads(#[trigger] t[i], DHCSR)
        }),
{
    assert(bit(DHCSR_HALT, 1) && bit(DHCSR_HALT, 0) && field(DHCSR_HALT, 31, 16) == 0xA05F) by {
        assert((0xA05F_0003u32 >> 1u32) & 1 == 1) by (bit_vector);
        assert((0xA05F_0003u32 >> 0u32) & 1 == 1) by (bit_vector);
        assert((0xA05F_0003u32 >> 16u32) & (0xffff_ffffu32 >> 16u32) == 0xA05F) by (bit_vector);
    }
    match trace::write(t, at, DHCSR, DHCSR_HALT) {
        Some((written, Ok(_))) => {
            lemma_poll_shape(t, written, S_HALT_BIT, POLL_LIMIT as nat);
            match wait_for_core_halted(t, written) {
                Some((halted, Ok(_))) => {
                    lemma_transfer_footprint(t, halted, PC_SELECTOR, 0);
                    let end = end_of(halt(t, at));
                    assert forall|i: int| at + 1 <= i < end implies !writes(
                        #[trigger] t[i],
                        DHCSR,
                    ) by {
                        if i < halted {
                            assert(reads(t[i], DHCSR));
                        } else if i == halted {
                            assert(writes(t[i], DCRSR));
                        } else {
                            assert(t[i] is Read32);
                        }
                    }
                },
                Some((end, Err(_))) => {
                    assert forall|i: int| at + 1 <= i < end implies !writes(
                        #[trigger] t[i],
                        DHCSR,
                    ) by {
                        assert(reads(t[i], DHCSR));
                    }
                },
                None => {},
            }
        },
        _ => {},
    }
}

/// Whether the last write to `address` among the accesses `from..to` put
/// back what the first read of it among them had found.
pub open spec fn restored(t: Seq<Access>, from: int, to: int, address: u32) -> bool {
    match first_read(t, from, to, address) {
        Some(Ok(found)) => last_write(t, from, to, address) == Some(found),
        _ => false,
    }
}

/// Whether the accesses `from..to` leave the Thumb bit set in XPSR: the
/// core register that was read first either had the bit set, and no core
/// register was written, or had it clear, and the last core register
/// write loaded what was read with the bit set.
pub open spec fn thumb_kept(t: Seq<Access>, from: int, to: int) -> bool {
    match first_read(t, from, to, DCRDR) {
        Some(Ok(xpsr)) => if bit(xpsr, THUMB_BIT) {
            last_write(t, from, to, DCRDR) is None
        } else {
            last_write(t, from, to, DCRDR) == Some(xpsr | XPSR_THUMB) && bit(
                xpsr | XPSR_THUMB,
                THUMB_BIT,
            )
        },
        _ => false,
    }
}

/// The last write among `from..to` is also the last among any accesses
/// that start earlier and end at `to`.
pub proof fn lemma_last_write_widens(t: Seq<Access>, earlier: int, from: int, to: int, address: u32)
    requires
        0 <= earlier <= from,
        last_write(t, from, to, address) is Some,
    ensures
        last_write(t, earlier, to, address) == last_write(t, from, to, address),
    decreases to - from,
{
    if 0 <= from < to <= t.len() {
        if !writes(t[to - 1], address) {
            lemma_last_write_widens(t, earlier, from, to - 1, address);
        }
    }
}

/// Among accesses none of which writes `address` there is no last write
/// to it.
pub proof fn lemma_last_write_none(t: Seq<Access>, from: int, to: int, address: u32)
    requires
        no_write(t, from, to, address),
    ensures
        last_write(t, from, to, address) is None,
    decreases to - from,
{
    if 0 <= from < to <= t.len() {
        assert(!writes(t[to - 1], address));
        lemma_last_write_none(t, from, to - 1, address);
    }
}

/// The end of a reset-and-halt that succeeded wrote DEMCR first of all,
/// and touched neither DEMCR nor DCRDR with a write after that.
proof fn lemma_restore_and_report_shape(t: Seq<Access>, at: int, demcr: u32)
    requires
        0 <= at,
        restore_and_report(t, at, demcr) is Some,
        result_of(restore_and_report(t, at, demcr)) is Ok,
    ensures
        ({
            let end = end_of(restore_and_report(t, at, demcr));
            &&& at < end <= t.len()
            &&& last_write(t, at, end, DEMCR) == Some(demcr)
            &&& no_write(t, at, end, DCRDR)
        }),
{
    let end = end_of(restore_and_report(t, at, demcr));
    lemma_transfer_footprint(t, at + 1, PC_SELECTOR, 0);
    assert forall|i: int| at + 1 <= i < end implies !writes(#[trigger] t[i], DEMCR) by {
        if i == at + 1 {
            assert(writes(t[i], DCRSR));
        } else {
            assert(t[i] is Read32);
        }
    }
    lemma_last_write_skips(t, at, at + 1, end, DEMCR);
    assert forall|i: int| at <= i < end implies !writes(#[trigger] t[i], DCRDR) by {
        if i == at {
            assert(writes(t[i], DEMCR));
        } else if i == at + 1 {
            assert(writes(t[i], DCRSR));
        } else {
            assert(t[i] is Read32);
        }
    }
}

/// The part of a reset-and-halt after the halt, where it succeeded, left
/// the Thumb bit set and DEMCR as `demcr`, and read DEMCR nowhere.
proof fn lemma_keep_thumb_shape(t: Seq<Access>, at: int, demcr: u32)
    requires
        0 <= at,
        keep_thumb(t, at, demcr) is Some,
        result_of(keep_thumb(t, at, demcr)) is Ok,
    ensures
        ({
            let end = end_of(keep_thumb(t, at, demcr));
            &&& at < end <= t.len()
            &&& last_write(t, at, end, DEMCR) == Some(demcr)
            &&& thumb_kept(t, at, end)
        }),
{
    let end = end_of(keep_thumb(t, at, demcr));
    lemma_read_core_reg_shape(t, at, XPSR_SELECTOR);
    let known = end_of(read_core_reg(t, at, XPSR_SELECTOR));
    let xpsr = result_of(read_core_reg(t, at, XPSR_SELECTOR))->Ok_0;
    assert(no_read(t, at, known - 1, DCRDR)) by {
        assert forall|i: int| at <= i < known - 1 implies !reads(#[trigger] t[i], DCRDR) by {
            if i > at {
                assert(reads(t[i], DHCSR));
            }
        }
    }
    assert(no_write(t, at, known, DCRDR)) by {
        assert forall|i: int| at <= i < known implies !writes(#[trigger] t[i], DCRDR) by {
            if at < i < known - 1 {
                assert(reads(t[i], DHCSR));
            }
        }
    }
    assert(bit(xpsr | XPSR_THUMB, THUMB_BIT)) by {
        assert(((xpsr | 0x0100_0000u32) >> 24u32) & 1 == 1) by (bit_vector);
    }
    if bit(xpsr, THUMB_BIT) {
        lemma_restore_and_report_shape(t, known, demcr);
        lemma_first_read_skips(t, at, known - 1, end, DCRDR);
        lemma_last_write_widens(t, at, known, end, DEMCR);
        assert(no_write(t, at, end, DCRDR));
        lemma_last_write_none(t, at, end, DCRDR);
    } else {
        let fixed = end_of(write_core_reg(t, known, XPSR_SELECTOR, xpsr | XPSR_THUMB));
        lemma_transfer_footprint(t, known, XPSR_SELECTOR, xpsr | XPSR_THUMB);
        lemma_restore_and_report_shape(t, fixed, demcr);
        lemma_first_read_skips(t, at, known - 1, end, DCRDR);
        lemma_last_write_widens(t, at, fixed, end, DEMCR);
        assert(no_write(t, known + 1, end, DCRDR)) by {
            assert forall|i: int| known + 1 <= i < end implies !writes(
                #[trigger] t[i],
                DCRDR,
            ) by {
                if i == known + 1 {
                    assert(writes(t[i], DCRSR));
                } else if i < fixed {
                    assert(reads(t[i], DHCSR));
                }
            }
        }
        lemma_last_write_skips(t, known, known + 1, end, DCRDR);
        lemma_last_write_widens(t, at, known, end, DCRDR);
    }
}

/// The part of a reset-and-halt from the reset on, where it succeeded,
/// left the Thumb bit set and DEMCR as `demcr`, and read DEMCR nowhere.
proof fn lemma_reset_into_halt_shape(t: Seq<Access>, at: int, demcr: u32)
    requires
        0 <= at,
        reset_into_halt(t, at, demcr) is Some,
        result_of(reset_into_halt(t, at, demcr)) is Ok,
    ensures
        ({
            let end = end_of(reset_into_halt(t, at, demcr));
            &&& at < end <= t.len()
            &&& last_write(t, at, end, DEMCR) == Some(demcr)
            &&& thumb_kept(t, at, end)
        }),
{
    let end = end_of(reset_into_halt(t, at, demcr));
    lemma_poll_shape(t, at + 1, S_HALT_BIT, POLL_LIMIT as nat);
    let halted = end_of(wait_for_core_halted(t, at + 1));
    lemma_keep_thumb_shape(t, halted, demcr);
    lemma_last_write_widens(t, at, halted, end, DEMCR);
    assert(no_read(t, at, halted, DCRDR) && no_write(t, at, halted, DCRDR)) by {
        assert forall|i: int| at <= i < halted implies !reads(#[trigger] t[i], DCRDR) && !writes(
            t[i],
            DCRDR,
        ) by {
            if i > at {
                assert(reads(t[i], DHCSR));
            }
        }
    }
    lemma_first_read_skips(t, at, halted, end, DCRDR);
    lemma_widen_thumb(t, at, halted, end);
}

/// Accesses that touch no core register data leave the Thumb bit as what
/// follows them leaves it.
proof fn lemma_widen_thumb(t: Seq<Access>, earlier: int, from: int, to: int)
    requires
        0 <= earlier <= from <= to <= t.len(),
        no_read(t, earlier, from, DCRDR),
        no_write(t, earlier, from, DCRDR),
        thumb_kept(t, from, to),
    ensures
        thumb_kept(t, earlier, to),
{
    lemma_first_read_skips(t, earlier, from, to, DCRDR);
    if last_write(t, from, to, DCRDR) is Some {
        lemma_last_write_widens(t, earlier, from, to, DCRDR);
    } else {
        lemma_no_last_write(t, from, to, DCRDR);
        assert(no_write(t, earlier, to, DCRDR));
        lemma_last_write_none(t, earlier, to, DCRDR);
    }
}

/// Where there is no last write to `address`, nothing writes it.
proof fn lemma_no_last_write(t: Seq<Access>, from: int, to: int, address: u32)
    requires
        0 <= from <= to <= t.len(),
        last_write(t, from, to, address) is None,
    ensures
        no_write(t, from, to, address),
    decreases to - from,
{
    if from < to {
        lemma_no_last_write(t, from, to - 1, address);
    }
}

/// A reset-and-halt that succeeded restored DEMCR: the last word written
/// to DEMCR is the word that was first read from it, whether or not
/// VC_CORERESET was set in it. And it left the Thumb bit set: XPSR was
/// either found with the bit set and not written, or found with it clear
/// and written with it set.
pub proof fn lemma_reset_and_halt_shape(t: Seq<Access>, at: int)
    requires
        0 <= at,
        reset_and_halt(t, at) is Some,
        result_of(reset_and_halt(t, at)) is Ok,
    ensures
        ({
            let end = end_of(reset_and_halt(t, at));
            &&& at < end <= t.len()
            &&& restored(t, at, end, DEMCR)
            &&& thumb_kept(t, at, end)
        }),
{
    let end = end_of(reset_and_halt(t, at));
    let dhcsr = result_of(trace::read(t, at, DHCSR))->Ok_0;
    let at_demcr = if bit(dhcsr, 0) {
        at + 1
    } else {
        at + 2
    };
    let demcr = result_of(trace::read(t, at_demcr, DEMCR))->Ok_0;
    let at_reset = if bit(demcr, 0) {
        at_demcr + 1
    } else {
        at_demcr + 2
    };
    assert(reset_and_halt(t, at) == catch_reset(t, at_demcr));
    assert(catch_reset(t, at_demcr) == reset_into_halt(t, at_reset, demcr));
    lemma_reset_into_halt_shape(t, at_reset, demcr);
    lemma_last_write_widens(t, at, at_reset, end, DEMCR);
    assert(no_read(t, at, at_demcr, DEMCR)) by {
        assert forall|i: int| at <= i < at_demcr implies !reads(#[trigger] t[i], DEMCR) by {
            if i == at {
                assert(reads(t[i], DHCSR));
            } else {
                assert(writes(t[i], DHCSR));
            }
        }
    }
    lemma_first_read_skips(t, at, at_demcr, end, DEMCR);
    assert(no_read(t, at, at_reset, DCRDR) && no_write(t, at, at_reset, DCRDR)) by {
        assert forall|i: int| at <= i < at_reset implies !reads(#[trigger] t[i], DCRDR)
            && !writes(t[i], DCRDR) by {
            if i == at {
                assert(reads(t[i], DHCSR));
            } else if i < at_demcr {
                assert(writes(t[i], DHCSR));
            } else if i == at_demcr {
                assert(reads(t[i], DEMCR));
            } else {
                assert(writes(t[i], DEMCR));
            }
        }
    }
    lemma_widen_thumb(t, at, at_reset, end);
}

/// Whether every write to DHCSR among the accesses `from..to` carries the
/// debug key in bits 31:16.
pub open spec fn keyed(t: Seq<Access>, from: int, to: int) -> bool {
    forall|i: int|
        from <= i < to ==> match #[trigger] t[i] {
            Access::Write32 { address, value, .. } => address == DHCSR ==> field(value, 31, 16)
                == 0xA05F,
            _ => true,
        }
}

/// The words that the engine writes to DHCSR carry the debug key.
pub proof fn lemma_command_words_carry_key()
    ensures
        field(DHCSR_HALT, 31, 16) == 0xA05F,
        field(DHCSR_RUN, 31, 16) == 0xA05F,
        field(DHCSR_STEP, 31, 16) == 0xA05F,
        field(DHCSR_DEBUGEN, 31, 16) == 0xA05F,
        bit(DHCSR_HALT, 0) && bit(DHCSR_HALT, 1),
        bit(DHCSR_RUN, 0) && !bit(DHCSR_RUN, 1),
        bit(DHCSR_STEP, 0) && !bit(DHCSR_STEP, 1) && bit(DHCSR_STEP, 2) && bit(DHCSR_STEP, 3),
{
    assert((0xA05F_0003u32 >> 16u32) & (0xffff_ffffu32 >> 16u32) == 0xA05F) by (bit_vector);
    assert((0xA05F_0001u32 >> 16u32) & (0xffff_ffffu32 >> 16u32) == 0xA05F) by (bit_vector);
    assert((0xA05F_000Du32 >> 16u32) & (0xffff_ffffu32 >> 16u32) == 0xA05F) by (bit_vector);
    assert((0xA05F_0003u32 >> 0u32) & 1 == 1 && (0xA05F_0003u32 >> 1u32) & 1 == 1)
        by (bit_vector);
    assert((0xA05F_0001u32 >> 0u32) & 1 == 1 && (0xA05F_0001u32 >> 1u32) & 1 == 0)
        by (bit_vector);
    assert((0xA05F_000Du32 >> 0u32) & 1 == 1 && (0xA05F_000Du32 >> 1u32) & 1 == 0 && (
    0xA05F_000Du32 >> 2u32) & 1 == 1 && (0xA05F_000Du32 >> 3u32) & 1 == 1) by (bit_vector);
}

/// A wait for the halt followed by a read of the program counter writes
/// DHCSR nowhere, whatever its end.
proof fn lemma_halted_pc_footprint(t: Seq<Access>, at: int)
    requires
        0 <= at,
        trace::halted_pc(t, at) is Some,
    ensures
        at <= end_of(trace::halted_pc(t, at)) <= t.len() || end_of(trace::halted_pc(t, at)) == at,
        no_write(t, at, end_of(trace::halted_pc(t, at)), DHCSR),
{
    lemma_poll_shape(t, at, S_HALT_BIT, POLL_LIMIT as nat);
    let end = end_of(trace::halted_pc(t, at));
    match wait_for_core_halted(t, at) {
        Some((halted, Ok(_))) => {
            lemma_transfer_footprint(t, halted, PC_SELECTOR, 0);
            assert forall|i: int| at <= i < end implies !writes(#[trigger] t[i], DHCSR) by {
                if i < halted {
                    assert(reads(t[i], DHCSR));
                } else if i == halted {
                    assert(writes(t[i], DCRSR));
                } else {
                    assert(t[i] is Read32);
                }
            }
        },
        Some((_, Err(_))) => {
            assert forall|i: int| at <= i < end implies !writes(#[trigger] t[i], DHCSR) by {
                assert(reads(t[i], DHCSR));
            }
        },
        None => {},
    }
}

/// The end of a reset-and-halt writes DHCSR nowhere, whatever its end.
proof fn lemma_restore_and_report_footprint(t: Seq<Access>, at: int, demcr: u32)
    requires
        0 <= at,
        restore_and_report(t, at, demcr) is Some,
    ensures
        at < end_of(restore_and_report(t, at, demcr)) <= t.len(),
        no_write(t, at, end_of(restore_and_report(t, at, demcr)), DHCSR),
{
    let end = end_of(restore_and_report(t, at, demcr));
    lemma_transfer_footprint(t, at + 1, PC_SELECTOR, 0);
    assert forall|i: int| at <= i < end implies !writes(#[trigger] t[i], DHCSR) by {
        if i == at {
            assert(writes(t[i], DEMCR));
        } else if i == at + 1 {
            assert(writes(t[i], DCRSR));
        } else {
            assert(t[i] is Read32);
        }
    }
}

/// The part of a reset-and-halt after the halt writes DHCSR nowhere,
/// whatever its end.
proof fn lemma_keep_thumb_footprint(t: Seq<Access>, at: int, demcr: u32)
    requires
        0 <= at,
        keep_thumb(t, at, demcr) is Some,
    ensures
        at < end_of(keep_thumb(t, at, demcr)) <= t.len(),
        no_write(t, at, end_of(keep_thumb(t, at, demcr)), DHCSR),
{
    let end = end_of(keep_thumb(t, at, demcr));
    lemma_transfer_footprint(t, at, XPSR_SELECTOR, 0);
    let known = end_of(read_core_reg(t, at, XPSR_SELECTOR));
    assert(no_write(t, at, known, DHCSR)) by {
        assert forall|i: int| at <= i < known implies !writes(#[trigger] t[i], DHCSR) by {
            if i == at {
                assert(writes(t[i], DCRSR));
            } else {
                assert(t[i] is Read32);
            }
        }
    }
    match read_core_reg(t, at, XPSR_SELECTOR) {
        Some((_, Ok(xpsr))) => {
            if bit(xpsr, THUMB_BIT) {
                lemma_restore_and_report_footprint(t, known, demcr);
            } else {
                let value = xpsr | XPSR_THUMB;
                lemma_transfer_footprint(t, known, XPSR_SELECTOR, value);
                let fixed = end_of(write_core_reg(t, known, XPSR_SELECTOR, value));
                assert(no_write(t, known, fixed, DHCSR)) by {
                    assert forall|i: int| known <= i < fixed implies !writes(
                        #[trigger] t[i],
                        DHCSR,
                    ) by {
                        if i == known {
                            assert(writes(t[i], DCRDR));
                        } else if i == known + 1 {
                            assert(writes(t[i], DCRSR));
                        } else {
                            assert(reads(t[i], DHCSR));
                        }
                    }
                }
                match write_core_reg(t, known, XPSR_SELECTOR, value) {
                    Some((_, Ok(_))) => {
                        lemma_restore_and_report_footprint(t, fixed, demcr);
                    },
                    _ => {},
                }
            }
        },
        _ => {},
    }
}

/// The part of a reset-and-halt from the reset on writes DHCSR nowhere,
/// whatever its end.
proof fn lemma_reset_into_halt_footprint(t: Seq<Access>, at: int, demcr: u32)
    requires
        0 <= at,
        reset_into_halt(t, at, demcr) is Some,
    ensures
        at < end_of(reset_into_halt(t, at, demcr)) <= t.len(),
        no_write(t, at, end_of(reset_into_halt(t, at, demcr)), DHCSR),
{
    let end = end_of(reset_into_halt(t, at, demcr));
    assert(writes(t[at], AIRCR));
    match trace::reset(t, at) {
        Some((_, Ok(_))) => {
            lemma_poll_shape(t, at + 1, S_HALT_BIT, POLL_LIMIT as nat);
            let halted = end_of(wait_for_core_halted(t, at + 1));
            match wait_for_core_halted(t, at + 1) {
                Some((_, Ok(_))) => {
                    lemma_keep_thumb_footprint(t, halted, demcr);
                },
                _ => {},
            }
            assert forall|i: int| at <= i < end implies !writes(#[trigger] t[i], DHCSR) by {
                if at < i < halted {
                    assert(reads(t[i], DHCSR));
                }
            }
        },
        _ => {},
    }
}

/// The part of a reset-and-halt from the read of DEMCR on writes DHCSR
/// nowhere, whatever its end.
proof fn lemma_catch_reset_footprint(t: Seq<Access>, at: int)
    requires
        0 <= at,
        catch_reset(t, at) is Some,
    ensures
        at < end_of(catch_reset(t, at)) <= t.len(),
        no_write(t, at, end_of(catch_reset(t, at)), DHCSR),
{
    let end = end_of(catch_reset(t, at));
    assert(reads(t[at], DEMCR));
    match trace::read(t, at, DEMCR) {
        Some((_, Ok(demcr))) => {
            if bit(demcr, 0) {
                lemma_reset_into_halt_footprint(t, at + 1, demcr);
            } else {
                assert(writes(t[at + 1], DEMCR));
                match trace::write(t, at + 1, DEMCR, demcr | 1) {
                    Some((_, Ok(_))) => {
                        lemma_reset_into_halt_footprint(t, at + 2, demcr);
                    },
                    _ => {},
                }
            }
            assert forall|i: int| at <= i < end implies !writes(#[trigger] t[i], DHCSR) by {}
        },
        _ => {},
    }
}

/// Every write to DHCSR that a halt, a run, a step or a reset-and-halt
/// makes carries the debug key, whatever the end of the operation.
pub proof fn lemma_dhcsr_writes_carry_key(t: Seq<Access>, at: int)
    requires
        0 <= at,
    ensures
        halt(t, at) is Some ==> keyed(t, at, end_of(halt(t, at))),
        run(t, at) is Some ==> keyed(t, at, end_of(run(t, at))),
        step(t, at) is Some ==> keyed(t, at, end_of(step(t, at))),
        reset_and_halt(t, at) is Some ==> keyed(t, at, end_of(reset_and_halt(t, at))),
{
    lemma_command_words_carry_key();
    if halt(t, at) is Some {
        let end = end_of(halt(t, at));
        if end > at + 1 {
            lemma_halted_pc_footprint(t, at + 1);
        }
        assert forall|i: int| at < i < end implies !writes(#[trigger] t[i], DHCSR) by {}
    }
    if step(t, at) is Some {
        let end = end_of(step(t, at));
        if end > at + 1 {
            lemma_halted_pc_footprint(t, at + 1);
        }
        assert forall|i: int| at < i < end implies !writes(#[trigger] t[i], DHCSR) by {}
    }
    if reset_and_halt(t, at) is Some {
        let end = end_of(reset_and_halt(t, at));
        match trace::read(t, at, DHCSR) {
            Some((_, Ok(dhcsr))) => {
                assert(reads(t[at], DHCSR));
                if bit(dhcsr, 0) {
                    lemma_catch_reset_footprint(t, at + 1);
                } else {
                    match trace::write(t, at + 1, DHCSR, DHCSR_DEBUGEN) {
                        Some((_, Ok(_))) => {
                            lemma_catch_reset_footprint(t, at + 2);
                        },
                        _ => {},
                    }
                }
                assert forall|i: int| at <= i < end && i != at + 1 implies !writes(
                    #[trigger] t[i],
                    DHCSR,
                ) by {}
            },
            _ => {},
        }
    }
}

} // verus!
