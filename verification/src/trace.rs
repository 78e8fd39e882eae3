//! What each operation of the debug engine does to the target, told as the
//! accesses it makes.
//!
//! An operation that starts when `at` accesses have been made leaves a record
//! `t` that it can be read back from: each function here walks `t` from
//! position `at` and gives the position where the operation ended together
//! with what it returned, or `None` where `t` does not hold the accesses of
//! that operation. The answers of the target are part of `t`, so a function
//! here says what the engine does for every behaviour of the target.
use crate::bits::{bit, field};
use crate::error::Error;
use crate::m4::Breakpoint;
use crate::memory::{Access, TransportError};
use crate::registers::{breakpoint_word, num_code_of};
use vstd::prelude::*;
use vstd::set_lib::{lemma_int_range, lemma_subset_equality, set_int_range};

verus! {

/// Where DHCSR is mapped.
pub const DHCSR: u32 = 0xE000_EDF0;

/// Where DCRSR is mapped.
pub const DCRSR: u32 = 0xE000_EDF4;

/// Where DCRDR is mapped.
pub const DCRDR: u32 = 0xE000_EDF8;

/// Where AIRCR is mapped.
pub const AIRCR: u32 = 0xE000_ED0C;

/// Where DEMCR is mapped.
pub const DEMCR: u32 = 0xE000_EDFC;

/// Where FP_CTRL is mapped.
pub const FP_CTRL: u32 = 0xE000_2000;

/// Where FP_COMP0 is mapped; comparator `n` follows `4 * n` bytes later.
pub const FP_COMP0: u32 = 0xE000_2008;

/// How often a status bit is read before the engine gives up.
pub const POLL_LIMIT: u32 = 100;

/// The position of S_REGRDY in DHCSR.
pub const S_REGRDY_BIT: u32 = 16;

/// The position of S_HALT in DHCSR.
pub const S_HALT_BIT: u32 = 17;

/// The position of the Thumb bit in XPSR.
pub const THUMB_BIT: u32 = 24;

/// XPSR with the Thumb bit set.
pub const XPSR_THUMB: u32 = 0x0100_0000;

/// The DHCSR write that halts the core: key, C_HALT, C_DEBUGEN.
pub const DHCSR_HALT: u32 = 0xA05F_0003;

/// The DHCSR write that lets the core run: key, C_DEBUGEN.
pub const DHCSR_RUN: u32 = 0xA05F_0001;

/// The DHCSR write that steps one instruction: key, C_MASKINTS, C_STEP,
/// C_DEBUGEN.
pub const DHCSR_STEP: u32 = 0xA05F_000D;

/// The DHCSR write that enables halting debug: key, C_DEBUGEN.
pub const DHCSR_DEBUGEN: u32 = 0xA05F_0001;

/// The AIRCR write that requests a system reset: VECTKEY, SYSRESETREQ.
pub const AIRCR_RESET: u32 = 0x05FA_0004;

/// The selector of the program counter.
pub const PC_SELECTOR: u8 = 0x0F;

/// The selector of XPSR.
pub const XPSR_SELECTOR: u8 = 0x10;

/// Where an operation ended and what it returned.
pub type Outcome<T> = Option<(int, Result<T, Error>)>;

/// Where an operation that `t` holds ended.
pub open spec fn end_of<T>(outcome: Outcome<T>) -> int {
    outcome.unwrap().0
}

/// What an operation that `t` holds returned.
pub open spec fn result_of<T>(outcome: Outcome<T>) -> Result<T, Error> {
    outcome.unwrap().1
}

/// The DCRSR word that starts a transfer of core register `selector`:
/// REGSEL in bits 6:0, REGWNR in bit 16.
pub open spec fn dcrsr_word(selector: u8, write: bool) -> u32 {
    ((selector as u32) & 0x7f) | (if write {
        0x1_0000u32
    } else {
        0u32
    })
}

/// The FP_CTRL word that switches the breakpoint unit: KEY, and ENABLE as
/// `state` says.
pub open spec fn fp_ctrl_word(state: bool) -> u32 {
    if state {
        3
    } else {
        2
    }
}

/// The address of comparator `index`.
pub open spec fn comparator_address(index: int) -> int {
    FP_COMP0 as int + 4 * index
}

/// What the access at position `at` returned, where it is a 32-bit read of
/// `address`.
pub open spec fn read_at(t: Seq<Access>, at: int, address: u32) -> Option<
    Result<u32, TransportError>,
> {
    if 0 <= at < t.len() {
        match t[at] {
            Access::Read32 { address: a, outcome } => if a == address {
                Some(outcome)
            } else {
                None
            },
            _ => None,
        }
    } else {
        None
    }
}

/// What the access at position `at` returned, where it is a 32-bit write of
/// `value` to `address`.
pub open spec fn write_at(t: Seq<Access>, at: int, address: u32, value: u32) -> Option<
    Result<(), TransportError>,
> {
    if 0 <= at < t.len() {
        match t[at] {
            Access::Write32 { address: a, value: v, outcome } => if a == address && v == value {
                Some(outcome)
            } else {
                None
            },
            _ => None,
        }
    } else {
        None
    }
}

/// One write of `value` to `address`.
pub open spec fn write(t: Seq<Access>, at: int, address: u32, value: u32) -> Outcome<()> {
    match write_at(t, at, address, value) {
        None => None,
        Some(Err(e)) => Some((at + 1, Err(Error::Transport(e)))),
        Some(Ok(_)) => Some((at + 1, Ok(()))),
    }
}

/// One read of `address`.
pub open spec fn read(t: Seq<Access>, at: int, address: u32) -> Outcome<u32> {
    match read_at(t, at, address) {
        None => None,
        Some(Err(e)) => Some((at + 1, Err(Error::Transport(e)))),
        Some(Ok(word)) => Some((at + 1, Ok(word))),
    }
}

/// One read of `len` bytes from `address`; the bytes read are the result.
pub open spec fn read_block(t: Seq<Access>, at: int, address: u32, len: nat) -> Outcome<Seq<u8>> {
    if 0 <= at < t.len() {
        match t[at] {
            Access::ReadBlock8 { address: a, data, outcome } => if a == address && data.len()
                == len {
                match outcome {
                    Ok(_) => Some((at + 1, Ok(data))),
                    Err(e) => Some((at + 1, Err(Error::Transport(e)))),
                }
            } else {
                None
            },
            _ => None,
        }
    } else {
        None
    }
}

/// One write of the bytes `data` to `address`.
pub open spec fn write_block(t: Seq<Access>, at: int, address: u32, data: Seq<u8>) -> Outcome<()> {
    if 0 <= at < t.len() {
        match t[at] {
            Access::WriteBlock8 { address: a, data: d, outcome } => if a == address && d == data {
                match outcome {
                    Ok(_) => Some((at + 1, Ok(()))),
                    Err(e) => Some((at + 1, Err(Error::Transport(e)))),
                }
            } else {
                None
            },
            _ => None,
        }
    } else {
        None
    }
}

/// DHCSR is read until bit `index` of it is set, a read fails, or `budget`
/// reads have been made, whichever comes first. With the budget used up the
/// result is `Timeout`, and nothing further is read.
pub open spec fn poll(t: Seq<Access>, at: int, index: u32, budget: nat) -> Outcome<()>
    decreases budget,
{
    if budget == 0 {
        Some((at, Err(Error::Timeout)))
    } else {
        match read_at(t, at, DHCSR) {
            None => None,
            Some(Err(e)) => Some((at + 1, Err(Error::Transport(e)))),
            Some(Ok(word)) => if bit(word, index) {
                Some((at + 1, Ok(())))
            } else {
                poll(t, at + 1, index, (budget - 1) as nat)
            },
        }
    }
}

/// Waiting for a core register transfer: up to 100 reads of DHCSR, until
/// S_REGRDY is set.
pub open spec fn wait_for_core_register_transfer(t: Seq<Access>, at: int) -> Outcome<()> {
    poll(t, at, S_REGRDY_BIT, POLL_LIMIT as nat)
}

/// Waiting for the core to halt: up to 100 reads of DHCSR, until S_HALT is
/// set.
pub open spec fn wait_for_core_halted(t: Seq<Access>, at: int) -> Outcome<()> {
    poll(t, at, S_HALT_BIT, POLL_LIMIT as nat)
}

/// One read of DHCSR, reporting S_HALT.
pub open spec fn core_halted(t: Seq<Access>, at: int) -> Outcome<bool> {
    match read(t, at, DHCSR) {
        None => None,
        Some((end, Err(e))) => Some((end, Err(e))),
        Some((end, Ok(word))) => Some((end, Ok(bit(word, S_HALT_BIT)))),
    }
}

/// Reading a core register: DCRSR is written with the selector and REGWNR
/// clear, S_REGRDY is waited for, and DCRDR is read. The value read is the
/// result.
pub open spec fn read_core_reg(t: Seq<Access>, at: int, selector: u8) -> Outcome<u32> {
    match write(t, at, DCRSR, dcrsr_word(selector, false)) {
        None => None,
        Some((end, Err(e))) => Some((end, Err(e))),
        Some((selected, Ok(_))) => match wait_for_core_register_transfer(t, selected) {
            None => None,
            Some((end, Err(e))) => Some((end, Err(e))),
            Some((ready, Ok(_))) => read(t, ready, DCRDR),
        },
    }
}

/// Writing a core register: DCRDR is written with the value, DCRSR with the
/// selector and REGWNR set, and S_REGRDY is waited for.
pub open spec fn write_core_reg(t: Seq<Access>, at: int, selector: u8, value: u32) -> Outcome<
    (),
> {
    match write(t, at, DCRDR, value) {
        None => None,
        Some((end, Err(e))) => Some((end, Err(e))),
        Some((loaded, Ok(_))) => match write(t, loaded, DCRSR, dcrsr_word(selector, true)) {
            None => None,
            Some((end, Err(e))) => Some((end, Err(e))),
            Some((selected, Ok(_))) => wait_for_core_register_transfer(t, selected),
        },
    }
}

/// After a DHCSR write: the core is waited for, then the program counter is
/// read and returned.
pub open spec fn halted_pc(t: Seq<Access>, at: int) -> Outcome<u32> {
    match wait_for_core_halted(t, at) {
        None => None,
        Some((end, Err(e))) => Some((end, Err(e))),
        Some((halted, Ok(_))) => read_core_reg(t, halted, PC_SELECTOR),
    }
}

/// Halting: one write of DHCSR with key, C_HALT and C_DEBUGEN; then the
/// core is waited for and the program counter read.
pub open spec fn halt(t: Seq<Access>, at: int) -> Outcome<u32> {
    match write(t, at, DHCSR, DHCSR_HALT) {
        None => None,
        Some((end, Err(e))) => Some((end, Err(e))),
        Some((written, Ok(_))) => halted_pc(t, written),
    }
}

/// Running: one write of DHCSR with key and C_DEBUGEN, C_HALT clear.
pub open spec fn run(t: Seq<Access>, at: int) -> Outcome<()> {
    write(t, at, DHCSR, DHCSR_RUN)
}

/// Stepping: one write of DHCSR with key, C_STEP, C_MASKINTS and
/// C_DEBUGEN, C_HALT clear; then the core is waited for and the program
/// counter read.
pub open spec fn step(t: Seq<Access>, at: int) -> Outcome<u32> {
    match write(t, at, DHCSR, DHCSR_STEP) {
        None => None,
        Some((end, Err(e))) => Some((end, Err(e))),
        Some((written, Ok(_))) => halted_pc(t, written),
    }
}

/// Resetting: one write of AIRCR with VECTKEY and SYSRESETREQ.
pub open spec fn reset(t: Seq<Access>, at: int) -> Outcome<()> {
    write(t, at, AIRCR, AIRCR_RESET)
}

/// The last part of a reset-and-halt: DEMCR gets back the word `demcr` that
/// was found in it, and the program counter is read.
pub open spec fn restore_and_report(t: Seq<Access>, at: int, demcr: u32) -> Outcome<u32> {
    match write(t, at, DEMCR, demcr) {
        None => None,
        Some((end, Err(e))) => Some((end, Err(e))),
        Some((restored, Ok(_))) => read_core_reg(t, restored, PC_SELECTOR),
    }
}

/// The part of a reset-and-halt that follows the halt: XPSR is read, and
/// written back with the Thumb bit set where it was clear; then DEMCR is
/// restored.
pub open spec fn keep_thumb(t: Seq<Access>, at: int, demcr: u32) -> Outcome<u32> {
    match read_core_reg(t, at, XPSR_SELECTOR) {
        None => None,
        Some((end, Err(e))) => Some((end, Err(e))),
        Some((known, Ok(xpsr))) => if bit(xpsr, THUMB_BIT) {
            restore_and_report(t, known, demcr)
        } else {
            match write_core_reg(t, known, XPSR_SELECTOR, xpsr | XPSR_THUMB) {
                None => None,
                Some((end, Err(e))) => Some((end, Err(e))),
                Some((fixed, Ok(_))) => restore_and_report(t, fixed, demcr),
            }
        },
    }
}

/// The part of a reset-and-halt that follows the setting of the reset
/// catch: the reset is requested and the halt waited for.
pub open spec fn reset_into_halt(t: Seq<Access>, at: int, demcr: u32) -> Outcome<u32> {
    match reset(t, at) {
        None => None,
        Some((end, Err(e))) => Some((end, Err(e))),
        Some((requested, Ok(_))) => match wait_for_core_halted(t, requested) {
            None => None,
            Some((end, Err(e))) => Some((end, Err(e))),
            Some((halted, Ok(_))) => keep_thumb(t, halted, demcr),
        },
    }
}

/// The part of a reset-and-halt that follows the enabling of debug: DEMCR
/// is read, and written with VC_CORERESET set where it was clear.
pub open spec fn catch_reset(t: Seq<Access>, at: int) -> Outcome<u32> {
    match read(t, at, DEMCR) {
        None => None,
        Some((end, Err(e))) => Some((end, Err(e))),
        Some((known, Ok(demcr))) => if bit(demcr, 0) {
            reset_into_halt(t, known, demcr)
        } else {
            match write(t, known, DEMCR, demcr | 1) {
                None => None,
                Some((end, Err(e))) => Some((end, Err(e))),
                Some((armed, Ok(_))) => reset_into_halt(t, armed, demcr),
            }
        },
    }
}

/// Resetting and halting, in this order: DHCSR is read, and written with
/// key and C_DEBUGEN where C_DEBUGEN was clear; DEMCR is read, and written
/// with VC_CORERESET set where it was clear; the reset is requested; the
/// halt is waited for; XPSR is read, and written with the Thumb bit set
/// where it was clear; DEMCR is written with the word first read from it;
/// the program counter is read and returned.
pub open spec fn reset_and_halt(t: Seq<Access>, at: int) -> Outcome<u32> {
    match read(t, at, DHCSR) {
        None => None,
        Some((end, Err(e))) => Some((end, Err(e))),
        Some((known, Ok(dhcsr))) => if bit(dhcsr, 0) {
            catch_reset(t, known)
        } else {
            match write(t, known, DHCSR, DHCSR_DEBUGEN) {
                None => None,
                Some((end, Err(e))) => Some((end, Err(e))),
                Some((enabled, Ok(_))) => catch_reset(t, enabled),
            }
        },
    }
}

/// Counting the breakpoint units: FP_CTRL is read; NUM_CODE is the result
/// where REV is 0, and the revision is refused otherwise.
pub open spec fn get_available_breakpoint_units(t: Seq<Access>, at: int) -> Outcome<u32> {
    match read(t, at, FP_CTRL) {
        None => None,
        Some((end, Err(e))) => Some((end, Err(e))),
        Some((end, Ok(word))) => if field(word, 31, 28) == 0 {
            Some((end, Ok(num_code_of(word))))
        } else {
            Some((end, Err(Error::UnsupportedRevision)))
        },
    }
}

/// Switching the breakpoint unit: one write of FP_CTRL with KEY, and ENABLE
/// as `state` says.
pub open spec fn enable_breakpoints(t: Seq<Access>, at: int, state: bool) -> Outcome<()> {
    write(t, at, FP_CTRL, fp_ctrl_word(state))
}

/// Setting comparator `index` to break at `address`: one write.
pub open spec fn set_breakpoint(t: Seq<Access>, at: int, index: int, address: u32) -> Outcome<
    (),
> {
    write(t, at, comparator_address(index) as u32, breakpoint_word(address))
}

/// Clearing comparator `index`: one write of zero.
pub open spec fn clear_breakpoint(t: Seq<Access>, at: int, index: int) -> Outcome<()> {
    write(t, at, comparator_address(index) as u32, 0)
}

/// The most breakpoint units that a core can have: NUM_CODE is seven bits
/// wide.
pub const MAX_UNITS: u32 = 127;

/// The part of an engine that its breakpoint operations change.
pub struct Units {
    /// Whether the breakpoint unit has been switched by the engine.
    pub enabled: bool,
    /// The breakpoints that are set.
    pub breakpoints: Seq<Breakpoint>,
}

/// Where an operation ended, what it left of the breakpoints, and what it
/// returned.
pub type Change<T> = Option<(int, Units, Result<T, Error>)>;

/// Whether a breakpoint of `breakpoints` is held by comparator `unit`.
pub open spec fn used(breakpoints: Seq<Breakpoint>, unit: int) -> bool {
    exists|i: int| 0 <= i < breakpoints.len() && #[trigger] breakpoints[i].register_hw == unit
}

/// The lowest comparator from `unit` on that holds no breakpoint, looking no
/// further than as many comparators as there are breakpoints.
pub open spec fn first_free_from(breakpoints: Seq<Breakpoint>, unit: nat) -> nat
    decreases breakpoints.len() - unit,
{
    if unit < breakpoints.len() && used(breakpoints, unit as int) {
        first_free_from(breakpoints, unit + 1)
    } else {
        unit
    }
}

/// The lowest comparator that holds no breakpoint.
pub open spec fn first_free(breakpoints: Seq<Breakpoint>) -> nat {
    first_free_from(breakpoints, 0)
}

/// The position from `from` on of the first breakpoint at `address`, or the
/// number of breakpoints where there is none.
pub open spec fn position_from(breakpoints: Seq<Breakpoint>, address: u32, from: nat) -> nat
    decreases breakpoints.len() - from,
{
    if from < breakpoints.len() && breakpoints[from as int].address != address {
        position_from(breakpoints, address, from + 1)
    } else {
        from
    }
}

/// The position of the first breakpoint at `address`, or the number of
/// breakpoints where there is none.
pub open spec fn position(breakpoints: Seq<Breakpoint>, address: u32) -> nat {
    position_from(breakpoints, address, 0)
}

/// No two breakpoints share a comparator, and every comparator in use is
/// one that a core can have.
pub open spec fn well_formed(breakpoints: Seq<Breakpoint>) -> bool {
    &&& forall|i: int, j: int|
        0 <= i < j < breakpoints.len() ==> #[trigger] breakpoints[i].register_hw
            != #[trigger] breakpoints[j].register_hw
    &&& forall|i: int|
        0 <= i < breakpoints.len() ==> #[trigger] breakpoints[i].register_hw < MAX_UNITS
}

/// The second part of setting a breakpoint: the lowest free comparator is
/// written, and the breakpoint is added behind those that are set.
pub open spec fn place_breakpoint(t: Seq<Access>, at: int, units: Units, address: u32) -> Change<
    (),
> {
    let unit = first_free(units.breakpoints);
    match set_breakpoint(t, at, unit as int, address) {
        None => None,
        Some((end, Err(e))) => Some((end, units, Err(e))),
        Some((end, Ok(_))) => Some(
            (
                end,
                Units {
                    enabled: units.enabled,
                    breakpoints: units.breakpoints.push(
                        Breakpoint { address, register_hw: unit as usize },
                    ),
                },
                Ok(()),
            ),
        ),
    }
}

/// Setting a hardware breakpoint at `address`: the units are counted, and
/// the breakpoint is refused where as many are set as the core has units;
/// the breakpoint unit is switched on where the engine has not switched it
/// yet; then the lowest free comparator is written.
pub open spec fn set_hw_breakpoint(t: Seq<Access>, at: int, units: Units, address: u32) -> Change<
    (),
> {
    match get_available_breakpoint_units(t, at) {
        None => None,
        Some((end, Err(e))) => Some((end, units, Err(e))),
        Some((counted, Ok(count))) => if count <= units.breakpoints.len() {
            Some((counted, units, Err(Error::BreakpointUnitsExhausted)))
        } else if units.enabled {
            place_breakpoint(t, counted, units, address)
        } else {
            match enable_breakpoints(t, counted, true) {
                None => None,
                Some((end, Err(e))) => Some((end, units, Err(e))),
                Some((switched, Ok(_))) => place_breakpoint(
                    t,
                    switched,
                    Units { enabled: true, breakpoints: units.breakpoints },
                    address,
                ),
            }
        },
    }
}

/// Clearing the hardware breakpoint at `address`: where none is set there
/// nothing is written; else the comparator of the first one is cleared and
/// the breakpoint leaves the collection, the others keeping their order.
pub open spec fn clear_hw_breakpoint(t: Seq<Access>, at: int, units: Units, address: u32)
    -> Change<()> {
    let found = position(units.breakpoints, address) as int;
    if found >= units.breakpoints.len() {
        Some((at, units, Err(Error::BreakpointNotFound)))
    } else {
        match clear_breakpoint(t, at, units.breakpoints[found].register_hw as int) {
            None => None,
            Some((end, Err(e))) => Some((end, units, Err(e))),
            Some((end, Ok(_))) => Some(
                (
                    end,
                    Units { enabled: units.enabled, breakpoints: units.breakpoints.remove(found) },
                    Ok(()),
                ),
            ),
        }
    }
}

/// With every comparator below `unit` in use, the search for a free one may
/// start at `unit`.
pub proof fn lemma_first_free_skips(breakpoints: Seq<Breakpoint>, unit: nat)
    requires
        unit <= breakpoints.len(),
        forall|k: int| 0 <= k < unit ==> used(breakpoints, k),
    ensures
        first_free(breakpoints) == first_free_from(breakpoints, unit),
    decreases unit,
{
    if unit > 0 {
        lemma_first_free_skips(breakpoints, (unit - 1) as nat);
        assert(used(breakpoints, unit - 1));
    }
}

/// With no breakpoint at `address` before `from`, the search for one may
/// start at `from`.
pub proof fn lemma_position_skips(breakpoints: Seq<Breakpoint>, address: u32, from: nat)
    requires
        from <= breakpoints.len(),
        forall|k: int| 0 <= k < from ==> breakpoints[k].address != address,
    ensures
        position(breakpoints, address) == position_from(breakpoints, address, from),
    decreases from,
{
    if from > 0 {
        lemma_position_skips(breakpoints, address, (from - 1) as nat);
    }
}

/// Breakpoints that share no comparator and between them use every
/// comparator below their number use no other.
pub proof fn lemma_all_used_is_full(breakpoints: Seq<Breakpoint>)
    requires
        well_formed(breakpoints),
        forall|k: int| 0 <= k < breakpoints.len() ==> used(breakpoints, k),
    ensures
        !used(breakpoints, breakpoints.len() as int),
{
    let n = breakpoints.len() as int;
    let units = Seq::new(breakpoints.len(), |i: int| breakpoints[i].register_hw as int);
    assert(units.no_duplicates());
    units.unique_seq_to_set();
    lemma_int_range(0, n);
    assert(set_int_range(0, n).subset_of(units.to_set())) by {
        assert forall|k: int| set_int_range(0, n).contains(k) implies units.to_set().contains(
            k,
        ) by {
            assert(used(breakpoints, k));
            let i = choose|i: int|
                0 <= i < breakpoints.len() && #[trigger] breakpoints[i].register_hw == k;
            assert(units[i] == k);
        }
    }
    units.lemma_cardinality_of_set();
    lemma_subset_equality(set_int_range(0, n), units.to_set());
    if used(breakpoints, n) {
        let i = choose|i: int|
            0 <= i < breakpoints.len() && #[trigger] breakpoints[i].register_hw == n;
        assert(units[i] == n);
        assert(units.to_set().contains(n));
        assert(set_int_range(0, n).contains(n));
    }
}

/// The lowest free comparator of well-formed breakpoints holds no
/// breakpoint, every comparator below it holds one, and there are at least
/// as many breakpoints as comparators below it.
pub proof fn lemma_first_free_is_free(breakpoints: Seq<Breakpoint>)
    requires
        well_formed(breakpoints),
    ensures
        !used(breakpoints, first_free(breakpoints) as int),
        forall|k: int| 0 <= k < first_free(breakpoints) ==> used(breakpoints, k),
        first_free(breakpoints) <= breakpoints.len(),
{
    lemma_first_free_from(breakpoints, 0);
}

/// The search for a free comparator that starts at `unit`, with every
/// comparator below `unit` in use, ends at a free one.
proof fn lemma_first_free_from(breakpoints: Seq<Breakpoint>, unit: nat)
    requires
        well_formed(breakpoints),
        unit <= breakpoints.len(),
        forall|k: int| 0 <= k < unit ==> used(breakpoints, k),
    ensures
        !used(breakpoints, first_free_from(breakpoints, unit) as int),
        forall|k: int| 0 <= k < first_free_from(breakpoints, unit) ==> used(breakpoints, k),
        first_free_from(breakpoints, unit) <= breakpoints.len(),
    decreases breakpoints.len() - unit,
{
    if unit < breakpoints.len() && used(breakpoints, unit as int) {
        lemma_first_free_from(breakpoints, unit + 1);
    } else if unit == breakpoints.len() {
        lemma_all_used_is_full(breakpoints);
    }
}

/// A breakpoint in a free comparator that a core can have leaves the
/// breakpoints well-formed.
pub proof fn lemma_push_keeps_well_formed(breakpoints: Seq<Breakpoint>, added: Breakpoint)
    requires
        well_formed(breakpoints),
        !used(breakpoints, added.register_hw as int),
        added.register_hw < MAX_UNITS,
    ensures
        well_formed(breakpoints.push(added)),
{
    let after = breakpoints.push(added);
    assert forall|i: int, j: int| 0 <= i < j < after.len() implies #[trigger] after[i].register_hw
        != #[trigger] after[j].register_hw by {
        if j == breakpoints.len() {
            assert(breakpoints[i].register_hw == after[i].register_hw);
        } else {
            assert(breakpoints[i].register_hw == after[i].register_hw);
            assert(breakpoints[j].register_hw == after[j].register_hw);
        }
    }
    assert forall|i: int| 0 <= i < after.len() implies #[trigger] after[i].register_hw
        < MAX_UNITS by {
        if i < breakpoints.len() {
            assert(breakpoints[i].register_hw == after[i].register_hw);
        }
    }
}

/// Well-formed breakpoints stay well-formed when one of them leaves.
pub proof fn lemma_remove_keeps_well_formed(breakpoints: Seq<Breakpoint>, at: int)
    requires
        well_formed(breakpoints),
        0 <= at < breakpoints.len(),
    ensures
        well_formed(breakpoints.remove(at)),
{
    let after = breakpoints.remove(at);
    assert forall|i: int| 0 <= i < after.len() implies #[trigger] after[i].register_hw
        < MAX_UNITS && after[i] == breakpoints[if i < at {
        i
    } else {
        i + 1
    }] by {
        if i < at {
            assert(breakpoints[i].register_hw < MAX_UNITS);
        } else {
            assert(breakpoints[i + 1].register_hw < MAX_UNITS);
        }
    }
    assert forall|i: int, j: int| 0 <= i < j < after.len() implies #[trigger] after[i].register_hw
        != #[trigger] after[j].register_hw by {
        let oi = if i < at {
            i
        } else {
            i + 1
        };
        let oj = if j < at {
            j
        } else {
            j + 1
        };
        assert(breakpoints[oi].register_hw != breakpoints[oj].register_hw);
    }
}

/// How many breakpoint units the core had when they were counted at `at`.
pub open spec fn counted_units(t: Seq<Access>, at: int) -> int {
    match get_available_breakpoint_units(t, at) {
        Some((_, Ok(count))) => count as int,
        _ => 0,
    }
}

/// A breakpoint that is set takes the lowest free comparator and comes
/// last; with it there are no more breakpoints than the core has units,
/// and they are well-formed as before. A breakpoint that is not set
/// leaves the breakpoints as they were.
pub proof fn lemma_set_hw_breakpoint_within_units(
    t: Seq<Access>,
    at: int,
    units: Units,
    address: u32,
)
    requires
        well_formed(units.breakpoints),
        set_hw_breakpoint(t, at, units, address) is Some,
    ensures
        ({
            let after = set_hw_breakpoint(t, at, units, address).unwrap().1;
            let result = set_hw_breakpoint(t, at, units, address).unwrap().2;
            &&& well_formed(after.breakpoints)
            &&& result is Err ==> after.breakpoints == units.breakpoints
            &&& result is Ok ==> after.enabled && after.breakpoints == units.breakpoints.push(
                Breakpoint { address, register_hw: first_free(units.breakpoints) as usize },
            ) && after.breakpoints.len() <= counted_units(t, at) <= MAX_UNITS
        }),
{
    lemma_first_free_is_free(units.breakpoints);
    match get_available_breakpoint_units(t, at) {
        Some((counted, Ok(count))) => {
            crate::registers::lemma_num_code(result_of(read(t, at, FP_CTRL))->Ok_0);
            if count > units.breakpoints.len() {
                lemma_push_keeps_well_formed(
                    units.breakpoints,
                    Breakpoint { address, register_hw: first_free(units.breakpoints) as usize },
                );
            }
        },
        _ => {},
    }
}

/// Clearing a breakpoint takes the first one at the address out of the
/// collection and leaves the others in their order, well-formed as
/// before. A breakpoint that is not cleared stays.
pub proof fn lemma_clear_hw_breakpoint_keeps_order(
    t: Seq<Access>,
    at: int,
    units: Units,
    address: u32,
)
    requires
        well_formed(units.breakpoints),
        clear_hw_breakpoint(t, at, units, address) is Some,
    ensures
        ({
            let after = clear_hw_breakpoint(t, at, units, address).unwrap().1;
            let result = clear_hw_breakpoint(t, at, units, address).unwrap().2;
            let found = position(units.breakpoints, address) as int;
            &&& well_formed(after.breakpoints)
            &&& after.enabled == units.enabled
            &&& result is Err ==> after.breakpoints == units.breakpoints
            &&& result is Ok ==> found < units.breakpoints.len() && units.breakpoints[found].address
                == address && after.breakpoints == units.breakpoints.remove(found)
        }),
{
    let found = position(units.breakpoints, address) as int;
    lemma_position_finds(units.breakpoints, address, 0);
    if found < units.breakpoints.len() {
        lemma_remove_keeps_well_formed(units.breakpoints, found);
    }
}

/// The search for a breakpoint at `address` ends at one, or behind the
/// last breakpoint.
pub proof fn lemma_position_finds(breakpoints: Seq<Breakpoint>, address: u32, from: nat)
    requires
        from <= breakpoints.len(),
    ensures
        from <= position_from(breakpoints, address, from) <= breakpoints.len(),
        position_from(breakpoints, address, from) < breakpoints.len() ==> breakpoints[position_from(
            breakpoints,
            address,
            from,
        ) as int].address == address,
        forall|k: int|
            from <= k < position_from(breakpoints, address, from) ==> breakpoints[k].address
                != address,
    decreases breakpoints.len() - from,
{
    if from < breakpoints.len() && breakpoints[from as int].address != address {
        lemma_position_finds(breakpoints, address, from + 1);
    }
}

/// Whether the access at `at` is a read of DHCSR that succeeded and found
/// bit `index` clear: a poll that goes on.
pub open spec fn pending(t: Seq<Access>, at: int, index: u32) -> bool {
    match read_at(t, at, DHCSR) {
        Some(Ok(word)) => !bit(word, index),
        _ => false,
    }
}

/// Whether the access at `at` is a read of DHCSR that succeeded and found
/// bit `index` set: the read that ends a poll well.
pub open spec fn settled(t: Seq<Access>, at: int, index: u32) -> bool {
    match read_at(t, at, DHCSR) {
        Some(Ok(word)) => bit(word, index),
        _ => false,
    }
}

/// A record that continues `t` holds at each position of `t` what `t` holds.
pub proof fn lemma_prefix_index(t: Seq<Access>, longer: Seq<Access>, at: int)
    requires
        t.is_prefix_of(longer),
        0 <= at < t.len(),
    ensures
        at < longer.len(),
        longer[at] == t[at],
{
    assert(longer.subrange(0, t.len() as int)[at] == longer[at]);
}

/// A read or a write that `t` holds at `at` is held there by every record
/// that continues `t`.
pub proof fn lemma_access_extends(t: Seq<Access>, longer: Seq<Access>, at: int)
    requires
        t.is_prefix_of(longer),
    ensures
        forall|address: u32| #[trigger]
            read_at(t, at, address).is_some() ==> read_at(longer, at, address) == read_at(
                t,
                at,
                address,
            ),
        forall|address: u32, value: u32| #[trigger]
            write_at(t, at, address, value).is_some() ==> write_at(longer, at, address, value)
                == write_at(t, at, address, value),
{
    if 0 <= at < t.len() {
        lemma_prefix_index(t, longer, at);
    }
}

/// The reads and writes that `t` holds at the positions `from..to` are
/// held there by every record that continues `t`.
pub proof fn lemma_accesses_extend(t: Seq<Access>, longer: Seq<Access>, from: int, to: int)
    requires
        t.is_prefix_of(longer),
    ensures
        forall|at: int, address: u32|
            from <= at < to && (#[trigger] read_at(t, at, address)).is_some() ==> read_at(
                longer,
                at,
                address,
            ) == read_at(t, at, address),
        forall|at: int, address: u32, value: u32|
            from <= at < to && (#[trigger] write_at(t, at, address, value)).is_some() ==> write_at(
                longer,
                at,
                address,
                value,
            ) == write_at(t, at, address, value),
{
    assert forall|at: int, address: u32|
        from <= at < to && (#[trigger] read_at(t, at, address)).is_some() implies read_at(
        longer,
        at,
        address,
    ) == read_at(t, at, address) by {
        lemma_access_extends(t, longer, at);
    }
    assert forall|at: int, address: u32, value: u32|
        from <= at < to && (#[trigger] write_at(t, at, address, value)).is_some() implies write_at(
        longer,
        at,
        address,
        value,
    ) == write_at(t, at, address, value) by {
        lemma_access_extends(t, longer, at);
    }
}

/// `k` polls that go on use up `k` of the budget and change nothing else.
pub proof fn lemma_poll_skips(t: Seq<Access>, at: int, index: u32, budget: nat, k: nat)
    requires
        k <= budget,
        forall|j: int| at <= j < at + k ==> pending(t, j, index),
    ensures
        poll(t, at, index, budget) == poll(t, at + k, index, (budget - k) as nat),
    decreases k,
{
    if k > 0 {
        assert(pending(t, at, index));
        lemma_poll_skips(t, at + 1, index, (budget - 1) as nat, (k - 1) as nat);
    }
}

/// A poll that `t` holds at `at` is held there, with the same end and
/// result, by every record that continues `t`.
pub proof fn lemma_poll_extends(
    t: Seq<Access>,
    longer: Seq<Access>,
    at: int,
    index: u32,
    budget: nat,
)
    requires
        t.is_prefix_of(longer),
        poll(t, at, index, budget).is_some(),
    ensures
        poll(longer, at, index, budget) == poll(t, at, index, budget),
    decreases budget,
{
    if budget > 0 {
        lemma_access_extends(t, longer, at);
        match read_at(t, at, DHCSR) {
            Some(Ok(word)) => {
                if !bit(word, index) {
                    lemma_poll_extends(t, longer, at + 1, index, (budget - 1) as nat);
                }
            },
            _ => {},
        }
    }
}

/// The setting of a breakpoint that `t` holds at `at` is held there by
/// every record that continues `t`.
pub proof fn lemma_set_hw_breakpoint_extends(
    t: Seq<Access>,
    longer: Seq<Access>,
    at: int,
    units: Units,
    address: u32,
)
    requires
        t.is_prefix_of(longer),
        set_hw_breakpoint(t, at, units, address).is_some(),
    ensures
        set_hw_breakpoint(longer, at, units, address) == set_hw_breakpoint(t, at, units, address),
{
    lemma_access_extends(t, longer, at);
    lemma_access_extends(t, longer, at + 1);
    lemma_access_extends(t, longer, at + 2);
}

/// The clearing of a breakpoint that `t` holds at `at` is held there by
/// every record that continues `t`.
pub proof fn lemma_clear_hw_breakpoint_extends(
    t: Seq<Access>,
    longer: Seq<Access>,
    at: int,
    units: Units,
    address: u32,
)
    requires
        t.is_prefix_of(longer),
        clear_hw_breakpoint(t, at, units, address).is_some(),
    ensures
        clear_hw_breakpoint(longer, at, units, address) == clear_hw_breakpoint(
            t,
            at,
            units,
            address,
        ),
{
    lemma_access_extends(t, longer, at);
}

/// A core register read that `t` holds at `at` is held there by every
/// record that continues `t`.
pub proof fn lemma_read_core_reg_extends(t: Seq<Access>, longer: Seq<Access>, at: int, selector: u8)
    requires
        t.is_prefix_of(longer),
        read_core_reg(t, at, selector).is_some(),
    ensures
        read_core_reg(longer, at, selector) == read_core_reg(t, at, selector),
{
    lemma_access_extends(t, longer, at);
    match write(t, at, DCRSR, dcrsr_word(selector, false)) {
        Some((selected, Ok(_))) => {
            lemma_poll_extends(t, longer, selected, S_REGRDY_BIT, POLL_LIMIT as nat);
            match wait_for_core_register_transfer(t, selected) {
                Some((ready, Ok(_))) => {
                    lemma_access_extends(t, longer, ready);
                },
                _ => {},
            }
        },
        _ => {},
    }
}

/// A core register write that `t` holds at `at` is held there by every
/// record that continues `t`.
pub proof fn lemma_write_core_reg_extends(
    t: Seq<Access>,
    longer: Seq<Access>,
    at: int,
    selector: u8,
    value: u32,
)
    requires
        t.is_prefix_of(longer),
        write_core_reg(t, at, selector, value).is_some(),
    ensures
        write_core_reg(longer, at, selector, value) == write_core_reg(t, at, selector, value),
{
    lemma_access_extends(t, longer, at);
    lemma_access_extends(t, longer, at + 1);
    match write(t, at, DCRDR, value) {
        Some((loaded, Ok(_))) => {
            match write(t, loaded, DCRSR, dcrsr_word(selector, true)) {
                Some((selected, Ok(_))) => {
                    lemma_poll_extends(t, longer, selected, S_REGRDY_BIT, POLL_LIMIT as nat);
                },
                _ => {},
            }
        },
        _ => {},
    }
}

/// A wait for the halt followed by a read of the program counter that `t`
/// holds at `at` is held there by every record that continues `t`.
pub proof fn lemma_halted_pc_extends(t: Seq<Access>, longer: Seq<Access>, at: int)
    requires
        t.is_prefix_of(longer),
        halted_pc(t, at).is_some(),
    ensures
        halted_pc(longer, at) == halted_pc(t, at),
{
    lemma_poll_extends(t, longer, at, S_HALT_BIT, POLL_LIMIT as nat);
    match wait_for_core_halted(t, at) {
        Some((halted, Ok(_))) => {
            lemma_read_core_reg_extends(t, longer, halted, PC_SELECTOR);
        },
        _ => {},
    }
}

/// A halt that `t` holds at `at` is held there by every record that
/// continues `t`.
pub proof fn lemma_halt_extends(t: Seq<Access>, longer: Seq<Access>, at: int)
    requires
        t.is_prefix_of(longer),
        halt(t, at).is_some(),
    ensures
        halt(longer, at) == halt(t, at),
{
    lemma_access_extends(t, longer, at);
    match write(t, at, DHCSR, DHCSR_HALT) {
        Some((written, Ok(_))) => {
            lemma_halted_pc_extends(t, longer, written);
        },
        _ => {},
    }
}

/// A step that `t` holds at `at` is held there by every record that
/// continues `t`.
pub proof fn lemma_step_extends(t: Seq<Access>, longer: Seq<Access>, at: int)
    requires
        t.is_prefix_of(longer),
        step(t, at).is_some(),
    ensures
        step(longer, at) == step(t, at),
{
    lemma_access_extends(t, longer, at);
    match write(t, at, DHCSR, DHCSR_STEP) {
        Some((written, Ok(_))) => {
            lemma_halted_pc_extends(t, longer, written);
        },
        _ => {},
    }
}

/// The end of a reset-and-halt that `t` holds at `at` is held there by
/// every record that continues `t`.
pub proof fn lemma_restore_and_report_extends(
    t: Seq<Access>,
    longer: Seq<Access>,
    at: int,
    demcr: u32,
)
    requires
        t.is_prefix_of(longer),
        restore_and_report(t, at, demcr).is_some(),
    ensures
        restore_and_report(longer, at, demcr) == restore_and_report(t, at, demcr),
{
    lemma_access_extends(t, longer, at);
    match write(t, at, DEMCR, demcr) {
        Some((restored, Ok(_))) => {
            lemma_read_core_reg_extends(t, longer, restored, PC_SELECTOR);
        },
        _ => {},
    }
}

/// The part of a reset-and-halt after the halt that `t` holds at `at` is
/// held there by every record that continues `t`.
pub proof fn lemma_keep_thumb_extends(t: Seq<Access>, longer: Seq<Access>, at: int, demcr: u32)
    requires
        t.is_prefix_of(longer),
        keep_thumb(t, at, demcr).is_some(),
    ensures
        keep_thumb(longer, at, demcr) == keep_thumb(t, at, demcr),
{
    lemma_read_core_reg_extends(t, longer, at, XPSR_SELECTOR);
    match read_core_reg(t, at, XPSR_SELECTOR) {
        Some((known, Ok(xpsr))) => {
            if bit(xpsr, THUMB_BIT) {
                lemma_restore_and_report_extends(t, longer, known, demcr);
            } else {
                lemma_write_core_reg_extends(t, longer, known, XPSR_SELECTOR, xpsr | XPSR_THUMB);
                match write_core_reg(t, known, XPSR_SELECTOR, xpsr | XPSR_THUMB) {
                    Some((fixed, Ok(_))) => {
                        lemma_restore_and_report_extends(t, longer, fixed, demcr);
                    },
                    _ => {},
                }
            }
        },
        _ => {},
    }
}

/// The part of a reset-and-halt from the reset on that `t` holds at `at`
/// is held there by every record that continues `t`.
pub proof fn lemma_reset_into_halt_extends(
    t: Seq<Access>,
    longer: Seq<Access>,
    at: int,
    demcr: u32,
)
    requires
        t.is_prefix_of(longer),
        reset_into_halt(t, at, demcr).is_some(),
    ensures
        reset_into_halt(longer, at, demcr) == reset_into_halt(t, at, demcr),
{
    lemma_access_extends(t, longer, at);
    match reset(t, at) {
        Some((requested, Ok(_))) => {
            lemma_poll_extends(t, longer, requested, S_HALT_BIT, POLL_LIMIT as nat);
            match wait_for_core_halted(t, requested) {
                Some((halted, Ok(_))) => {
                    lemma_keep_thumb_extends(t, longer, halted, demcr);
                },
                _ => {},
            }
        },
        _ => {},
    }
}

/// The part of a reset-and-halt from the read of DEMCR on that `t` holds
/// at `at` is held there by every record that continues `t`.
pub proof fn lemma_catch_reset_extends(t: Seq<Access>, longer: Seq<Access>, at: int)
    requires
        t.is_prefix_of(longer),
        catch_reset(t, at).is_some(),
    ensures
        catch_reset(longer, at) == catch_reset(t, at),
{
    lemma_access_extends(t, longer, at);
    lemma_access_extends(t, longer, at + 1);
    match read(t, at, DEMCR) {
        Some((known, Ok(demcr))) => {
            if bit(demcr, 0) {
                lemma_reset_into_halt_extends(t, longer, known, demcr);
            } else {
                match write(t, known, DEMCR, demcr | 1) {
                    Some((armed, Ok(_))) => {
                        lemma_reset_into_halt_extends(t, longer, armed, demcr);
                    },
                    _ => {},
                }
            }
        },
        _ => {},
    }
}

/// A reset-and-halt that `t` holds at `at` is held there by every record
/// that continues `t`.
pub proof fn lemma_reset_and_halt_extends(t: Seq<Access>, longer: Seq<Access>, at: int)
    requires
        t.is_prefix_of(longer),
        reset_and_halt(t, at).is_some(),
    ensures
        reset_and_halt(longer, at) == reset_and_halt(t, at),
{
    lemma_access_extends(t, longer, at);
    lemma_access_extends(t, longer, at + 1);
    match read(t, at, DHCSR) {
        Some((known, Ok(dhcsr))) => {
            if bit(dhcsr, 0) {
                lemma_catch_reset_extends(t, longer, known);
            } else {
                match write(t, known, DHCSR, DHCSR_DEBUGEN) {
                    Some((enabled, Ok(_))) => {
                        lemma_catch_reset_extends(t, longer, enabled);
                    },
                    _ => {},
                }
            }
        },
        _ => {},
    }
}

} // verus!
