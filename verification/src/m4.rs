//! The debug engine of a Cortex-M4 core: halting, running, stepping and
//! resetting the core, transferring core registers, and setting hardware
//! breakpoints, all through a [`Memory`].
use crate::bits::{bit, field, with_bit, with_field};
use crate::error::Error;
use crate::memory::{Access, Memory};
use crate::registers::{Aircr, Dcrdr, Dcrsr, Demcr, Dhcsr, FpCompX, FpCtrl};
use crate::trace;
use vstd::prelude::*;

verus! {

/// The selector of a core register, as DCRSR takes it in bits 6:0.
#[derive(Clone, Copy, Debug, PartialEq, Eq, Structural)]
pub struct CoreRegisterAddress(pub u8);

/// The selectors of the registers that every core of the family has.
#[allow(non_snake_case)]
#[derive(Clone, Copy, Debug)]
pub struct BasicRegisterAddresses {
    pub R0: CoreRegisterAddress,
    pub R1: CoreRegisterAddress,
    pub R2: CoreRegisterAddress,
    pub R3: CoreRegisterAddress,
    pub R4: CoreRegisterAddress,
    pub R5: CoreRegisterAddress,
    pub R6: CoreRegisterAddress,
    pub R7: CoreRegisterAddress,
    pub R8: CoreRegisterAddress,
    pub R9: CoreRegisterAddress,
    pub PC: CoreRegisterAddress,
    pub SP: CoreRegisterAddress,
    pub LR: CoreRegisterAddress,
    pub XPSR: CoreRegisterAddress,
}

/// The selectors of this core: R0 to R9 are 0 to 9, SP is 13, LR is 14, PC
/// is 15 and XPSR is 16.
pub open spec fn register_selectors() -> BasicRegisterAddresses {
    BasicRegisterAddresses {
        R0: CoreRegisterAddress(0b000_0000),
        R1: CoreRegisterAddress(0b000_0001),
        R2: CoreRegisterAddress(0b000_0010),
        R3: CoreRegisterAddress(0b000_0011),
        R4: CoreRegisterAddress(0b000_0100),
        R5: CoreRegisterAddress(0b000_0101),
        R6: CoreRegisterAddress(0b000_0110),
        R7: CoreRegisterAddress(0b000_0111),
        R8: CoreRegisterAddress(0b000_1000),
        R9: CoreRegisterAddress(0b000_1001),
        PC: CoreRegisterAddress(0b000_1111),
        SP: CoreRegisterAddress(0b000_1101),
        LR: CoreRegisterAddress(0b000_1110),
        XPSR: CoreRegisterAddress(0b001_0000),
    }
}

/// The selectors of this core.
pub fn registers() -> (r: BasicRegisterAddresses)
    ensures
        r == register_selectors(),
{
    BasicRegisterAddresses {
        R0: CoreRegisterAddress(0b000_0000),
        R1: CoreRegisterAddress(0b000_0001),
        R2: CoreRegisterAddress(0b000_0010),
        R3: CoreRegisterAddress(0b000_0011),
        R4: CoreRegisterAddress(0b000_0100),
        R5: CoreRegisterAddress(0b000_0101),
        R6: CoreRegisterAddress(0b000_0110),
        R7: CoreRegisterAddress(0b000_0111),
        R8: CoreRegisterAddress(0b000_1000),
        R9: CoreRegisterAddress(0b000_1001),
        PC: CoreRegisterAddress(0b000_1111),
        SP: CoreRegisterAddress(0b000_1101),
        LR: CoreRegisterAddress(0b000_1110),
        XPSR: CoreRegisterAddress(0b001_0000),
    }
}

/// The selector of the main stack pointer.
pub fn msp() -> (r: CoreRegisterAddress)
    ensures
        r == CoreRegisterAddress(0b000_1001),
{
    CoreRegisterAddress(0b000_1001)
}

/// The selector of the process stack pointer.
pub fn psp() -> (r: CoreRegisterAddress)
    ensures
        r == CoreRegisterAddress(0b000_1010),
{
    CoreRegisterAddress(0b000_1010)
}

/// What is known of a core that has just halted.
#[derive(Clone, Copy, Debug, PartialEq, Eq, Structural)]
pub struct CoreInformation {
    pub pc: u32,
}

/// A breakpoint that is set: where it breaks and which comparator holds it.
#[derive(Clone, Copy, Debug, PartialEq, Eq, Structural)]
pub struct Breakpoint {
    pub address: u32,
    pub register_hw: usize,
}

/// The result of an operation that reports the program counter.
pub open spec fn with_pc(r: Result<u32, Error>) -> Result<CoreInformation, Error> {
    match r {
        Ok(pc) => Ok(CoreInformation { pc }),
        Err(e) => Err(e),
    }
}

/// The debug engine, one for each core.
pub struct M4<M: Memory> {
    pub(crate) memory: M,
    pub(crate) hw_breakpoints_enabled: bool,
    pub(crate) active_breakpoints: Vec<Breakpoint>,
}

impl<M: Memory> M4<M> {
    /// The accesses made to the target so far, oldest first.
    pub closed spec fn history(&self) -> Seq<Access> {
        self.memory.history()
    }

    /// The number of accesses made to the target so far.
    pub open spec fn clock(&self) -> int {
        self.history().len() as int
    }

    /// Whether the breakpoint unit has been switched by this engine.
    pub closed spec fn enabled(&self) -> bool {
        self.hw_breakpoints_enabled
    }

    /// The breakpoints that are set, in the order in which they are kept.
    pub closed spec fn breakpoints(&self) -> Seq<Breakpoint> {
        self.active_breakpoints@
    }

    /// Whether `next` is this engine after more accesses, with the
    /// breakpoints and the switch as they are.
    pub open spec fn continued_by(&self, next: &Self) -> bool {
        &&& self.history().is_prefix_of(next.history())
        &&& next.enabled() == self.enabled()
        &&& next.breakpoints() == self.breakpoints()
    }

    /// An engine for the core behind `memory`, with no breakpoint set.
    pub fn new(memory: M) -> (core: Self)
        ensures
            core.history() == memory.history(),
            !core.enabled(),
            core.breakpoints() == Seq::<Breakpoint>::empty(),
    {
        Self { memory, hw_breakpoints_enabled: false, active_breakpoints: Vec::new() }
    }

    /// Reads DHCSR up to 100 times, until S_REGRDY is set.
    pub fn wait_for_core_register_transfer(&mut self) -> (r: Result<(), Error>)
        ensures
            old(self).continued_by(final(self)),
            trace::wait_for_core_register_transfer(final(self).history(), old(self).clock())
                == Some((final(self).clock(), r)),
    {
        let ghost start = self.clock();
        let mut polls: u32 = 0;
        while polls < 100
            invariant
                polls <= 100,
                old(self).continued_by(self),
                self.clock() == start + polls,
                start == old(self).clock(),
                forall|j: int|
                    start <= j < start + polls ==> trace::pending(
                        self.history(),
                        j,
                        trace::S_REGRDY_BIT,
                    ),
            decreases 100 - polls,
        {
            let ghost before = self.history();
            let dhcsr_val = match self.memory.read32(Dhcsr::ADDRESS) {
                Ok(word) => Dhcsr(word),
                Err(e) => {
                    proof {
                        lemma_polled(before, self.history(), start, trace::S_REGRDY_BIT, polls as nat);
                    }
                    return Err(Error::Transport(e));
                },
            };
            if dhcsr_val.s_regrdy() {
                proof {
                    lemma_polled(before, self.history(), start, trace::S_REGRDY_BIT, polls as nat);
                }
                return Ok(());
            }
            proof {
                lemma_polled(before, self.history(), start, trace::S_REGRDY_BIT, polls as nat);
            }
            polls += 1;
        }
        proof {
            trace::lemma_poll_skips(self.history(), start, trace::S_REGRDY_BIT, 100, 100);
        }
        Err(Error::Timeout)
    }

    /// Reads DHCSR up to 100 times, until S_HALT is set.
    pub fn wait_for_core_halted(&mut self) -> (r: Result<(), Error>)
        ensures
            old(self).continued_by(final(self)),
            trace::wait_for_core_halted(final(self).history(), old(self).clock()) == Some(
                (final(self).clock(), r),
            ),
    {
        let ghost start = self.clock();
        let mut polls: u32 = 0;
        while polls < 100
            invariant
                polls <= 100,
                old(self).continued_by(self),
                self.clock() == start + polls,
                start == old(self).clock(),
                forall|j: int|
                    start <= j < start + polls ==> trace::pending(
                        self.history(),
                        j,
                        trace::S_HALT_BIT,
                    ),
            decreases 100 - polls,
        {
            let ghost before = self.history();
            let dhcsr_val = match self.memory.read32(Dhcsr::ADDRESS) {
                Ok(word) => Dhcsr(word),
                Err(e) => {
                    proof {
                        lemma_polled(before, self.history(), start, trace::S_HALT_BIT, polls as nat);
                    }
                    return Err(Error::Transport(e));
                },
            };
            if dhcsr_val.s_halt() {
                proof {
                    lemma_polled(before, self.history(), start, trace::S_HALT_BIT, polls as nat);
                }
                return Ok(());
            }
            proof {
                lemma_polled(before, self.history(), start, trace::S_HALT_BIT, polls as nat);
            }
            polls += 1;
        }
        proof {
            trace::lemma_poll_skips(self.history(), start, trace::S_HALT_BIT, 100, 100);
        }
        Err(Error::Timeout)
    }

    /// Writes one word to the target.
    fn write_word(&mut self, address: u32, value: u32) -> (r: Result<(), Error>)
        ensures
            old(self).continued_by(final(self)),
            final(self).clock() == old(self).clock() + 1,
            trace::write(final(self).history(), old(self).clock(), address, value) == Some(
                (final(self).clock(), r),
            ),
    {
        match self.memory.write32(address, value) {
            Ok(()) => Ok(()),
            Err(e) => Err(Error::Transport(e)),
        }
    }

    /// Reads one word from the target.
    fn read_word(&mut self, address: u32) -> (r: Result<u32, Error>)
        ensures
            old(self).continued_by(final(self)),
            final(self).clock() == old(self).clock() + 1,
            trace::read(final(self).history(), old(self).clock(), address) == Some(
                (final(self).clock(), r),
            ),
    {
        match self.memory.read32(address) {
            Ok(word) => Ok(word),
            Err(e) => Err(Error::Transport(e)),
        }
    }

    /// Reads DHCSR once and says whether S_HALT is set.
    pub fn core_halted(&mut self) -> (r: Result<bool, Error>)
        ensures
            old(self).continued_by(final(self)),
            trace::core_halted(final(self).history(), old(self).clock()) == Some(
                (final(self).clock(), r),
            ),
    {
        let dhcsr_val = Dhcsr(self.read_word(Dhcsr::ADDRESS)?);

        if dhcsr_val.s_halt() {
            Ok(true)
        } else {
            Ok(false)
        }
    }

    /// Reads the core register `addr`: selects it in DCRSR for a read, waits
    /// for the transfer, and reads DCRDR.
    pub fn read_core_reg(&mut self, addr: CoreRegisterAddress) -> (r: Result<u32, Error>)
        ensures
            old(self).continued_by(final(self)),
            trace::read_core_reg(final(self).history(), old(self).clock(), addr.0) == Some(
                (final(self).clock(), r),
            ),
    {
        let ghost start = self.clock();
        // Write the DCRSR value to select the register we want to read.
        let mut dcrsr_val = Dcrsr(0);
        dcrsr_val.set_regwnr(false);  // Perform a read.
        dcrsr_val.set_regsel(addr.0 as u32);  // The register to read.
        proof {
            lemma_dcrsr_word(addr.0, false);
        }

        self.write_word(Dcrsr::ADDRESS, dcrsr_val.into())?;
        let ghost selected = self.history();

        let waited = self.wait_for_core_register_transfer();
        let ghost ready = self.history();
        proof {
            trace::lemma_access_extends(selected, ready, start);
        }
        waited?;

        let value = self.read_word(Dcrdr::ADDRESS);
        proof {
            trace::lemma_access_extends(selected, self.history(), start);
            trace::lemma_poll_extends(
                ready,
                self.history(),
                start + 1,
                trace::S_REGRDY_BIT,
                trace::POLL_LIMIT as nat,
            );
        }
        value
    }

    /// Writes `value` to the core register `addr`: loads DCRDR, selects the
    /// register in DCRSR for a write, and waits for the transfer.
    pub fn write_core_reg(&mut self, addr: CoreRegisterAddress, value: u32) -> (r: Result<
        (),
        Error,
    >)
        ensures
            old(self).continued_by(final(self)),
            trace::write_core_reg(final(self).history(), old(self).clock(), addr.0, value)
                == Some((final(self).clock(), r)),
    {
        let ghost start = self.clock();
        self.write_word(Dcrdr::ADDRESS, value)?;
        let ghost loaded = self.history();

        // write the DCRSR value to select the register we want to write.
        let mut dcrsr_val = Dcrsr(0);
        dcrsr_val.set_regwnr(true);  // Perform a write.
        dcrsr_val.set_regsel(addr.0 as u32);  // The register to write.
        proof {
            lemma_dcrsr_word(addr.0, true);
        }

        let selecting = self.write_word(Dcrsr::ADDRESS, dcrsr_val.into());
        let ghost selected = self.history();
        proof {
            trace::lemma_access_extends(loaded, selected, start);
        }
        selecting?;

        let waited = self.wait_for_core_register_transfer();
        proof {
            trace::lemma_access_extends(loaded, self.history(), start);
            trace::lemma_access_extends(selected, self.history(), start + 1);
        }
        waited
    }

    /// Waits for the core to halt and reads the program counter.
    fn report_halt(&mut self) -> (r: Result<CoreInformation, Error>)
        ensures
            old(self).continued_by(final(self)),
            match trace::halted_pc(final(self).history(), old(self).clock()) {
                Some((end, pc)) => end == final(self).clock() && r == with_pc(pc),
                None => false,
            },
    {
        let ghost start = self.clock();
        self.wait_for_core_halted()?;
        let ghost halted = self.history();

        // try to read the program counter
        let pc_value = self.read_core_reg(registers().PC);
        proof {
            trace::lemma_poll_extends(
                halted,
                self.history(),
                start,
                trace::S_HALT_BIT,
                trace::POLL_LIMIT as nat,
            );
        }

        // get pc
        Ok(CoreInformation { pc: pc_value? })
    }

    /// Halts the core: writes DHCSR once, with the debug key, C_HALT and
    /// C_DEBUGEN, waits for the halt, and reports the program counter.
    pub fn halt(&mut self) -> (r: Result<CoreInformation, Error>)
        ensures
            old(self).continued_by(final(self)),
            match trace::halt(final(self).history(), old(self).clock()) {
                Some((end, pc)) => end == final(self).clock() && r == with_pc(pc),
                None => false,
            },
    {
        let ghost start = self.clock();
        let mut value = Dhcsr(0);
        value.set_c_halt(true);
        value.set_c_debugen(true);
        value.enable_write();
        proof {
            lemma_command_words();
        }

        self.write_word(Dhcsr::ADDRESS, value.into())?;
        let ghost written = self.history();

        let report = self.report_halt();
        proof {
            trace::lemma_access_extends(written, self.history(), start);
        }
        report
    }

    /// Lets the core run: writes DHCSR once, with the debug key and
    /// C_DEBUGEN, and does not wait.
    pub fn run(&mut self) -> (r: Result<(), Error>)
        ensures
            old(self).continued_by(final(self)),
            trace::run(final(self).history(), old(self).clock()) == Some(
                (final(self).clock(), r),
            ),
    {
        let mut value = Dhcsr(0);
        value.set_c_halt(false);
        value.set_c_debugen(true);
        value.enable_write();
        proof {
            lemma_command_words();
        }

        self.write_word(Dhcsr::ADDRESS, value.into())
    }

    /// Steps one instruction: writes DHCSR once, with the debug key,
    /// C_STEP, C_MASKINTS and C_DEBUGEN, waits for the halt, and reports the
    /// program counter.
    pub fn step(&mut self) -> (r: Result<CoreInformation, Error>)
        ensures
            old(self).continued_by(final(self)),
            match trace::step(final(self).history(), old(self).clock()) {
                Some((end, pc)) => end == final(self).clock() && r == with_pc(pc),
                None => false,
            },
    {
        let ghost start = self.clock();
        let mut value = Dhcsr(0);
        // Leave halted state.
        // Step one instruction.
        value.set_c_step(true);
        value.set_c_halt(false);
        value.set_c_debugen(true);
        value.set_c_maskints(true);
        value.enable_write();
        proof {
            lemma_command_words();
        }

        self.write_word(Dhcsr::ADDRESS, value.into())?;
        let ghost written = self.history();

        let report = self.report_halt();
        proof {
            trace::lemma_access_extends(written, self.history(), start);
        }
        report
    }

    /// Requests a system reset: writes AIRCR once, with VECTKEY and
    /// SYSRESETREQ, and does not wait.
    pub fn reset(&mut self) -> (r: Result<(), Error>)
        ensures
            old(self).continued_by(final(self)),
            trace::reset(final(self).history(), old(self).clock()) == Some(
                (final(self).clock(), r),
            ),
    {
        // Set the AIRCR.SYSRESETREQ control bit to 1 to request a reset.
        let mut value = Aircr(0);
        value.vectkey();
        value.set_sysresetreq(true);
        proof {
            lemma_command_words();
        }

        self.write_word(Aircr::ADDRESS, value.into())?;

        Ok(())
    }

    /// Resets the core and halts it at the reset vector. Halting debug and
    /// the reset catch are enabled where they were not; after the halt the
    /// Thumb bit of XPSR is set where the reset left it clear; DEMCR gets
    /// back the word that was found in it; the program counter is reported.
    #[verifier::rlimit(50)]
    pub fn reset_and_halt(&mut self) -> (r: Result<CoreInformation, Error>)
        ensures
            old(self).continued_by(final(self)),
            match trace::reset_and_halt(final(self).history(), old(self).clock()) {
                Some((end, pc)) => end == final(self).clock() && r == with_pc(pc),
                None => false,
            },
    {
        let ghost start = self.clock();
        // Ensure debug mode is enabled
        let dhcsr_val = Dhcsr(self.read_word(Dhcsr::ADDRESS)?);
        let ghost probed = self.history();
        if !dhcsr_val.c_debugen() {
            let mut dhcsr = Dhcsr(0);
            dhcsr.set_c_debugen(true);
            dhcsr.enable_write();
            proof {
                lemma_command_words();
            }
            let enabling = self.write_word(Dhcsr::ADDRESS, dhcsr.into());
            proof {
                trace::lemma_access_extends(probed, self.history(), start);
            }
            enabling?;
        }
        let ghost enabled = self.history();
        let ghost at_demcr = self.clock();

        // Set the vc_corereset bit in the DEMCR register.
        // This will halt the core after reset.
        let demcr_read = self.read_word(Demcr::ADDRESS);
        proof {
            trace::lemma_accesses_extend(enabled, self.history(), start, at_demcr);
        }
        let demcr_val = Demcr(demcr_read?);
        let ghost known = self.history();
        if !demcr_val.vc_corereset() {
            let mut demcr_enabled = demcr_val;
            demcr_enabled.set_vc_corereset(true);
            proof {
                lemma_catch_word(demcr_val.0);
            }
            let arming = self.write_word(Demcr::ADDRESS, demcr_enabled.into());
            proof {
                trace::lemma_accesses_extend(known, self.history(), start, at_demcr + 1);
            }
            arming?;
        }
        let ghost armed = self.history();
        let ghost at_reset = self.clock();

        let resetting = self.reset();
        proof {
            trace::lemma_accesses_extend(armed, self.history(), start, at_reset);
        }
        resetting?;
        let ghost requested = self.history();

        let waiting = self.wait_for_core_halted();
        proof {
            trace::lemma_accesses_extend(requested, self.history(), start, at_reset + 1);
        }
        waiting?;
        let ghost halted = self.history();
        let ghost at_xpsr = self.clock();

        let xpsr_read = self.read_core_reg(registers().XPSR);
        proof {
            trace::lemma_accesses_extend(requested, self.history(), start, at_reset + 1);
            trace::lemma_poll_extends(
                halted,
                self.history(),
                at_reset + 1,
                trace::S_HALT_BIT,
                trace::POLL_LIMIT as nat,
            );
        }
        let xpsr_value: u32 = xpsr_read?;
        let ghost read_xpsr = self.history();
        let ghost at_fix = self.clock();
        proof {
            lemma_thumb_bit(xpsr_value);
        }
        if xpsr_value & 0x0100_0000 == 0 {
            let fixing = self.write_core_reg(registers().XPSR, xpsr_value | 0x0100_0000);
            proof {
                trace::lemma_accesses_extend(requested, self.history(), start, at_reset + 1);
                trace::lemma_poll_extends(
                    halted,
                    self.history(),
                    at_reset + 1,
                    trace::S_HALT_BIT,
                    trace::POLL_LIMIT as nat,
                );
                trace::lemma_read_core_reg_extends(
                    read_xpsr,
                    self.history(),
                    at_xpsr,
                    trace::XPSR_SELECTOR,
                );
            }
            fixing?;
        }
        let ghost fixed = self.history();
        let ghost at_restore = self.clock();

        let restoring = self.write_word(Demcr::ADDRESS, demcr_val.into());
        proof {
            trace::lemma_accesses_extend(requested, self.history(), start, at_reset + 1);
            trace::lemma_poll_extends(
                halted,
                self.history(),
                at_reset + 1,
                trace::S_HALT_BIT,
                trace::POLL_LIMIT as nat,
            );
            trace::lemma_read_core_reg_extends(
                read_xpsr,
                self.history(),
                at_xpsr,
                trace::XPSR_SELECTOR,
            );
            if !bit(xpsr_value, trace::THUMB_BIT) {
                trace::lemma_write_core_reg_extends(
                    fixed,
                    self.history(),
                    at_fix,
                    trace::XPSR_SELECTOR,
                    xpsr_value | trace::XPSR_THUMB,
                );
            }
        }
        restoring?;
        let ghost restored = self.history();

        // try to read the program counter
        let pc_read = self.read_core_reg(registers().PC);
        proof {
            trace::lemma_accesses_extend(requested, self.history(), start, at_reset + 1);
            trace::lemma_poll_extends(
                halted,
                self.history(),
                at_reset + 1,
                trace::S_HALT_BIT,
                trace::POLL_LIMIT as nat,
            );
            trace::lemma_read_core_reg_extends(
                read_xpsr,
                self.history(),
                at_xpsr,
                trace::XPSR_SELECTOR,
            );
            if !bit(xpsr_value, trace::THUMB_BIT) {
                trace::lemma_write_core_reg_extends(
                    fixed,
                    self.history(),
                    at_fix,
                    trace::XPSR_SELECTOR,
                    xpsr_value | trace::XPSR_THUMB,
                );
            }
            trace::lemma_access_extends(restored, self.history(), at_restore);
        }
        let pc_value: u32 = pc_read?;

        // get pc
        Ok(CoreInformation { pc: pc_value })
    }

    /// Counts the breakpoint units of the core: reads FP_CTRL and returns
    /// NUM_CODE. A unit of a revision other than 0 is refused.
    pub fn get_available_breakpoint_units(&mut self) -> (r: Result<u32, Error>)
        ensures
            old(self).continued_by(final(self)),
            trace::get_available_breakpoint_units(final(self).history(), old(self).clock())
                == Some((final(self).clock(), r)),
            r matches Ok(count) ==> count <= trace::MAX_UNITS,
    {
        let raw_val = self.read_word(FpCtrl::ADDRESS)?;

        let reg = FpCtrl::from(raw_val);

        // Only revision 0 of the unit is supported.
        if reg.rev() == 0 {
            Ok(reg.num_code())
        } else {
            Err(Error::UnsupportedRevision)
        }
    }

    /// Switches the breakpoint unit: writes FP_CTRL with KEY, and ENABLE as
    /// `state` says. After a write that succeeded the engine takes the unit
    /// as switched, whatever `state` is.
    pub fn enable_breakpoints(&mut self, state: bool) -> (r: Result<(), Error>)
        ensures
            old(self).history().is_prefix_of(final(self).history()),
            trace::enable_breakpoints(final(self).history(), old(self).clock(), state) == Some(
                (final(self).clock(), r),
            ),
            final(self).breakpoints() == old(self).breakpoints(),
            final(self).enabled() == (old(self).enabled() || r is Ok),
    {
        let mut val = FpCtrl::from(0);
        val.set_key(true);
        val.set_enable(state);
        proof {
            lemma_fp_ctrl_word(state);
        }

        self.write_word(FpCtrl::ADDRESS, val.into())?;

        self.hw_breakpoints_enabled = true;

        Ok(())
    }

    /// Sets comparator `bp_unit_index` to break at `addr`.
    pub fn set_breakpoint(&mut self, bp_unit_index: usize, addr: u32) -> (r: Result<(), Error>)
        requires
            trace::comparator_address(bp_unit_index as int) <= u32::MAX,
        ensures
            old(self).continued_by(final(self)),
            trace::set_breakpoint(
                final(self).history(),
                old(self).clock(),
                bp_unit_index as int,
                addr,
            ) == Some((final(self).clock(), r)),
    {
        let val = FpCompX::breakpoint_configuration(addr);

        let reg_addr: u32 = FpCompX::ADDRESS + (bp_unit_index * 4) as u32;

        self.write_word(reg_addr, val.into())?;

        Ok(())
    }

    /// The selectors of the core's registers.
    pub fn registers(&self) -> (r: BasicRegisterAddresses)
        ensures
            r == register_selectors(),
    {
        registers()
    }

    /// Clears comparator `bp_unit_index`.
    pub fn clear_breakpoint(&mut self, bp_unit_index: usize) -> (r: Result<(), Error>)
        requires
            trace::comparator_address(bp_unit_index as int) <= u32::MAX,
        ensures
            old(self).continued_by(final(self)),
            trace::clear_breakpoint(final(self).history(), old(self).clock(), bp_unit_index as int)
                == Some((final(self).clock(), r)),
    {
        let mut val = FpCompX::from(0);
        val.set_enable(false);
        proof {
            lemma_cleared_word();
        }

        let reg_addr: u32 = FpCompX::ADDRESS + (bp_unit_index * 4) as u32;

        self.write_word(reg_addr, val.into())?;

        Ok(())
    }

    /// The memory through which the engine reaches the target.
    pub fn memory(&self) -> (memory: &M)
        ensures
            memory.history() == self.history(),
    {
        &self.memory
    }

    /// The memory through which the engine reaches the target, for
    /// accesses of the caller's own. The breakpoints are not touched.
    pub fn memory_mut(&mut self) -> (memory: &mut M)
        ensures
            memory.history() == old(self).history(),
            final(self).history() == final(memory).history(),
            final(self).enabled() == old(self).enabled(),
            final(self).breakpoints() == old(self).breakpoints(),
    {
        &mut self.memory
    }

    /// Whether the breakpoint unit has been switched by this engine.
    pub fn hw_breakpoints_enabled(&self) -> (r: bool)
        ensures
            r == self.enabled(),
    {
        self.hw_breakpoints_enabled
    }

    /// The breakpoints that are set.
    pub fn active_breakpoints(&self) -> (r: &Vec<Breakpoint>)
        ensures
            r@ == self.breakpoints(),
    {
        &self.active_breakpoints
    }

    /// Reads `data.len()` bytes of the target's memory from `address` on.
    pub fn read_block8(&mut self, address: u32, data: &mut Vec<u8>) -> (r: Result<(), Error>)
        ensures
            old(self).continued_by(final(self)),
            final(data)@.len() == old(data)@.len(),
            match trace::read_block(
                final(self).history(),
                old(self).clock(),
                address,
                old(data)@.len(),
            ) {
                Some((end, Ok(bytes))) => end == final(self).clock() && r == Ok::<(), Error>(())
                    && final(data)@ == bytes,
                Some((end, Err(e))) => end == final(self).clock() && r == Err::<(), Error>(e),
                None => false,
            },
    {
        match self.memory.read_block8(address, data) {
            Ok(()) => Ok(()),
            Err(e) => Err(Error::Transport(e)),
        }
    }

    /// Writes the bytes of `data` to the target's memory from `address` on.
    pub fn write_block8(&mut self, address: u32, data: &[u8]) -> (r: Result<(), Error>)
        ensures
            old(self).continued_by(final(self)),
            trace::write_block(final(self).history(), old(self).clock(), address, data@) == Some(
                (final(self).clock(), r),
            ),
    {
        match self.memory.write_block8(address, data) {
            Ok(()) => Ok(()),
            Err(e) => Err(Error::Transport(e)),
        }
    }

    /// The breakpoints and the switch of the breakpoint unit.
    pub open spec fn units(&self) -> trace::Units {
        trace::Units { enabled: self.enabled(), breakpoints: self.breakpoints() }
    }

    /// Whether the breakpoints of the engine are well-formed: no two share a
    /// comparator, and each comparator is one that a core can have.
    pub open spec fn wf(&self) -> bool {
        trace::well_formed(self.breakpoints())
    }

    /// Whether the breakpoints of the engine are well-formed.
    pub fn is_well_formed(&self) -> (r: bool)
        ensures
            r == self.wf(),
    {
        let mut i: usize = 0;
        while i < self.active_breakpoints.len()
            invariant
                i <= self.active_breakpoints.len(),
                forall|a: int, b: int|
                    0 <= a < b < self.breakpoints().len() && a < i
                        ==> #[trigger] self.breakpoints()[a].register_hw
                        != #[trigger] self.breakpoints()[b].register_hw,
                forall|a: int|
                    0 <= a < i ==> #[trigger] self.breakpoints()[a].register_hw
                        < trace::MAX_UNITS,
            decreases self.active_breakpoints.len() - i,
        {
            let unit: usize = self.active_breakpoints[i].register_hw;
            if unit >= 127 {
                return false;
            }
            let mut j: usize = i + 1;
            while j < self.active_breakpoints.len()
                invariant
                    i < j <= self.active_breakpoints.len(),
                    unit == self.breakpoints()[i as int].register_hw,
                    forall|b: int|
                        i < b < j ==> #[trigger] self.breakpoints()[b].register_hw != unit,
                decreases self.active_breakpoints.len() - j,
            {
                if self.active_breakpoints[j].register_hw == unit {
                    return false;
                }
                j += 1;
            }
            i += 1;
        }
        true
    }

    /// Whether a breakpoint is held by comparator `unit`.
    fn unit_in_use(&self, unit: usize) -> (r: bool)
        ensures
            r == trace::used(self.breakpoints(), unit as int),
    {
        let mut i: usize = 0;
        while i < self.active_breakpoints.len()
            invariant
                i <= self.active_breakpoints.len(),
                forall|k: int| 0 <= k < i ==> self.active_breakpoints@[k].register_hw != unit,
            decreases self.active_breakpoints.len() - i,
        {
            if self.active_breakpoints[i].register_hw == unit {
                return true;
            }
            i += 1;
        }
        false
    }

    /// The lowest comparator that holds no breakpoint.
    pub fn find_free_breakpoint_unit(&self) -> (unit: usize)
        requires
            self.wf(),
        ensures
            unit == trace::first_free(self.breakpoints()),
            !trace::used(self.breakpoints(), unit as int),
            forall|k: int| 0 <= k < unit ==> trace::used(self.breakpoints(), k),
            unit <= self.breakpoints().len(),
    {
        proof {
            trace::lemma_first_free_is_free(self.breakpoints());
        }
        let mut unit: usize = 0;
        while unit < self.active_breakpoints.len()
            invariant
                unit <= self.active_breakpoints.len(),
                forall|k: int| 0 <= k < unit ==> trace::used(self.breakpoints(), k),
            decreases self.active_breakpoints.len() - unit,
        {
            if !self.unit_in_use(unit) {
                proof {
                    trace::lemma_first_free_skips(self.breakpoints(), unit as nat);
                }
                return unit;
            }
            unit += 1;
        }
        proof {
            trace::lemma_first_free_skips(self.breakpoints(), unit as nat);
        }
        unit
    }

    /// Sets a hardware breakpoint at `address` in the lowest free
    /// comparator. The breakpoint is refused where the core has no unit
    /// left; the breakpoint unit is switched on first where this engine has
    /// not switched it yet.
    pub fn set_hw_breakpoint(&mut self, address: u32) -> (r: Result<(), Error>)
        requires
            old(self).wf(),
        ensures
            final(self).wf(),
            old(self).history().is_prefix_of(final(self).history()),
            trace::set_hw_breakpoint(
                final(self).history(),
                old(self).clock(),
                old(self).units(),
                address,
            ) == Some((final(self).clock(), final(self).units(), r)),
    {
        let ghost start = self.clock();
        // Get the number of HW breakpoints available
        let num_hw_breakpoints: usize = self.get_available_breakpoint_units()? as usize;
        let ghost counted = self.history();

        if num_hw_breakpoints <= self.active_breakpoints.len() {
            // We cannot set additional breakpoints
            return Err(Error::BreakpointUnitsExhausted);
        }
        if !self.hw_breakpoints_enabled {
            let switching = self.enable_breakpoints(true);
            proof {
                trace::lemma_access_extends(counted, self.history(), start);
            }
            switching?;
        }
        let ghost switched = self.history();

        let bp_unit = self.find_free_breakpoint_unit();

        // actually set the breakpoint
        let setting = self.set_breakpoint(bp_unit, address);
        proof {
            trace::lemma_access_extends(switched, self.history(), start);
            trace::lemma_access_extends(switched, self.history(), start + 1);
        }
        setting?;
        proof {
            trace::lemma_push_keeps_well_formed(
                self.breakpoints(),
                Breakpoint { address, register_hw: bp_unit },
            );
        }
        self.active_breakpoints.push(Breakpoint { address, register_hw: bp_unit });
        Ok(())
    }

    /// Where the first breakpoint at `address` is kept.
    fn breakpoint_position(&self, address: u32) -> (r: Option<usize>)
        ensures
            match r {
                Some(found) => found < self.breakpoints().len() && found == trace::position(
                    self.breakpoints(),
                    address,
                ),
                None => trace::position(self.breakpoints(), address) == self.breakpoints().len(),
            },
    {
        let mut i: usize = 0;
        while i < self.active_breakpoints.len()
            invariant
                i <= self.active_breakpoints.len(),
                forall|k: int| 0 <= k < i ==> self.active_breakpoints@[k].address != address,
            decreases self.active_breakpoints.len() - i,
        {
            if self.active_breakpoints[i].address == address {
                proof {
                    trace::lemma_position_skips(self.breakpoints(), address, i as nat);
                }
                return Some(i);
            }
            i += 1;
        }
        proof {
            trace::lemma_position_skips(self.breakpoints(), address, i as nat);
        }
        None
    }

    /// Clears the hardware breakpoint at `address`: the first one that is
    /// set there. The breakpoint is forgotten only when its comparator has
    /// been cleared.
    pub fn clear_hw_breakpoint(&mut self, address: u32) -> (r: Result<(), Error>)
        requires
            old(self).wf(),
        ensures
            final(self).wf(),
            old(self).history().is_prefix_of(final(self).history()),
            trace::clear_hw_breakpoint(
                final(self).history(),
                old(self).clock(),
                old(self).units(),
                address,
            ) == Some((final(self).clock(), final(self).units(), r)),
    {
        match self.breakpoint_position(address) {
            Some(bp_position) => {
                let unit: usize = self.active_breakpoints[bp_position].register_hw;
                self.clear_breakpoint(unit)?;
                proof {
                    trace::lemma_remove_keeps_well_formed(self.breakpoints(), bp_position as int);
                }
                // The breakpoint is removed only once it is cleared.
                self.active_breakpoints.remove(bp_position);
                Ok(())
            },
            None => Err(Error::BreakpointNotFound),
        }
    }
}

/// The FP_CTRL word built field by field holds KEY in bit 1 and ENABLE in
/// bit 0.
proof fn lemma_fp_ctrl_word(state: bool)
    ensures
        with_bit(with_bit(0, 1, true), 0, state) == trace::fp_ctrl_word(state),
{
    assert(with_bit(with_bit(0, 1, true), 0, true) == 3u32) by (bit_vector);
    assert(with_bit(with_bit(0, 1, true), 0, false) == 2u32) by (bit_vector);
}

/// A comparator word of zero with ENABLE cleared is zero.
proof fn lemma_cleared_word()
    ensures
        with_bit(0, 0, false) == 0,
{
    assert(with_bit(0, 0, false) == 0u32) by (bit_vector);
}

/// Setting VC_CORERESET is setting bit 0 of DEMCR.
proof fn lemma_catch_word(demcr: u32)
    ensures
        with_bit(demcr, 0, true) == demcr | 1,
{
    assert(with_bit(demcr, 0, true) == demcr | 1) by (bit_vector);
}

/// The Thumb bit of XPSR is bit 24.
proof fn lemma_thumb_bit(xpsr: u32)
    ensures
        (xpsr & 0x0100_0000 == 0) == !bit(xpsr, trace::THUMB_BIT),
{
    assert((xpsr & 0x0100_0000 == 0) == !((xpsr >> 24u32) & 1 == 1)) by (bit_vector);
}

/// The words that the engine writes to DHCSR and AIRCR, built field by
/// field, are the command words of the architecture.
proof fn lemma_command_words()
    ensures
        with_field(with_bit(with_bit(0, 1, true), 0, true), 31, 16, 0xA05F) == trace::DHCSR_HALT,
        with_field(with_bit(with_bit(0, 1, false), 0, true), 31, 16, 0xA05F) == trace::DHCSR_RUN,
        with_field(
            with_bit(with_bit(with_bit(with_bit(0, 2, true), 1, false), 0, true), 3, true),
            31,
            16,
            0xA05F,
        ) == trace::DHCSR_STEP,
        with_field(with_bit(0, 0, true), 31, 16, 0xA05F) == trace::DHCSR_DEBUGEN,
        with_bit(with_field(0, 31, 16, 0x05FA), 2, true) == trace::AIRCR_RESET,
{
    assert(with_field(with_bit(with_bit(0, 1, true), 0, true), 31, 16, 0xA05F) == 0xA05F_0003u32)
        by (bit_vector);
    assert(with_field(with_bit(with_bit(0, 1, false), 0, true), 31, 16, 0xA05F) == 0xA05F_0001u32)
        by (bit_vector);
    assert(with_field(
        with_bit(with_bit(with_bit(with_bit(0, 2, true), 1, false), 0, true), 3, true),
        31,
        16,
        0xA05F,
    ) == 0xA05F_000Du32) by (bit_vector);
    assert(with_field(with_bit(0, 0, true), 31, 16, 0xA05F) == 0xA05F_0001u32) by (bit_vector);
    assert(with_bit(with_field(0, 31, 16, 0x05FA), 2, true) == 0x05FA_0004u32) by (bit_vector);
}

/// The DCRSR word built field by field holds the selector in bits 6:0 and
/// REGWNR in bit 16.
proof fn lemma_dcrsr_word(selector: u8, write: bool)
    ensures
        with_field(with_bit(0, 16, write), 6, 0, selector as u32) == trace::dcrsr_word(
            selector,
            write,
        ),
{
    let s: u32 = selector as u32;
    assert(with_field(with_bit(0, 16, true), 6, 0, s) == (s & 0x7f) | 0x1_0000u32) by (bit_vector);
    assert(with_field(with_bit(0, 16, false), 6, 0, s) == (s & 0x7f) | 0u32) by (bit_vector);
}

/// One more read of DHCSR after `k` polls that went on: the polls stay in the
/// record, and the poll as a whole is what the new read makes of it.
proof fn lemma_polled(before: Seq<Access>, after: Seq<Access>, start: int, index: u32, k: nat)
    requires
        k < 100,
        before.len() == start + k,
        0 <= start,
        forall|j: int| start <= j < start + k ==> trace::pending(before, j, index),
        after == before.push(after.last()),
        after.len() == before.len() + 1,
        after.last() is Read32,
        after.last()->Read32_address == trace::DHCSR,
    ensures
        before.is_prefix_of(after),
        forall|j: int| start <= j < start + k ==> trace::pending(after, j, index),
        match after.last()->Read32_outcome {
            Err(e) => trace::poll(after, start, index, 100) == Some(
                (after.len() as int, Err::<(), Error>(Error::Transport(e))),
            ),
            Ok(word) => if bit(word, index) {
                trace::poll(after, start, index, 100) == Some(
                    (after.len() as int, Ok::<(), Error>(())),
                )
            } else {
                trace::pending(after, start + k, index)
            },
        },
{
    assert(before.is_prefix_of(after));
    assert forall|j: int| start <= j < start + k implies trace::pending(after, j, index) by {
        assert(trace::pending(before, j, index));
        assert(after[j] == before[j]);
    }
    trace::lemma_poll_skips(after, start, index, 100, k);
    assert(after[start + k] == after.last());
}

} // verus!
