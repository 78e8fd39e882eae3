use m4_gdb_bridge::error::Error;
use m4_gdb_bridge::m4::{msp, psp, registers, Breakpoint, CoreInformation, CoreRegisterAddress, M4};
use m4_gdb_bridge::memory::{Memory, TransportError};
use m4_gdb_bridge::target::{RamTarget, Record, TARGET_FAILURE};

const DHCSR: u32 = 0xE000_EDF0;
const DCRSR: u32 = 0xE000_EDF4;
const DCRDR: u32 = 0xE000_EDF8;
const AIRCR: u32 = 0xE000_ED0C;
const DEMCR: u32 = 0xE000_EDFC;
const FP_CTRL: u32 = 0xE000_2000;
const FP_COMP0: u32 = 0xE000_2008;

fn read(address: u32, value: u32) -> Record {
    Record::Read32 { address, outcome: Ok(value) }
}

fn write(address: u32, value: u32) -> Record {
    Record::Write32 { address, value, outcome: Ok(()) }
}

fn failure() -> TransportError {
    TransportError { code: TARGET_FAILURE }
}

#[test]
fn a_new_engine_has_no_breakpoints() {
    let core = M4::new(RamTarget::new());
    assert!(!core.hw_breakpoints_enabled());
    assert!(core.active_breakpoints().is_empty());
    assert!(core.memory().log().is_empty());
}

#[test]
fn halt_writes_dhcsr_once_and_then_only_reads_it() {
    let mut core = M4::new(RamTarget::new());
    assert_eq!(core.halt(), Ok(CoreInformation { pc: 0 }));
    let log = core.memory().log();
    assert_eq!(
        *log,
        vec![
            write(DHCSR, 0xA05F_0003),
            read(DHCSR, 0xA05F_0003),
            write(DCRSR, 0x0F),
            read(DHCSR, 0xA05F_0003),
            read(DCRDR, 0),
        ]
    );
    let writes = log
        .iter()
        .filter(|record| matches!(record, Record::Write32 { address, .. } if *address == DHCSR))
        .count();
    assert_eq!(writes, 1);
}

#[test]
fn halt_reports_the_program_counter() {
    let mut target = RamTarget::new();
    target.load32(DCRDR, 0x0800_1234);
    let mut core = M4::new(target);
    assert_eq!(core.halt(), Ok(CoreInformation { pc: 0x0800_1234 }));
}

#[test]
fn read_core_reg_selects_waits_and_reads() {
    let mut target = RamTarget::new();
    target.load32(DHCSR, 0x0001_0000);
    target.load32(DCRDR, 0x0102_0304);
    let mut core = M4::new(target);
    assert_eq!(core.read_core_reg(registers().PC), Ok(0x0102_0304));
    assert_eq!(
        *core.memory().log(),
        vec![write(DCRSR, 0x0F), read(DHCSR, 0x0001_0000), read(DCRDR, 0x0102_0304)]
    );
}

#[test]
fn read_core_reg_cuts_the_selector_to_seven_bits() {
    let mut target = RamTarget::new();
    target.load32(DHCSR, 0x0001_0000);
    let mut core = M4::new(target);
    assert_eq!(core.read_core_reg(CoreRegisterAddress(0x90)), Ok(0));
    assert_eq!(core.memory().log()[0], write(DCRSR, 0x10));
}

#[test]
fn write_core_reg_loads_selects_and_waits() {
    let mut target = RamTarget::new();
    target.load32(DHCSR, 0x0001_0000);
    let mut core = M4::new(target);
    assert_eq!(core.write_core_reg(registers().XPSR, 0x0100_0000), Ok(()));
    assert_eq!(
        *core.memory().log(),
        vec![write(DCRDR, 0x0100_0000), write(DCRSR, 0x0001_0010), read(DHCSR, 0x0001_0000)]
    );
}

#[test]
fn a_transfer_that_never_gets_ready_times_out() {
    let mut core = M4::new(RamTarget::new());
    assert_eq!(core.read_core_reg(registers().R0), Err(Error::Timeout));
    assert_eq!(core.memory().log().len(), 101);
    assert_eq!(core.write_core_reg(registers().R0, 7), Err(Error::Timeout));
    assert_eq!(core.memory().log().len(), 203);
    assert_eq!(core.wait_for_core_register_transfer(), Err(Error::Timeout));
    assert_eq!(core.memory().log().len(), 303);
}

#[test]
fn a_core_that_never_halts_times_out_after_100_polls() {
    let mut core = M4::new(RamTarget::new());
    assert_eq!(core.wait_for_core_halted(), Err(Error::Timeout));
    let log = core.memory().log();
    assert_eq!(log.len(), 100);
    assert!(log.iter().all(|record| *record == read(DHCSR, 0)));
}

#[test]
fn the_wait_ends_with_the_first_read_that_finds_the_core_halted() {
    let mut target = RamTarget::new();
    target.load32(DHCSR, 0x0002_0000);
    let mut core = M4::new(target);
    assert_eq!(core.wait_for_core_halted(), Ok(()));
    assert_eq!(*core.memory().log(), vec![read(DHCSR, 0x0002_0000)]);
    // S_HALT alone does not end the wait for a transfer
    assert_eq!(core.wait_for_core_register_transfer(), Err(Error::Timeout));
}

#[test]
fn core_halted_reads_dhcsr_once() {
    let mut core = M4::new(RamTarget::new());
    assert_eq!(core.core_halted(), Ok(false));
    core.memory_mut().load32(DHCSR, 0x0002_0000);
    assert_eq!(core.core_halted(), Ok(true));
    core.memory_mut().load32(DHCSR, 0x0001_0000);
    assert_eq!(core.core_halted(), Ok(false));
    assert_eq!(core.memory().log().len(), 3);
}

#[test]
fn run_writes_dhcsr_and_does_not_wait() {
    let mut core = M4::new(RamTarget::new());
    assert_eq!(core.run(), Ok(()));
    assert_eq!(*core.memory().log(), vec![write(DHCSR, 0xA05F_0001)]);
}

#[test]
fn step_masks_interrupts_and_waits_for_the_halt() {
    let mut core = M4::new(RamTarget::new());
    assert_eq!(core.step(), Ok(CoreInformation { pc: 0 }));
    let log = core.memory().log();
    assert_eq!(log[0], write(DHCSR, 0xA05F_000D));
    assert_eq!(log.len(), 5);
}

#[test]
fn reset_writes_aircr_and_does_not_wait() {
    let mut core = M4::new(RamTarget::new());
    assert_eq!(core.reset(), Ok(()));
    assert_eq!(*core.memory().log(), vec![write(AIRCR, 0x05FA_0004)]);
}

#[test]
fn reset_and_halt_on_a_fresh_core() {
    let mut core = M4::new(RamTarget::new());
    assert_eq!(core.reset_and_halt(), Ok(CoreInformation { pc: 0x0100_0000 }));
    assert_eq!(
        *core.memory().log(),
        vec![
            read(DHCSR, 0),
            write(DHCSR, 0xA05F_0001),
            read(DEMCR, 0),
            write(DEMCR, 1),
            write(AIRCR, 0x05FA_0004),
            read(DHCSR, 0xA05F_0001),
            write(DCRSR, 0x10),
            read(DHCSR, 0xA05F_0001),
            read(DCRDR, 0),
            write(DCRDR, 0x0100_0000),
            write(DCRSR, 0x0001_0010),
            read(DHCSR, 0xA05F_0001),
            write(DEMCR, 0),
            write(DCRSR, 0x0F),
            read(DHCSR, 0xA05F_0001),
            read(DCRDR, 0x0100_0000),
        ]
    );
}

fn last_write_to(log: &[Record], wanted: u32) -> Option<u32> {
    log.iter().rev().find_map(|record| match record {
        Record::Write32 { address, value, .. } if *address == wanted => Some(*value),
        _ => None,
    })
}

#[test]
fn reset_and_halt_restores_demcr_whether_or_not_the_catch_was_set() {
    for demcr in [0u32, 1, 0x0100_0000, 0x0100_0001, 0x010F_07F0, 0xFFFF_FFFF] {
        let mut target = RamTarget::new();
        target.load32(DEMCR, demcr);
        let mut core = M4::new(target);
        assert!(core.reset_and_halt().is_ok());
        assert_eq!(last_write_to(core.memory().log(), DEMCR), Some(demcr));
        assert_eq!(core.memory().peek32(DEMCR), demcr);
        let armed = core
            .memory()
            .log()
            .iter()
            .filter(|record| matches!(record, Record::Write32 { address, .. } if *address == DEMCR))
            .count();
        assert_eq!(armed, if demcr & 1 == 0 { 2 } else { 1 });
    }
}

#[test]
fn reset_and_halt_sets_the_thumb_bit_where_it_is_clear() {
    let mut target = RamTarget::new();
    target.load32(DCRDR, 0x2100_0003);
    target.load32(DHCSR, 0x0003_0001);
    let mut core = M4::new(target);
    assert!(core.reset_and_halt().is_ok());
    // the bit was set: XPSR is not written
    assert_eq!(last_write_to(core.memory().log(), DCRDR), None);

    let mut target = RamTarget::new();
    target.load32(DCRDR, 0x2000_0003);
    target.load32(DHCSR, 0x0003_0001);
    let mut core = M4::new(target);
    assert!(core.reset_and_halt().is_ok());
    let log = core.memory().log();
    assert_eq!(last_write_to(log, DCRDR), Some(0x2100_0003));
    let at = log.iter().position(|record| *record == write(DCRDR, 0x2100_0003)).unwrap();
    assert_eq!(log[at + 1], write(DCRSR, 0x0001_0010));
}

#[test]
fn reset_and_halt_leaves_debug_enabled_alone_where_it_is_set() {
    let mut target = RamTarget::new();
    target.load32(DHCSR, 0x0003_0001);
    let mut core = M4::new(target);
    assert!(core.reset_and_halt().is_ok());
    assert_eq!(last_write_to(core.memory().log(), DHCSR), None);
    assert_eq!(core.memory().log()[1], read(DEMCR, 0));
}

#[test]
fn reset_and_halt_gives_up_when_the_core_does_not_halt() {
    let mut target = RamTarget::new();
    target.load32(DHCSR, 0x0001_0001);
    let mut core = M4::new(target);
    assert_eq!(core.reset_and_halt(), Err(Error::Timeout));
    // DHCSR, DEMCR read and written, AIRCR written, 100 polls, and no more
    assert_eq!(core.memory().log().len(), 104);
}

#[test]
fn a_failing_probe_ends_the_operation_at_once() {
    for count in 0..5usize {
        let mut target = RamTarget::new();
        target.fail_from(count);
        let mut core = M4::new(target);
        assert_eq!(core.halt(), Err(Error::Transport(failure())));
        assert_eq!(core.memory().log().len(), count + 1);
    }
    let mut target = RamTarget::new();
    target.fail_from(0);
    let mut core = M4::new(target);
    assert_eq!(core.run(), Err(Error::Transport(failure())));
    assert_eq!(core.reset(), Err(Error::Transport(failure())));
    assert_eq!(core.core_halted(), Err(Error::Transport(failure())));
    assert_eq!(core.wait_for_core_halted(), Err(Error::Transport(failure())));
    assert_eq!(core.reset_and_halt(), Err(Error::Transport(failure())));
    assert_eq!(core.get_available_breakpoint_units(), Err(Error::Transport(failure())));
    assert_eq!(core.enable_breakpoints(true), Err(Error::Transport(failure())));
    assert!(!core.hw_breakpoints_enabled());
    assert_eq!(core.memory().log().len(), 7);
    assert_eq!(
        core.memory().log()[0],
        Record::Write32 { address: DHCSR, value: 0xA05F_0001, outcome: Err(failure()) }
    );
}

#[test]
fn breakpoint_units_are_counted_for_revision_0_only() {
    let mut target = RamTarget::new();
    target.load32(FP_CTRL, 0x0000_0260);
    let mut core = M4::new(target);
    assert_eq!(core.get_available_breakpoint_units(), Ok(6));
    core.memory_mut().load32(FP_CTRL, 0x0000_70F0);
    assert_eq!(core.get_available_breakpoint_units(), Ok(127));
    core.memory_mut().load32(FP_CTRL, 0x1000_0260);
    assert_eq!(core.get_available_breakpoint_units(), Err(Error::UnsupportedRevision));
    assert_eq!(core.memory().log().len(), 3);
}

#[test]
fn enable_breakpoints_marks_the_unit_as_switched_whatever_the_state() {
    let mut core = M4::new(RamTarget::new());
    assert_eq!(core.enable_breakpoints(false), Ok(()));
    assert!(core.hw_breakpoints_enabled());
    assert_eq!(core.enable_breakpoints(true), Ok(()));
    assert!(core.hw_breakpoints_enabled());
    assert_eq!(*core.memory().log(), vec![write(FP_CTRL, 2), write(FP_CTRL, 3)]);
}

#[test]
fn comparators_are_written_at_their_addresses() {
    let mut core = M4::new(RamTarget::new());
    assert_eq!(core.set_breakpoint(0, 0x0800_09A4), Ok(()));
    assert_eq!(core.set_breakpoint(3, 0x0800_09A6), Ok(()));
    assert_eq!(core.clear_breakpoint(3), Ok(()));
    assert_eq!(
        *core.memory().log(),
        vec![
            write(FP_COMP0, 0x4800_09A5),
            write(FP_COMP0 + 12, 0x8800_09A5),
            write(FP_COMP0 + 12, 0),
        ]
    );
    assert!(core.active_breakpoints().is_empty());
}

#[test]
fn hardware_breakpoints_take_the_first_free_unit() {
    let mut target = RamTarget::new();
    target.load32(FP_CTRL, 0x30);
    let mut core = M4::new(target);
    assert_eq!(core.find_free_breakpoint_unit(), 0);
    assert_eq!(core.set_hw_breakpoint(0x100), Ok(()));
    assert!(core.hw_breakpoints_enabled());
    assert_eq!(
        *core.memory().log(),
        vec![read(FP_CTRL, 0x30), write(FP_CTRL, 3), write(FP_COMP0, 0x4000_0101)]
    );
    core.memory_mut().load32(FP_CTRL, 0x30);
    assert_eq!(core.set_hw_breakpoint(0x200), Ok(()));
    assert_eq!(core.set_hw_breakpoint(0x300), Ok(()));
    assert_eq!(
        *core.active_breakpoints(),
        vec![
            Breakpoint { address: 0x100, register_hw: 0 },
            Breakpoint { address: 0x200, register_hw: 1 },
            Breakpoint { address: 0x300, register_hw: 2 },
        ]
    );
    // the unit is switched on once only
    assert_eq!(core.memory().log().len(), 7);

    // all three units are taken
    assert_eq!(core.set_hw_breakpoint(0x400), Err(Error::BreakpointUnitsExhausted));
    assert_eq!(core.active_breakpoints().len(), 3);

    // a unit that was given up is the first to be taken again
    assert_eq!(core.clear_hw_breakpoint(0x200), Ok(()));
    assert_eq!(core.memory().log().last(), Some(&write(FP_COMP0 + 4, 0)));
    assert_eq!(
        *core.active_breakpoints(),
        vec![
            Breakpoint { address: 0x100, register_hw: 0 },
            Breakpoint { address: 0x300, register_hw: 2 },
        ]
    );
    assert_eq!(core.find_free_breakpoint_unit(), 1);
    assert_eq!(core.set_hw_breakpoint(0x500), Ok(()));
    assert_eq!(core.memory().log().last(), Some(&write(FP_COMP0 + 4, 0x4000_0501)));
    assert_eq!(core.active_breakpoints()[2], Breakpoint { address: 0x500, register_hw: 1 });
    assert_eq!(core.find_free_breakpoint_unit(), 3);
}

#[test]
fn clearing_a_breakpoint_that_is_not_set() {
    let mut core = M4::new(RamTarget::new());
    assert_eq!(core.clear_hw_breakpoint(0x100), Err(Error::BreakpointNotFound));
    assert!(core.memory().log().is_empty());
}

#[test]
fn a_breakpoint_is_kept_when_its_comparator_cannot_be_cleared() {
    let mut target = RamTarget::new();
    target.load32(FP_CTRL, 0x10);
    let mut core = M4::new(target);
    assert_eq!(core.set_hw_breakpoint(0x100), Ok(()));
    let made = core.memory().log().len();
    core.memory_mut().fail_from(made);
    assert_eq!(core.clear_hw_breakpoint(0x100), Err(Error::Transport(failure())));
    assert_eq!(*core.active_breakpoints(), vec![Breakpoint { address: 0x100, register_hw: 0 }]);
    assert_eq!(core.set_hw_breakpoint(0x200), Err(Error::Transport(failure())));
    assert_eq!(core.active_breakpoints().len(), 1);
}

#[test]
fn no_breakpoint_on_a_unit_of_another_revision() {
    let mut target = RamTarget::new();
    target.load32(FP_CTRL, 0x1000_0060);
    let mut core = M4::new(target);
    assert_eq!(core.set_hw_breakpoint(0x100), Err(Error::UnsupportedRevision));
    assert!(!core.hw_breakpoints_enabled());
    assert!(core.active_breakpoints().is_empty());
}

#[test]
fn register_selectors() {
    let core = M4::new(RamTarget::new());
    let selectors = core.registers();
    assert_eq!(selectors.R0, CoreRegisterAddress(0));
    assert_eq!(selectors.R9, CoreRegisterAddress(9));
    assert_eq!(selectors.SP, CoreRegisterAddress(0x0D));
    assert_eq!(selectors.LR, CoreRegisterAddress(0x0E));
    assert_eq!(selectors.PC, CoreRegisterAddress(0x0F));
    assert_eq!(selectors.XPSR, CoreRegisterAddress(0x10));
    assert_eq!(msp(), CoreRegisterAddress(0x09));
    assert_eq!(psp(), CoreRegisterAddress(0x0A));
}

#[test]
fn the_ram_target_keeps_what_is_written() {
    let mut target = RamTarget::new();
    assert_eq!(target.read32(0x2000_0000), Ok(0));
    assert_eq!(target.write32(0x2000_0000, 0x0403_0201), Ok(()));
    assert_eq!(target.read32(0x2000_0000), Ok(0x0403_0201));
    assert_eq!(target.read32(0x2000_0002), Ok(0x0000_0403));
    let mut buffer = vec![0xffu8; 6];
    assert_eq!(target.read_block8(0x1FFF_FFFF, &mut buffer), Ok(()));
    assert_eq!(buffer, vec![0, 1, 2, 3, 4, 0]);
    assert_eq!(target.write_block8(0xFFFF_FFFE, &[9, 8, 7]), Ok(()));
    assert_eq!(target.peek8(0xFFFF_FFFF), 8);
    assert_eq!(target.peek8(0), 7);
    assert_eq!(target.read32(0xFFFF_FFFD), Ok(0x0708_0900));
    assert_eq!(target.log().len(), 7);
    assert_eq!(
        target.log()[4],
        Record::ReadBlock8 { address: 0x1FFF_FFFF, data: vec![0, 1, 2, 3, 4, 0], outcome: Ok(()) }
    );
    target.fail_from(0);
    assert_eq!(target.write32(0, 1), Err(failure()));
    assert_eq!(target.read_block8(0, &mut buffer), Err(failure()));
    assert_eq!(buffer, vec![0, 1, 2, 3, 4, 0]);
    assert_eq!(target.peek8(0), 7);
}
