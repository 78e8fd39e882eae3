use m4_gdb_bridge::command::{parse, Command};
use m4_gdb_bridge::error::Error;
use m4_gdb_bridge::m4::{Breakpoint, M4};
use m4_gdb_bridge::memory::TransportError;
use m4_gdb_bridge::packet::{Kind, Packet};
use m4_gdb_bridge::target::{RamTarget, Record, TARGET_FAILURE};
use m4_gdb_bridge::worker::{await_halt, dispatch, execute, handler, Handled, Response};

const DHCSR: u32 = 0xE000_EDF0;
const DCRSR: u32 = 0xE000_EDF4;
const DCRDR: u32 = 0xE000_EDF8;
const AIRCR: u32 = 0xE000_ED0C;
const FP_CTRL: u32 = 0xE000_2000;
const FP_COMP0: u32 = 0xE000_2008;

const XML: &str = "<?xml version=\"1.0\"?>\n<!DOCTYPE memory-map PUBLIC \"+//IDN gnu.org//DTD GDB Memory Map V1.0//EN\" \"http://sourceware.org/gdb/gdb-memory-map.dtd\">\n<memory-map>\n<memory type=\"ram\" start=\"0x20000000\" length=\"0x4000\"/>\n<memory type=\"rom\" start=\"0x00000000\" length=\"0x40000\"/>\n</memory-map>";

fn read(address: u32, value: u32) -> Record {
    Record::Read32 { address, outcome: Ok(value) }
}

fn write(address: u32, value: u32) -> Record {
    Record::Write32 { address, value, outcome: Ok(()) }
}

fn said(text: &[u8]) -> Result<Response, Error> {
    Ok(Response { reply: Some(text.to_vec()), break_due: false })
}

fn fresh() -> M4<RamTarget> {
    M4::new(RamTarget::new())
}

/// Dispatches `payload` on a fresh core and checks that nothing was
/// accessed and the awaited halt is as it was.
fn quiet(payload: &[u8]) -> Result<Response, Error> {
    let mut result = None;
    for awaited in [false, true] {
        let mut core = fresh();
        let mut awaits_halt = awaited;
        let r = dispatch(&mut core, &mut awaits_halt, payload);
        assert_eq!(awaits_halt, awaited);
        assert!(core.memory().log().is_empty());
        result = Some(r);
    }
    result.unwrap()
}

#[test]
fn supported_features() {
    assert_eq!(
        quiet(b"qSupported"),
        said(b"PacketSize=2048;swbreak-;hwbreak+;vContSupported+;qXfer:memory-map:read+")
    );
    assert_eq!(
        quiet(b"qSupported:multiprocess+;swbreak+;hwbreak+"),
        said(b"PacketSize=2048;swbreak-;hwbreak+;vContSupported+;qXfer:memory-map:read+")
    );
}

#[test]
fn queries_with_the_empty_reply() {
    for payload in [
        &b"vMustReplyEmpty"[..],
        b"qTStatus",
        b"qTfV",
        b"qTsP",
        b"qfThreadInfo",
        b"qL1200000000000000000",
        b"qC",
        b"qOffsets",
        b"Z0,8000000,2",
    ] {
        assert_eq!(quiet(payload), said(b""));
        assert_eq!(parse(payload), Ok(Command::Unsupported));
    }
}

#[test]
fn fixed_replies() {
    assert_eq!(quiet(b"qAttached"), said(b"1"));
    assert_eq!(quiet(b"?"), said(b"S05"));
    assert_eq!(quiet(b"g"), said(b"xxxxxxxx"));
    assert_eq!(quiet(b"vCont?"), said(b"vCont;c;t;s"));
}

#[test]
fn anything_else_is_acknowledged() {
    assert_eq!(quiet(b""), said(b"OK"));
    assert_eq!(quiet(b"Hg0"), said(b"OK"));
    assert_eq!(quiet(b"qRcmd,68616c74"), said(b"OK"));
    assert_eq!(quiet(b"vCont;x"), said(b"OK"));
    assert_eq!(quiet(b"qXfer:features:read:target.xml:0,1000"), said(b"OK"));
    assert_eq!(quiet(b"\x04"), said(b"OK"));
    assert_eq!(parse(b"Q"), Ok(Command::Other));
}

#[test]
fn detach_ends_the_session() {
    assert_eq!(quiet(b"D"), Ok(Response { reply: Some(b"OK".to_vec()), break_due: true }));
    assert_eq!(quiet(b"D;1"), Ok(Response { reply: Some(b"OK".to_vec()), break_due: true }));
}

#[test]
fn read_register_halts_the_core_first() {
    let mut target = RamTarget::new();
    target.load32(DCRDR, 0x0102_0304);
    let mut core = M4::new(target);
    let mut awaits_halt = false;
    assert_eq!(dispatch(&mut core, &mut awaits_halt, b"p0f"), said(b"04030201"));
    assert_eq!(
        *core.memory().log(),
        vec![
            write(DHCSR, 0xA05F_0003),
            read(DHCSR, 0xA05F_0003),
            write(DCRSR, 0x0F),
            read(DHCSR, 0xA05F_0003),
            read(DCRDR, 0x0102_0304),
            read(DHCSR, 0xA05F_0003),
            write(DCRSR, 0x0F),
            read(DHCSR, 0xA05F_0003),
            read(DCRDR, 0x0102_0304),
        ]
    );
    assert!(!awaits_halt);
}

#[test]
fn read_register_takes_the_selector_in_either_case() {
    for payload in [&b"p0f"[..], b"p0F", b"pf", b"pF", b"p0000000f", b"p00000000000F"] {
        let mut core = fresh();
        let mut awaits_halt = true;
        assert_eq!(dispatch(&mut core, &mut awaits_halt, payload), said(b"00000000"));
        assert_eq!(core.memory().log()[6], write(DCRSR, 0x0F));
        assert!(awaits_halt);
    }
    assert_eq!(parse(b"p10"), Ok(Command::Register { selector: 0x10 }));
    assert_eq!(parse(b"pff"), Ok(Command::Register { selector: 0xff }));
}

#[test]
fn read_register_goes_on_when_the_halt_is_not_reported() {
    // the third access fails, which ends the halt; the wait that follows
    // fails too
    let mut target = RamTarget::new();
    target.fail_from(2);
    let mut core = M4::new(target);
    let mut awaits_halt = false;
    assert_eq!(
        dispatch(&mut core, &mut awaits_halt, b"p0f"),
        Err(Error::Transport(TransportError { code: TARGET_FAILURE }))
    );
    assert_eq!(core.memory().log().len(), 4);
}

#[test]
fn malformed_packets_are_refused_before_anything_is_accessed() {
    for payload in [
        &b"p"[..],
        b"pzz",
        b"p100",
        b"p-1",
        b"m",
        b"m20000000",
        b"m20000000,",
        b"m,4",
        b"m20000000;4",
        b"m100000000,4",
        b"m0,100000000",
        b"m2000000g,4",
        b"Z1",
        b"Z1,",
        b"Z1,8000000",
        b"Z1,8000000,",
        b"Z18000000,2",
        b"Z1,800000x,2",
        b"z1,,2",
        b"z1;8000000,2",
        b"X",
        b"X20000000,4",
        b"X20000000,4;abcd",
        b"X20000000,ff:abcd",
        b"X20000000:abcd",
        b"qXfer:memory-map:read",
        b"qXfer:memory-map:read:",
        b"qXfer:memory-map:read::",
        b"qXfer:memory-map:read::0",
        b"qXfer:memory-map:read::0,",
        b"qXfer:memory-map:read::,10",
        b"qXfer:memory-map:read:0,10",
        b"qXfer:memory-map:readx::0,10",
    ] {
        assert_eq!(quiet(payload), Err(Error::MalformedPacket));
        assert_eq!(parse(payload), Err(Error::MalformedPacket));
    }
}

#[test]
fn read_memory_as_hexadecimal_digits() {
    let mut core = fresh();
    let mut awaits_halt = false;
    assert_eq!(dispatch(&mut core, &mut awaits_halt, b"m20000000,4"), said(b"00000000"));
    assert_eq!(
        *core.memory().log(),
        vec![Record::ReadBlock8 { address: 0x2000_0000, data: vec![0; 4], outcome: Ok(()) }]
    );
    core.memory_mut().load32(0x2000_ABCC, 0xA573_FF00);
    assert_eq!(dispatch(&mut core, &mut awaits_halt, b"m2000abcd,3"), said(b"ff73a5"));
    assert_eq!(dispatch(&mut core, &mut awaits_halt, b"m2000ABCD,3"), said(b"ff73a5"));
    assert_eq!(dispatch(&mut core, &mut awaits_halt, b"m2000AbCd,03"), said(b"ff73a5"));
    assert_eq!(dispatch(&mut core, &mut awaits_halt, b"m2000abcd,0"), said(b""));
    assert_eq!(dispatch(&mut core, &mut awaits_halt, b"m2000abcc,A"), said(b"00ff73a5000000000000"));
    assert_eq!(
        parse(b"mFFFFFFFF,ffffffff"),
        Ok(Command::ReadMemory { address: u32::MAX, length: u32::MAX })
    );
}

#[test]
fn write_memory_takes_the_tail_of_the_payload() {
    let mut core = fresh();
    let mut awaits_halt = false;
    assert_eq!(dispatch(&mut core, &mut awaits_halt, b"X20000000,4:\x01\x02\x03\x04"), said(b"OK"));
    assert_eq!(
        *core.memory().log(),
        vec![Record::WriteBlock8 {
            address: 0x2000_0000,
            data: vec![1, 2, 3, 4],
            outcome: Ok(())
        }]
    );
    assert_eq!(dispatch(&mut core, &mut awaits_halt, b"m20000000,4"), said(b"01020304"));
    assert_eq!(dispatch(&mut core, &mut awaits_halt, b"X20000010,0:"), said(b"OK"));
    assert_eq!(
        core.memory().log()[2],
        Record::WriteBlock8 { address: 0x2000_0010, data: vec![], outcome: Ok(()) }
    );
    // the bytes are counted from the end of the payload
    assert_eq!(dispatch(&mut core, &mut awaits_halt, b"X20000020,2:\x01\x02\x03\x04"), said(b"OK"));
    assert_eq!(
        core.memory().log()[3],
        Record::WriteBlock8 { address: 0x2000_0020, data: vec![3, 4], outcome: Ok(()) }
    );
    assert_eq!(dispatch(&mut core, &mut awaits_halt, b"X2000002A,1:\x7f"), said(b"OK"));
    assert_eq!(core.memory().peek8(0x2000_002a), 0x7f);
}

#[test]
fn write_memory_with_more_bytes_asked_than_the_payload_holds() {
    let mut core = fresh();
    let mut awaits_halt = false;
    assert_eq!(
        execute(
            &mut core,
            &mut awaits_halt,
            b"X0,9:",
            Command::WriteMemory { address: 0, length: 9 }
        ),
        Err(Error::MalformedPacket)
    );
    assert!(core.memory().log().is_empty());
}

#[test]
fn continue_gives_no_reply_and_awaits_the_halt() {
    for payload in [&b"c"[..], b"vCont;c", b"c08000000", b"vCont;c:1"] {
        let mut core = fresh();
        let mut awaits_halt = false;
        assert_eq!(
            dispatch(&mut core, &mut awaits_halt, payload),
            Ok(Response { reply: None, break_due: false })
        );
        assert!(awaits_halt);
        assert_eq!(*core.memory().log(), vec![write(DHCSR, 0xA05F_0001)]);
    }
}

#[test]
fn continue_that_fails_awaits_nothing() {
    let mut target = RamTarget::new();
    target.fail_from(0);
    let mut core = M4::new(target);
    let mut awaits_halt = false;
    assert_eq!(
        dispatch(&mut core, &mut awaits_halt, b"c"),
        Err(Error::Transport(TransportError { code: TARGET_FAILURE }))
    );
    assert!(!awaits_halt);
}

#[test]
fn stop_halts_and_awaits_no_halt() {
    let mut core = fresh();
    let mut awaits_halt = true;
    assert_eq!(dispatch(&mut core, &mut awaits_halt, b"vCont;t"), said(b"OK"));
    assert!(!awaits_halt);
    let log = core.memory().log();
    assert_eq!(log.len(), 6);
    assert_eq!(log[0], write(DHCSR, 0xA05F_0003));
    assert_eq!(log[5], read(DHCSR, 0xA05F_0003));
}

#[test]
fn step_reports_a_stop() {
    for payload in [&b"s"[..], b"vCont;s", b"vCont;s:1"] {
        let mut core = fresh();
        let mut awaits_halt = true;
        assert_eq!(dispatch(&mut core, &mut awaits_halt, payload), said(b"S05"));
        assert!(!awaits_halt);
        assert_eq!(core.memory().log()[0], write(DHCSR, 0xA05F_000D));
        assert_eq!(core.memory().log().len(), 5);
    }
}

#[test]
fn insert_and_remove_a_hardware_breakpoint() {
    let mut target = RamTarget::new();
    target.load32(FP_CTRL, 0x60);
    let mut core = M4::new(target);
    let mut awaits_halt = false;
    assert_eq!(dispatch(&mut core, &mut awaits_halt, b"Z1,80009A4,2"), said(b"OK"));
    assert!(!awaits_halt);
    assert_eq!(
        *core.active_breakpoints(),
        vec![Breakpoint { address: 0x0800_09A4, register_hw: 0 }]
    );
    let log = core.memory().log();
    // reset and halt, then the breakpoint, then run
    assert_eq!(log.len(), 16 + 3 + 1);
    assert_eq!(log[4], write(AIRCR, 0x05FA_0004));
    assert_eq!(log[16], read(FP_CTRL, 0x60));
    assert_eq!(log[17], write(FP_CTRL, 3));
    assert_eq!(log[18], write(FP_COMP0, 0x4800_09A5));
    assert_eq!(log[19], write(DHCSR, 0xA05F_0001));

    assert_eq!(dispatch(&mut core, &mut awaits_halt, b"z1,080009a4,2"), said(b"OK"));
    assert!(core.active_breakpoints().is_empty());
    let log = core.memory().log();
    assert_eq!(log[log.len() - 2], write(FP_COMP0, 0));
    assert_eq!(log[log.len() - 1], write(DHCSR, 0xA05F_0001));

    assert_eq!(
        dispatch(&mut core, &mut awaits_halt, b"z1,80009a4,2"),
        Err(Error::BreakpointNotFound)
    );
}

#[test]
fn insert_fails_when_the_core_has_no_unit_left() {
    let mut core = fresh();
    let mut awaits_halt = false;
    assert_eq!(
        dispatch(&mut core, &mut awaits_halt, b"Z1,8000000,2"),
        Err(Error::BreakpointUnitsExhausted)
    );
    assert!(core.active_breakpoints().is_empty());
}

#[test]
fn windows_of_the_memory_map() {
    let whole = [b"l", XML.as_bytes()].concat();
    assert_eq!(quiet(b"qXfer:memory-map:read::0,1000"), said(&whole));
    assert_eq!(quiet(b"qXfer:memory-map:read::0,FFF"), said(&whole));
    assert_eq!(quiet(b"qXfer:memory-map:read:annex:0,fff"), said(&whole));
    assert_eq!(quiet(b"qXfer:memory-map:read::0,15"), said(b"m<?xml version=\"1.0\"?>"));
    assert_eq!(quiet(b"qXfer:memory-map:read::16,b"), said(b"m<!DOCTYPE m"));
    let tail = [b"l", &XML.as_bytes()[XML.len() - 13..]].concat();
    assert_eq!(tail, b"l</memory-map>".to_vec());
    let offset = format!("qXfer:memory-map:read::{:x},100", XML.len() - 13);
    assert_eq!(quiet(offset.as_bytes()), said(&tail));
    let at_end = format!("qXfer:memory-map:read::{:x},100", XML.len());
    assert_eq!(quiet(at_end.as_bytes()), said(b"l"));
    assert_eq!(quiet(b"qXfer:memory-map:read::ffff,100"), said(b"l"));
}

#[test]
fn interrupt_halts_and_reports_the_stop() {
    let mut core = fresh();
    let mut awaits_halt = true;
    assert_eq!(dispatch(&mut core, &mut awaits_halt, b"\x03"), said(b"T05hwbreak:;"));
    assert!(awaits_halt);
    let log = core.memory().log();
    assert_eq!(log.len(), 6);
    assert_eq!(log[0], write(DHCSR, 0xA05F_0003));
}

#[test]
fn monitor_reset_resets_and_halts() {
    let mut core = fresh();
    let mut awaits_halt = false;
    assert_eq!(dispatch(&mut core, &mut awaits_halt, b"qRcmd,7265736574"), said(b"OK"));
    let log = core.memory().log();
    assert_eq!(log[0], write(AIRCR, 0x05FA_0004));
    assert_eq!(log[1], write(DHCSR, 0xA05F_0003));
    assert_eq!(log.len(), 6);
    // neither has to succeed
    let mut target = RamTarget::new();
    target.fail_from(0);
    let mut core = M4::new(target);
    assert_eq!(dispatch(&mut core, &mut awaits_halt, b"qRcmd,7265736574"), said(b"OK"));
    assert_eq!(core.memory().log().len(), 2);
}

#[test]
fn commands_are_read_by_how_they_begin() {
    assert_eq!(parse(b"qSupported"), Ok(Command::Supported));
    assert_eq!(parse(b"qAttached:1"), Ok(Command::Attached));
    assert_eq!(parse(b"?"), Ok(Command::StopReason));
    assert_eq!(parse(b"g"), Ok(Command::GeneralRegisters));
    assert_eq!(parse(b"vCont?"), Ok(Command::ResumeActions));
    assert_eq!(parse(b"c"), Ok(Command::Continue));
    assert_eq!(parse(b"vCont;c"), Ok(Command::Continue));
    assert_eq!(parse(b"vCont;t"), Ok(Command::Stop));
    assert_eq!(parse(b"s"), Ok(Command::Step));
    assert_eq!(parse(b"vCont;s"), Ok(Command::Step));
    assert_eq!(parse(b"Z1,8000000,2"), Ok(Command::InsertBreakpoint { address: 0x0800_0000 }));
    assert_eq!(parse(b"z1,8000000,2"), Ok(Command::RemoveBreakpoint { address: 0x0800_0000 }));
    assert_eq!(parse(b"Z1,FFFFFFFF,x"), Ok(Command::InsertBreakpoint { address: u32::MAX }));
    assert_eq!(
        parse(b"X20000000,0:"),
        Ok(Command::WriteMemory { address: 0x2000_0000, length: 0 })
    );
    assert_eq!(
        parse(b"qXfer:memory-map:read::10,20"),
        Ok(Command::MemoryMap { offset: 0x10, length: 0x20 })
    );
    assert_eq!(parse(b"\x03"), Ok(Command::Interrupt));
    assert_eq!(parse(b"D"), Ok(Command::Detach));
    assert_eq!(parse(b"qRcmd,7265736574"), Ok(Command::MonitorReset));
    assert_eq!(parse(b"vContb;c"), Ok(Command::Other));
}

#[test]
fn a_packet_with_a_wrong_checksum_is_dropped() {
    let mut core = fresh();
    let mut awaits_halt = false;
    let packet = Packet { kind: Kind::Packet, data: b"c".to_vec(), checksum: *b"00" };
    assert_eq!(
        handler(&mut core, &mut awaits_halt, &packet),
        Ok(Handled { response: None, break_due: false })
    );
    assert!(!awaits_halt);
    assert!(core.memory().log().is_empty());
}

#[test]
fn a_reply_goes_out_as_a_packet_with_its_checksum() {
    let mut core = fresh();
    let mut awaits_halt = false;
    let packet = Packet::from_data(Kind::Packet, b"?".to_vec());
    assert_eq!(
        handler(&mut core, &mut awaits_halt, &packet),
        Ok(Handled {
            response: Some(Packet {
                kind: Kind::Packet,
                data: b"S05".to_vec(),
                checksum: *b"B8"
            }),
            break_due: false
        })
    );
    let packet = Packet::from_data(Kind::Packet, b"D".to_vec());
    assert_eq!(
        handler(&mut core, &mut awaits_halt, &packet),
        Ok(Handled {
            response: Some(Packet { kind: Kind::Packet, data: b"OK".to_vec(), checksum: *b"9A" }),
            break_due: true
        })
    );
    let packet = Packet::from_data(Kind::Packet, b"c".to_vec());
    assert_eq!(
        handler(&mut core, &mut awaits_halt, &packet),
        Ok(Handled { response: None, break_due: false })
    );
    assert!(awaits_halt);
    let packet = Packet::from_data(Kind::Packet, b"p".to_vec());
    assert_eq!(handler(&mut core, &mut awaits_halt, &packet), Err(Error::MalformedPacket));
}

#[test]
fn a_halt_is_told_once() {
    let mut core = fresh();
    let mut awaits_halt = false;
    assert_eq!(await_halt(&mut core, &mut awaits_halt), Ok(None));
    assert!(core.memory().log().is_empty());

    awaits_halt = true;
    assert_eq!(await_halt(&mut core, &mut awaits_halt), Ok(None));
    assert!(awaits_halt);
    assert_eq!(*core.memory().log(), vec![read(DHCSR, 0)]);

    core.memory_mut().load32(DHCSR, 0x0002_0000);
    assert_eq!(
        await_halt(&mut core, &mut awaits_halt),
        Ok(Some(Packet::from_data(Kind::Packet, b"T05hwbreak:;".to_vec())))
    );
    assert!(!awaits_halt);
    assert_eq!(await_halt(&mut core, &mut awaits_halt), Ok(None));
    assert_eq!(core.memory().log().len(), 2);
}
