use m4_gdb_bridge::error::Error;
use m4_gdb_bridge::m4::M4;
use m4_gdb_bridge::memory::TransportError;
use m4_gdb_bridge::packet::{Kind, Packet};
use m4_gdb_bridge::target::{RamTarget, TARGET_FAILURE};
use m4_gdb_bridge::worker::{worker, Event};

const DCRDR: u32 = 0xE000_EDF8;

fn packet(payload: &[u8]) -> Event {
    Event::Packet(Packet::from_data(Kind::Packet, payload.to_vec()))
}

/// The bytes of a packet on the wire, written out by hand.
fn framed(payload: &str) -> Vec<u8> {
    let sum = payload.bytes().fold(0u8, |sum, b| sum.wrapping_add(b));
    format!("${}#{:02X}", payload, sum).into_bytes()
}

/// Runs a session on `target` and gives what went over the wire.
fn run_on(target: RamTarget, events: Vec<Event>) -> (Result<(), Error>, Vec<Vec<u8>>) {
    let mut core = M4::new(target);
    let mut output = Vec::new();
    let result = worker(&events, &mut output, &mut core);
    (result, output.iter().map(|packet| packet.encode()).collect())
}

fn run(events: Vec<Event>) -> Vec<Vec<u8>> {
    let (result, sent) = run_on(RamTarget::new(), events);
    assert_eq!(result, Ok(()));
    sent
}

#[test]
fn supported_features_are_told() {
    assert_eq!(
        run(vec![packet(b"qSupported")]),
        vec![framed("PacketSize=2048;swbreak-;hwbreak+;vContSupported+;qXfer:memory-map:read+")]
    );
    assert_eq!(framed("OK"), b"$OK#9A".to_vec());
}

#[test]
fn stop_reason_then_general_registers() {
    assert_eq!(run(vec![packet(b"?"), packet(b"g")]), vec![framed("S05"), framed("xxxxxxxx")]);
}

#[test]
fn memory_of_a_zero_filled_target() {
    assert_eq!(run(vec![packet(b"m20000000,4")]), vec![framed("00000000")]);
}

#[test]
fn program_counter_of_a_halted_target() {
    let mut target = RamTarget::new();
    target.load32(DCRDR, 0x0102_0304);
    let (result, sent) = run_on(target, vec![packet(b"p0f")]);
    assert_eq!(result, Ok(()));
    assert_eq!(sent, vec![framed("04030201")]);
}

#[test]
fn continue_then_interrupt() {
    assert_eq!(run(vec![packet(b"c")]), Vec::<Vec<u8>>::new());
    assert_eq!(run(vec![packet(b"c"), packet(b"\x03")]), vec![framed("T05hwbreak:;")]);
}

#[test]
fn detach_is_acknowledged_and_ends_the_session() {
    assert_eq!(run(vec![packet(b"D")]), vec![framed("OK")]);
    assert_eq!(run(vec![packet(b"?"), packet(b"D"), packet(b"g"), Event::Tick]), vec![
        framed("S05"),
        framed("OK")
    ]);
}

#[test]
fn a_halt_after_continue_is_told_at_the_next_tick_and_once() {
    assert_eq!(
        run(vec![Event::Tick, packet(b"c"), Event::Tick, Event::Tick, packet(b"?")]),
        vec![framed("T05hwbreak:;"), framed("S05")]
    );
}

#[test]
fn no_halt_is_told_that_was_not_awaited() {
    assert_eq!(run(vec![Event::Tick, Event::Tick]), Vec::<Vec<u8>>::new());
    assert_eq!(run(vec![packet(b"c"), packet(b"vCont;t"), Event::Tick]), vec![framed("OK")]);
    assert_eq!(run(vec![packet(b"c"), packet(b"s"), Event::Tick]), vec![framed("S05")]);
}

#[test]
fn a_session_without_events_sends_nothing() {
    assert_eq!(run(Vec::new()), Vec::<Vec<u8>>::new());
}

#[test]
fn invalid_packets_are_passed_over() {
    let invalid = Event::Packet(Packet { kind: Kind::Packet, data: b"D".to_vec(), checksum: *b"00" });
    assert_eq!(run(vec![invalid, packet(b"?")]), vec![framed("S05")]);
}

#[test]
fn an_error_of_the_engine_ends_the_session() {
    let mut target = RamTarget::new();
    target.fail_from(0);
    let (result, sent) = run_on(target, vec![packet(b"?"), packet(b"c"), packet(b"g")]);
    assert_eq!(result, Err(Error::Transport(TransportError { code: TARGET_FAILURE })));
    assert_eq!(sent, vec![framed("S05")]);

    let (result, sent) = run_on(RamTarget::new(), vec![packet(b"g"), packet(b"m,"), packet(b"g")]);
    assert_eq!(result, Err(Error::MalformedPacket));
    assert_eq!(sent, vec![framed("xxxxxxxx")]);
}

#[test]
fn what_was_sent_before_is_kept() {
    let mut core = M4::new(RamTarget::new());
    let mut output = vec![Packet::from_data(Kind::Packet, b"OK".to_vec())];
    assert_eq!(worker(&vec![packet(b"?")], &mut output, &mut core), Ok(()));
    assert_eq!(output.len(), 2);
    assert_eq!(output[0].data, b"OK".to_vec());
    assert_eq!(output[1].data, b"S05".to_vec());
}
