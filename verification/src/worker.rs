//! The worker of a debug session: it reads the debugger's packets as
//! commands, carries them out on the engine, and answers.
use crate::command::{command_of, opens_with, parse, Command};
use crate::error::Error;
use crate::hex::{bytes_of, hex_encode, hex_of, le_bytes, text, word_hex};
use crate::m4::{CoreRegisterAddress, M4};
use crate::memory::{Access, Memory};
use crate::memory_map::{gdb_sanitize_file, memory_map, window, MEMORY_MAP};
use crate::packet::{is_valid, packet_of, Kind, Packet, PacketView};
use crate::trace;
use crate::trace::{Change, Outcome, Units};
use vstd::prelude::*;
use vstd::slice::slice_subrange;

verus! {

/// What the worker does with a command: the reply that goes to the
/// debugger, if there is one, and whether the session ends.
pub struct Reply {
    pub text: Option<Seq<u8>>,
    pub terminate: bool,
}

/// What the worker does with a command.
#[derive(Debug, PartialEq, Eq)]
pub struct Response {
    /// The payload of the reply, where the command gets one now.
    pub reply: Option<Vec<u8>>,
    /// Whether the session ends with this command.
    pub break_due: bool,
}

impl View for Response {
    type V = Reply;

    open spec fn view(&self) -> Reply {
        Reply {
            text: match self.reply {
                Some(bytes) => Some(bytes@),
                None => None,
            },
            terminate: self.break_due,
        }
    }
}

/// What a command has left behind: where it ended in the record of
/// accesses, the breakpoints, whether a halt is awaited, and the reply or
/// the error.
pub struct Served {
    pub end: int,
    pub units: Units,
    pub awaits_halt: bool,
    pub result: Result<Reply, Error>,
}

/// A result as the record of a command holds it.
pub open spec fn shown(r: Result<Response, Error>) -> Result<Reply, Error> {
    match r {
        Ok(response) => Ok(response@),
        Err(e) => Err(e),
    }
}

/// The text of a reply, or the error in its place, as the record of a
/// command holds it.
pub open spec fn made(r: Result<Vec<u8>, Error>) -> Result<Seq<u8>, Error> {
    match r {
        Ok(bytes) => Ok(bytes@),
        Err(e) => Err(e),
    }
}

/// A command that ended at `end` with the reply `text`.
pub open spec fn answered(end: int, units: Units, awaits_halt: bool, text: Seq<u8>) -> Option<
    Served,
> {
    Some(
        Served {
            end,
            units,
            awaits_halt,
            result: Ok(Reply { text: Some(text), terminate: false }),
        },
    )
}

/// A command that ended at `end` with the error `e`.
pub open spec fn failed(end: int, units: Units, awaits_halt: bool, e: Error) -> Option<Served> {
    Some(Served { end, units, awaits_halt, result: Err(e) })
}

/// A command whose reply is made from accesses that change no breakpoint.
pub open spec fn replied(made: Outcome<Seq<u8>>, units: Units, awaits_halt: bool) -> Option<
    Served,
> {
    match made {
        None => None,
        Some((end, Err(e))) => failed(end, units, awaits_halt, e),
        Some((end, Ok(text))) => answered(end, units, awaits_halt, text),
    }
}

/// Halting for a command that goes on whether or not the halt was
/// reported: the halt is requested, and the core is waited for once more.
pub open spec fn forced_halt(t: Seq<Access>, at: int) -> Outcome<()> {
    match trace::halt(t, at) {
        None => None,
        Some((requested, _)) => trace::wait_for_core_halted(t, requested),
    }
}

/// `p`: the core is halted, and the register is read; the reply is its
/// four bytes in hexadecimal digits, least significant byte first.
pub open spec fn register_reply(t: Seq<Access>, at: int, selector: u8) -> Outcome<Seq<u8>> {
    match forced_halt(t, at) {
        None => None,
        Some((end, Err(e))) => Some((end, Err(e))),
        Some((halted, Ok(_))) => match trace::read_core_reg(t, halted, selector) {
            None => None,
            Some((end, Err(e))) => Some((end, Err(e))),
            Some((end, Ok(word))) => Some((end, Ok(hex_of(le_bytes(word))))),
        },
    }
}

/// `m`: one block read; the reply is the bytes in hexadecimal digits.
pub open spec fn memory_reply(t: Seq<Access>, at: int, address: u32, length: u32) -> Outcome<
    Seq<u8>,
> {
    match trace::read_block(t, at, address, length as nat) {
        None => None,
        Some((end, Err(e))) => Some((end, Err(e))),
        Some((end, Ok(bytes))) => Some((end, Ok(hex_of(bytes)))),
    }
}

/// `vCont;t`: the core is halted, which must succeed, and waited for once
/// more.
pub open spec fn stop(t: Seq<Access>, at: int) -> Outcome<()> {
    match trace::halt(t, at) {
        None => None,
        Some((end, Err(e))) => Some((end, Err(e))),
        Some((halted, Ok(_))) => trace::wait_for_core_halted(t, halted),
    }
}

/// `Z1`: the core is reset and halted, the breakpoint is set, and the core
/// runs again.
pub open spec fn insert_breakpoint(t: Seq<Access>, at: int, units: Units, address: u32) -> Change<
    (),
> {
    match trace::reset_and_halt(t, at) {
        None => None,
        Some((end, Err(e))) => Some((end, units, Err(e))),
        Some((halted, Ok(_))) => match trace::set_hw_breakpoint(t, halted, units, address) {
            None => None,
            Some((end, after, Err(e))) => Some((end, after, Err(e))),
            Some((set, after, Ok(_))) => match trace::run(t, set) {
                None => None,
                Some((end, r)) => Some((end, after, r)),
            },
        },
    }
}

/// `z1`: the core is reset and halted, the breakpoint is cleared, and the
/// core runs again.
pub open spec fn remove_breakpoint(t: Seq<Access>, at: int, units: Units, address: u32) -> Change<
    (),
> {
    match trace::reset_and_halt(t, at) {
        None => None,
        Some((end, Err(e))) => Some((end, units, Err(e))),
        Some((halted, Ok(_))) => match trace::clear_hw_breakpoint(t, halted, units, address) {
            None => None,
            Some((end, after, Err(e))) => Some((end, after, Err(e))),
            Some((cleared, after, Ok(_))) => match trace::run(t, cleared) {
                None => None,
                Some((end, r)) => Some((end, after, r)),
            },
        },
    }
}

/// The monitor command `reset`: a reset is requested and then a halt;
/// neither has to succeed.
pub open spec fn monitor_reset(t: Seq<Access>, at: int) -> Option<int> {
    match trace::reset(t, at) {
        None => None,
        Some((requested, _)) => match trace::halt(t, requested) {
            None => None,
            Some((end, _)) => Some(end),
        },
    }
}

/// A command that changes breakpoints and is answered with `OK`.
pub open spec fn acknowledged(change: Change<()>, awaits_halt: bool) -> Option<Served> {
    match change {
        None => None,
        Some((end, units, Err(e))) => failed(end, units, awaits_halt, e),
        Some((end, units, Ok(_))) => answered(end, units, awaits_halt, bytes_of("OK"@)),
    }
}

/// What the worker does with `command`, which came in the payload `data`,
/// when `at` accesses have been made, the breakpoints are `units`, and a
/// halt is awaited or not: the accesses it makes, what it leaves of the
/// breakpoints and of the awaited halt, and its reply.
pub open spec fn serve(
    t: Seq<Access>,
    at: int,
    units: Units,
    awaits_halt: bool,
    data: Seq<u8>,
    command: Command,
) -> Option<Served> {
    match command {
        Command::Supported => answered(
            at,
            units,
            awaits_halt,
            bytes_of("PacketSize=2048;swbreak-;hwbreak+;vContSupported+;qXfer:memory-map:read+"@),
        ),
        Command::Unsupported => answered(at, units, awaits_halt, Seq::empty()),
        Command::Attached => answered(at, units, awaits_halt, bytes_of("1"@)),
        Command::StopReason => answered(at, units, awaits_halt, bytes_of("S05"@)),
        Command::GeneralRegisters => answered(at, units, awaits_halt, bytes_of("xxxxxxxx"@)),
        Command::Register { selector } => replied(
            register_reply(t, at, selector),
            units,
            awaits_halt,
        ),
        Command::ReadMemory { address, length } => replied(
            memory_reply(t, at, address, length),
            units,
            awaits_halt,
        ),
        Command::ResumeActions => answered(at, units, awaits_halt, bytes_of("vCont;c;t;s"@)),
        Command::Continue => match trace::run(t, at) {
            None => None,
            Some((end, Err(e))) => failed(end, units, awaits_halt, e),
            Some((end, Ok(_))) => Some(
                Served {
                    end,
                    units,
                    awaits_halt: true,
                    result: Ok(Reply { text: None, terminate: false }),
                },
            ),
        },
        Command::Stop => match stop(t, at) {
            None => None,
            Some((end, Err(e))) => failed(end, units, awaits_halt, e),
            Some((end, Ok(_))) => answered(end, units, false, bytes_of("OK"@)),
        },
        Command::Step => match trace::step(t, at) {
            None => None,
            Some((end, Err(e))) => failed(end, units, awaits_halt, e),
            Some((end, Ok(_))) => answered(end, units, false, bytes_of("S05"@)),
        },
        Command::InsertBreakpoint { address } => acknowledged(
            insert_breakpoint(t, at, units, address),
            awaits_halt,
        ),
        Command::RemoveBreakpoint { address } => acknowledged(
            remove_breakpoint(t, at, units, address),
            awaits_halt,
        ),
        Command::WriteMemory { address, length } => if length <= data.len() {
            match trace::write_block(
                t,
                at,
                address,
                data.subrange(data.len() - length, data.len() as int),
            ) {
                None => None,
                Some((end, Err(e))) => failed(end, units, awaits_halt, e),
                Some((end, Ok(_))) => answered(end, units, awaits_halt, bytes_of("OK"@)),
            }
        } else {
            failed(at, units, awaits_halt, Error::MalformedPacket)
        },
        Command::MemoryMap { offset, length } => answered(
            at,
            units,
            awaits_halt,
            window(bytes_of(MEMORY_MAP@), offset as nat, length as nat),
        ),
        Command::Interrupt => match forced_halt(t, at) {
            None => None,
            Some((end, Err(e))) => failed(end, units, awaits_halt, e),
            Some((end, Ok(_))) => answered(end, units, awaits_halt, bytes_of("T05hwbreak:;"@)),
        },
        Command::Detach => Some(
            Served {
                end: at,
                units,
                awaits_halt,
                result: Ok(Reply { text: Some(bytes_of("OK"@)), terminate: true }),
            },
        ),
        Command::MonitorReset => match monitor_reset(t, at) {
            None => None,
            Some(end) => answered(end, units, awaits_halt, bytes_of("OK"@)),
        },
        Command::Other => answered(at, units, awaits_halt, bytes_of("OK"@)),
    }
}

/// What the worker does with the payload `data`: a payload that holds no
/// well-formed command is refused before anything is accessed; any other
/// is served as the command it holds.
pub open spec fn dispatched(
    t: Seq<Access>,
    at: int,
    units: Units,
    awaits_halt: bool,
    data: Seq<u8>,
) -> Option<Served> {
    match command_of(data) {
        Err(e) => failed(at, units, awaits_halt, e),
        Ok(command) => serve(t, at, units, awaits_halt, data, command),
    }
}

/// Whether `served` is what is found after a command: the engine `core`,
/// the awaited halt and the result `r`.
pub open spec fn found<M: Memory>(
    served: Option<Served>,
    core: &M4<M>,
    awaits_halt: bool,
    r: Result<Response, Error>,
) -> bool {
    served == Some(
        Served { end: core.clock(), units: core.units(), awaits_halt, result: shown(r) },
    )
}

/// The reply to `qSupported`.
fn features() -> (r: Vec<u8>)
    ensures
        r@ == bytes_of(
            "PacketSize=2048;swbreak-;hwbreak+;vContSupported+;qXfer:memory-map:read+"@,
        ),
{
    proof {
        reveal_strlit("PacketSize=2048;swbreak-;hwbreak+;vContSupported+;qXfer:memory-map:read+");
    }
    text("PacketSize=2048;swbreak-;hwbreak+;vContSupported+;qXfer:memory-map:read+")
}

/// The reply to `qAttached`.
fn attached() -> (r: Vec<u8>)
    ensures
        r@ == bytes_of("1"@),
{
    proof {
        reveal_strlit("1");
    }
    text("1")
}

/// The reply that reports a stop by signal 5.
fn stopped() -> (r: Vec<u8>)
    ensures
        r@ == bytes_of("S05"@),
{
    proof {
        reveal_strlit("S05");
    }
    text("S05")
}

/// The reply that stands for the general registers.
fn placeholder() -> (r: Vec<u8>)
    ensures
        r@ == bytes_of("xxxxxxxx"@),
{
    proof {
        reveal_strlit("xxxxxxxx");
    }
    text("xxxxxxxx")
}

/// The reply to `vCont?`.
fn resume_actions() -> (r: Vec<u8>)
    ensures
        r@ == bytes_of("vCont;c;t;s"@),
{
    proof {
        reveal_strlit("vCont;c;t;s");
    }
    text("vCont;c;t;s")
}

/// The reply `OK`.
fn ok() -> (r: Vec<u8>)
    ensures
        r@ == bytes_of("OK"@),
{
    proof {
        reveal_strlit("OK");
    }
    text("OK")
}

/// The reply that reports a halt at a hardware breakpoint.
fn halt_notice() -> (r: Vec<u8>)
    ensures
        r@ == bytes_of("T05hwbreak:;"@),
{
    proof {
        reveal_strlit("T05hwbreak:;");
    }
    text("T05hwbreak:;")
}

/// A reply with the payload `text`.
fn say(text: Vec<u8>) -> (r: Result<Response, Error>)
    ensures
        shown(r) == Ok::<Reply, Error>(Reply { text: Some(text@), terminate: false }),
{
    Ok(Response { reply: Some(text), break_due: false })
}

/// Halts the core without asking whether the halt was reported, and waits
/// for it once more.
fn force_halt<M: Memory>(core: &mut M4<M>) -> (r: Result<(), Error>)
    ensures
        old(core).continued_by(final(core)),
        forced_halt(final(core).history(), old(core).clock()) == Some((final(core).clock(), r)),
{
    let ghost start = core.clock();
    let _ = core.halt();
    let ghost requested = core.history();
    let waited = core.wait_for_core_halted();
    proof {
        trace::lemma_halt_extends(requested, core.history(), start);
    }
    waited
}

/// Serves `p`.
fn read_register<M: Memory>(core: &mut M4<M>, selector: u8) -> (r: Result<Vec<u8>, Error>)
    ensures
        old(core).continued_by(final(core)),
        register_reply(final(core).history(), old(core).clock(), selector) == Some(
            (final(core).clock(), made(r)),
        ),
{
    let ghost start = core.clock();
    force_halt(core)?;
    let ghost halted = core.history();

    let read = core.read_core_reg(CoreRegisterAddress(selector));
    proof {
        lemma_forced_halt_extends(halted, core.history(), start);
    }
    let value: u32 = read?;

    Ok(word_hex(value))
}

/// Serves `m`.
fn read_memory<M: Memory>(core: &mut M4<M>, address: u32, length: u32) -> (r: Result<
    Vec<u8>,
    Error,
>)
    ensures
        old(core).continued_by(final(core)),
        memory_reply(final(core).history(), old(core).clock(), address, length) == Some(
            (final(core).clock(), made(r)),
        ),
{
    let mut readback_data: Vec<u8> = vec![0u8; length as usize];
    core.read_block8(address, &mut readback_data)?;

    Ok(hex_encode(readback_data.as_slice()))
}

/// Serves `vCont;t`.
fn stop_core<M: Memory>(core: &mut M4<M>) -> (r: Result<(), Error>)
    ensures
        old(core).continued_by(final(core)),
        stop(final(core).history(), old(core).clock()) == Some((final(core).clock(), r)),
{
    let ghost start = core.clock();
    core.halt()?;
    let ghost halted = core.history();
    let waited = core.wait_for_core_halted();
    proof {
        trace::lemma_halt_extends(halted, core.history(), start);
    }
    waited
}

/// Serves `Z1`.
fn set_breakpoint_at<M: Memory>(core: &mut M4<M>, address: u32) -> (r: Result<(), Error>)
    requires
        old(core).wf(),
    ensures
        final(core).wf(),
        old(core).history().is_prefix_of(final(core).history()),
        insert_breakpoint(final(core).history(), old(core).clock(), old(core).units(), address)
            == Some((final(core).clock(), final(core).units(), r)),
{
    let ghost start = core.clock();
    let ghost units = core.units();
    core.reset_and_halt()?;
    let ghost halted = core.history();
    let ghost at_set = core.clock();

    let setting = core.set_hw_breakpoint(address);
    let ghost set = core.history();
    proof {
        trace::lemma_reset_and_halt_extends(halted, set, start);
    }
    setting?;

    let running = core.run();
    proof {
        trace::lemma_reset_and_halt_extends(halted, core.history(), start);
        trace::lemma_set_hw_breakpoint_extends(set, core.history(), at_set, units, address);
    }
    running
}

/// Serves `z1`.
fn clear_breakpoint_at<M: Memory>(core: &mut M4<M>, address: u32) -> (r: Result<(), Error>)
    requires
        old(core).wf(),
    ensures
        final(core).wf(),
        old(core).history().is_prefix_of(final(core).history()),
        remove_breakpoint(final(core).history(), old(core).clock(), old(core).units(), address)
            == Some((final(core).clock(), final(core).units(), r)),
{
    let ghost start = core.clock();
    let ghost units = core.units();
    core.reset_and_halt()?;
    let ghost halted = core.history();
    let ghost at_clear = core.clock();

    let clearing = core.clear_hw_breakpoint(address);
    let ghost cleared = core.history();
    proof {
        trace::lemma_reset_and_halt_extends(halted, cleared, start);
    }
    clearing?;

    let running = core.run();
    proof {
        trace::lemma_reset_and_halt_extends(halted, core.history(), start);
        trace::lemma_clear_hw_breakpoint_extends(cleared, core.history(), at_clear, units, address);
    }
    running
}

/// Serves the monitor command `reset`.
fn reset_core<M: Memory>(core: &mut M4<M>)
    ensures
        old(core).continued_by(final(core)),
        monitor_reset(final(core).history(), old(core).clock()) == Some(final(core).clock()),
{
    let ghost start = core.clock();
    let _ = core.reset();
    let ghost requested = core.history();
    let _ = core.halt();
    proof {
        trace::lemma_access_extends(requested, core.history(), start);
    }
}

/// Carries out `command`, which came in the payload `data`, and makes
/// its reply. An error of the engine ends the command where it occurs.
pub fn execute<M: Memory>(
    core: &mut M4<M>,
    awaits_halt: &mut bool,
    data: &[u8],
    command: Command,
) -> (r: Result<Response, Error>)
    requires
        old(core).wf(),
    ensures
        final(core).wf(),
        old(core).history().is_prefix_of(final(core).history()),
        found(
            serve(
                final(core).history(),
                old(core).clock(),
                old(core).units(),
                *old(awaits_halt),
                data@,
                command,
            ),
            final(core),
            *final(awaits_halt),
            r,
        ),
{
    match command {
        Command::Supported => say(features()),
        Command::Unsupported => say(Vec::new()),
        Command::Attached => say(attached()),
        Command::StopReason => say(stopped()),
        Command::GeneralRegisters => say(placeholder()),
        Command::Register { selector } => say(read_register(core, selector)?),
        Command::ReadMemory { address, length } => say(read_memory(core, address, length)?),
        Command::ResumeActions => say(resume_actions()),
        Command::Continue => {
            core.run()?;
            *awaits_halt = true;
            Ok(Response { reply: None, break_due: false })
        },
        Command::Stop => {
            stop_core(core)?;
            *awaits_halt = false;
            say(ok())
        },
        Command::Step => {
            core.step()?;
            *awaits_halt = false;
            say(stopped())
        },
        Command::InsertBreakpoint { address } => {
            set_breakpoint_at(core, address)?;
            say(ok())
        },
        Command::RemoveBreakpoint { address } => {
            clear_breakpoint_at(core, address)?;
            say(ok())
        },
        Command::WriteMemory { address, length } => {
            let length: usize = length as usize;
            if length > data.len() {
                return Err(Error::MalformedPacket);
            }
            let tail = slice_subrange(data, data.len() - length, data.len());
            core.write_block8(address, tail)?;
            say(ok())
        },
        Command::MemoryMap { offset, length } => say(
            gdb_sanitize_file(memory_map(), offset, length),
        ),
        Command::Interrupt => {
            force_halt(core)?;
            say(halt_notice())
        },
        Command::Detach => Ok(Response { reply: Some(ok()), break_due: true }),
        Command::MonitorReset => {
            reset_core(core);
            say(ok())
        },
        Command::Other => say(ok()),
    }
}

/// Reads the payload `data` as a command and carries it out. A payload
/// that holds no well-formed command is refused, and nothing is accessed.
pub fn dispatch<M: Memory>(core: &mut M4<M>, awaits_halt: &mut bool, data: &[u8]) -> (r: Result<
    Response,
    Error,
>)
    requires
        old(core).wf(),
    ensures
        final(core).wf(),
        old(core).history().is_prefix_of(final(core).history()),
        found(
            dispatched(
                final(core).history(),
                old(core).clock(),
                old(core).units(),
                *old(awaits_halt),
                data@,
            ),
            final(core),
            *final(awaits_halt),
            r,
        ),
{
    match parse(data) {
        Err(e) => Err(e),
        Ok(command) => execute(core, awaits_halt, data, command),
    }
}

/// What the worker does with a packet: the packet that goes to the
/// debugger, if there is one, and whether the session ends.
pub struct Outgoing {
    pub packet: Option<PacketView>,
    pub terminate: bool,
}

/// What the worker does with a packet.
#[derive(Debug, PartialEq, Eq)]
pub struct Handled {
    /// The reply, where the packet gets one now.
    pub response: Option<Packet>,
    /// Whether the session ends with this packet.
    pub break_due: bool,
}

impl View for Handled {
    type V = Outgoing;

    open spec fn view(&self) -> Outgoing {
        Outgoing {
            packet: match self.response {
                Some(packet) => Some(packet@),
                None => None,
            },
            terminate: self.break_due,
        }
    }
}

/// A reply as a packet.
pub open spec fn framed(reply: Reply) -> Outgoing {
    Outgoing {
        packet: match reply.text {
            Some(text) => Some(packet_of(text)),
            None => None,
        },
        terminate: reply.terminate,
    }
}

/// The result of a command as the result of its packet.
pub open spec fn sent(result: Result<Reply, Error>) -> Result<Outgoing, Error> {
    match result {
        Ok(reply) => Ok(framed(reply)),
        Err(e) => Err(e),
    }
}

/// A result as the record of a packet holds it.
pub open spec fn outgoing(r: Result<Handled, Error>) -> Result<Outgoing, Error> {
    match r {
        Ok(handled) => Ok(handled@),
        Err(e) => Err(e),
    }
}

/// What the worker does with a packet: one whose checksum characters do
/// not belong to its payload is dropped without a reply; the payload of
/// any other is dispatched.
pub open spec fn handled(
    t: Seq<Access>,
    at: int,
    units: Units,
    awaits_halt: bool,
    packet: PacketView,
) -> Option<Served> {
    if is_valid(packet) {
        dispatched(t, at, units, awaits_halt, packet.data)
    } else {
        Some(Served { end: at, units, awaits_halt, result: Ok(Reply { text: None, terminate: false }) })
    }
}

/// Whether `served` is what is found after a packet: the engine `core`,
/// the awaited halt, and the result `r` with each reply made a packet.
pub open spec fn delivered<M: Memory>(
    served: Option<Served>,
    core: &M4<M>,
    awaits_halt: bool,
    r: Result<Handled, Error>,
) -> bool {
    match served {
        Some(served) => served.end == core.clock() && served.units == core.units()
            && served.awaits_halt == awaits_halt && outgoing(r) == sent(served.result),
        None => false,
    }
}

/// Handles one packet of the debugger: checks it, carries out the command
/// in it, and makes the reply a packet.
pub fn handler<M: Memory>(core: &mut M4<M>, awaits_halt: &mut bool, packet: &Packet) -> (r: Result<
    Handled,
    Error,
>)
    requires
        old(core).wf(),
    ensures
        final(core).wf(),
        old(core).history().is_prefix_of(final(core).history()),
        delivered(
            handled(
                final(core).history(),
                old(core).clock(),
                old(core).units(),
                *old(awaits_halt),
                packet@,
            ),
            final(core),
            *final(awaits_halt),
            r,
        ),
{
    let mut break_due = false;
    let mut response: Option<Packet> = None;
    if packet.is_valid() {
        let done = dispatch(core, awaits_halt, packet.data.as_slice())?;
        break_due = done.break_due;
        if let Some(reply) = done.reply {
            response = Some(Packet::from_data(Kind::Packet, reply));
        }
    }
    Ok(Handled { response, break_due })
}

/// What a look at the core does while a halt is awaited or not: with no
/// halt awaited nothing is read; else DHCSR is read once, and a core that
/// has halted ends the wait. The result says whether the debugger is to
/// be told.
pub open spec fn halt_awaited(t: Seq<Access>, at: int, awaits_halt: bool) -> Option<
    (int, bool, Result<bool, Error>),
> {
    if awaits_halt {
        match trace::core_halted(t, at) {
            None => None,
            Some((end, Err(e))) => Some((end, true, Err(e))),
            Some((end, Ok(halted))) => Some((end, !halted, Ok(halted))),
        }
    } else {
        Some((at, false, Ok(false)))
    }
}

/// Looks whether the core has halted while a halt is awaited, and makes
/// the stop reply for the debugger if it has. The halt is then awaited no
/// longer, so that each halt is told once.
pub fn await_halt<M: Memory>(core: &mut M4<M>, awaits_halt: &mut bool) -> (r: Result<
    Option<Packet>,
    Error,
>)
    ensures
        old(core).continued_by(final(core)),
        match halt_awaited(final(core).history(), old(core).clock(), *old(awaits_halt)) {
            Some((end, awaited, told)) => end == final(core).clock()
                && awaited == *final(awaits_halt) && match told {
                Err(e) => r == Err::<Option<Packet>, Error>(e),
                Ok(true) => r matches Ok(Some(packet)) && packet@ == packet_of(
                    bytes_of("T05hwbreak:;"@),
                ),
                Ok(false) => r == Ok::<Option<Packet>, Error>(None),
            },
            None => false,
        },
{
    if *awaits_halt && core.core_halted()? {
        *awaits_halt = false;
        Ok(Some(Packet::from_data(Kind::Packet, halt_notice())))
    } else {
        Ok(None)
    }
}

/// What reaches the worker: a packet of the debugger, or the tick at
/// which the worker looks whether the core has halted.
#[derive(Debug, PartialEq, Eq)]
pub enum Event {
    Packet(Packet),
    Tick,
}

/// How a session ended: where in the record of accesses, with which
/// breakpoints, with a halt awaited or not, what was sent to the debugger,
/// and the error that ended it, if one did.
pub struct Ended {
    pub end: int,
    pub units: Units,
    pub awaits_halt: bool,
    pub output: Seq<PacketView>,
    pub result: Result<(), Error>,
}

/// What packets hold.
pub open spec fn views(packets: Seq<Packet>) -> Seq<PacketView> {
    Seq::new(packets.len(), |i: int| packets[i]@)
}

/// What has been sent once `outgoing` has been dealt with.
pub open spec fn with_packet(output: Seq<PacketView>, outgoing: Outgoing) -> Seq<PacketView> {
    match outgoing.packet {
        Some(packet) => output.push(packet),
        None => output,
    }
}

/// The session from event `next` on. The events are taken in order: a
/// packet is handled and its reply sent; at a tick the core is looked at
/// and a halt that was awaited is told. The session ends after the packet
/// that ends it, with the first error, or when the events have run out.
pub open spec fn session(
    t: Seq<Access>,
    at: int,
    units: Units,
    awaits_halt: bool,
    events: Seq<Event>,
    next: int,
    output: Seq<PacketView>,
) -> Option<Ended>
    decreases events.len() - next,
{
    if 0 <= next < events.len() {
        match events[next] {
            Event::Packet(packet) => match handled(t, at, units, awaits_halt, packet@) {
                None => None,
                Some(served) => match served.result {
                    Err(e) => Some(
                        Ended {
                            end: served.end,
                            units: served.units,
                            awaits_halt: served.awaits_halt,
                            output,
                            result: Err(e),
                        },
                    ),
                    Ok(reply) => if reply.terminate {
                        Some(
                            Ended {
                                end: served.end,
                                units: served.units,
                                awaits_halt: served.awaits_halt,
                                output: with_packet(output, framed(reply)),
                                result: Ok(()),
                            },
                        )
                    } else {
                        session(
                            t,
                            served.end,
                            served.units,
                            served.awaits_halt,
                            events,
                            next + 1,
                            with_packet(output, framed(reply)),
                        )
                    },
                },
            },
            Event::Tick => match halt_awaited(t, at, awaits_halt) {
                None => None,
                Some((end, _, Err(e))) => Some(
                    Ended { end, units, awaits_halt, output, result: Err(e) },
                ),
                Some((end, awaited, Ok(told))) => session(
                    t,
                    end,
                    units,
                    awaited,
                    events,
                    next + 1,
                    if told {
                        output.push(packet_of(bytes_of("T05hwbreak:;"@)))
                    } else {
                        output
                    },
                ),
            },
        }
    } else {
        Some(Ended { end: at, units, awaits_halt, output, result: Ok(()) })
    }
}

/// Whether `ended` is what is found after a session: the engine `core`,
/// what was sent, and the result `r`.
pub open spec fn closed<M: Memory>(
    ended: Option<Ended>,
    core: &M4<M>,
    output: Seq<PacketView>,
    r: Result<(), Error>,
) -> bool {
    match ended {
        Some(ended) => ended.end == core.clock() && ended.units == core.units() && ended.output
            == output && ended.result == r,
        None => false,
    }
}

/// Runs a session: takes the events in order, handles each packet and
/// sends its reply, and at each tick tells the debugger of a halt that was
/// awaited. At the start no halt is awaited. The session ends after the
/// packet that detaches, with the first error, or when the events have
/// run out.
pub fn worker<M: Memory>(events: &Vec<Event>, output: &mut Vec<Packet>, core: &mut M4<M>) -> (r:
    Result<(), Error>)
    requires
        old(core).wf(),
    ensures
        final(core).wf(),
        old(core).history().is_prefix_of(final(core).history()),
        closed(
            session(
                final(core).history(),
                old(core).clock(),
                old(core).units(),
                false,
                events@,
                0,
                views(old(output)@),
            ),
            final(core),
            views(final(output)@),
            r,
        ),
{
    let ghost start = core.clock();
    let ghost units = core.units();
    let ghost sent = views(output@);
    let mut awaits_halt = false;
    let mut next: usize = 0;
    while next < events.len()
        invariant
            next <= events.len(),
            core.wf(),
            old(core).history().is_prefix_of(core.history()),
            start == old(core).clock(),
            units == old(core).units(),
            sent == views(old(output)@),
            forall|longer: Seq<Access>| #[trigger]
                core.history().is_prefix_of(longer) ==> session(
                    longer,
                    start,
                    units,
                    false,
                    events@,
                    0,
                    sent,
                ) == session(
                    longer,
                    core.clock(),
                    core.units(),
                    awaits_halt,
                    events@,
                    next as int,
                    views(output@),
                ),
        decreases events.len() - next,
    {
        let ghost before = core.history();
        let ghost at = core.clock();
        let ghost units_before = core.units();
        let ghost awaited_before = awaits_halt;
        let ghost sent_before = views(output@);
        match &events[next] {
            Event::Packet(packet) => {
                let outcome = handler(core, &mut awaits_halt, packet);
                let ghost after = core.history();
                proof {
                    assert forall|longer: Seq<Access>| #[trigger]
                        after.is_prefix_of(longer) implies handled(
                        longer,
                        at,
                        units_before,
                        awaited_before,
                        packet@,
                    ) == handled(after, at, units_before, awaited_before, packet@)
                        && before.is_prefix_of(longer) by {
                        lemma_handled_extends(
                            after,
                            longer,
                            at,
                            units_before,
                            awaited_before,
                            packet@,
                        );
                        lemma_continues(before, after, longer);
                    }
                }
                let handled = outcome?;
                if let Some(response) = handled.response {
                    output.push(response);
                    assert(views(output@) =~= sent_before.push(response@));
                }
                if handled.break_due {
                    return Ok(());
                }
            },
            Event::Tick => {
                let outcome = await_halt(core, &mut awaits_halt);
                let ghost after = core.history();
                proof {
                    reveal_strlit("T05hwbreak:;");
                    assert forall|longer: Seq<Access>| #[trigger]
                        after.is_prefix_of(longer) implies halt_awaited(
                        longer,
                        at,
                        awaited_before,
                    ) == halt_awaited(after, at, awaited_before) && before.is_prefix_of(
                        longer,
                    ) by {
                        lemma_halt_awaited_extends(after, longer, at, awaited_before);
                        lemma_continues(before, after, longer);
                    }
                }
                if let Some(notice) = outcome? {
                    output.push(notice);
                    assert(views(output@) =~= sent_before.push(notice@));
                }
            },
        }
        next += 1;
    }
    proof {
        assert(core.history().is_prefix_of(core.history())) by {
            assert(core.history().subrange(0, core.history().len() as int) =~= core.history());
        }
    }
    Ok(())
}

/// A record that continues a record that continues `t` continues `t`.
pub proof fn lemma_continues(t: Seq<Access>, longer: Seq<Access>, longest: Seq<Access>)
    requires
        t.is_prefix_of(longer),
        longer.is_prefix_of(longest),
    ensures
        t.is_prefix_of(longest),
{
    assert forall|i: int| 0 <= i < t.len() implies t[i] == longest[i] by {
        trace::lemma_prefix_index(t, longer, i);
        trace::lemma_prefix_index(longer, longest, i);
    }
    assert(t =~= longest.subrange(0, t.len() as int));
}

/// A forced halt that `t` holds at `at` is held there by every record
/// that continues `t`.
pub proof fn lemma_forced_halt_extends(t: Seq<Access>, longer: Seq<Access>, at: int)
    requires
        t.is_prefix_of(longer),
        forced_halt(t, at).is_some(),
    ensures
        forced_halt(longer, at) == forced_halt(t, at),
{
    trace::lemma_halt_extends(t, longer, at);
    match trace::halt(t, at) {
        Some((requested, _)) => {
            trace::lemma_poll_extends(
                t,
                longer,
                requested,
                trace::S_HALT_BIT,
                trace::POLL_LIMIT as nat,
            );
        },
        None => {},
    }
}

/// A payload that begins with `c` or with `vCont;c` is the command to
/// continue.
pub proof fn lemma_continue_is_read(data: Seq<u8>)
    requires
        opens_with(data, "c"@) || opens_with(data, "vCont;c"@),
    ensures
        command_of(data) == Ok::<Command, Error>(Command::Continue),
{
    reveal_strlit("c");
    reveal_strlit("vCont;c");
    reveal_strlit("qSupported");
    reveal_strlit("vMustReplyEmpty");
    reveal_strlit("qTStatus");
    reveal_strlit("qTfV");
    reveal_strlit("qTsP");
    reveal_strlit("qfThreadInfo");
    reveal_strlit("qL");
    reveal_strlit("qC");
    reveal_strlit("qOffsets");
    reveal_strlit("Z0");
    reveal_strlit("qAttached");
    reveal_strlit("?");
    reveal_strlit("g");
    reveal_strlit("p");
    reveal_strlit("m");
    reveal_strlit("vCont?");
    let c = bytes_of("c"@);
    let vc = bytes_of("vCont;c"@);
    if opens_with(data, "c"@) {
        assert(data[0] == c[0]);
    } else {
        assert(data[0] == vc[0]);
        assert(data[1] == vc[1]);
        assert(data[5] == vc[5]);
    }
    assert(!opens_with(data, "qSupported"@)) by {
        assert(bytes_of("qSupported"@)[0] == 0x71);
    }
    assert(!opens_with(data, "vMustReplyEmpty"@)) by {
        assert(bytes_of("vMustReplyEmpty"@)[0] == 0x76);
        assert(bytes_of("vMustReplyEmpty"@)[1] == 0x4d);
    }
    assert(!opens_with(data, "qTStatus"@)) by {
        assert(bytes_of("qTStatus"@)[0] == 0x71);
    }
    assert(!opens_with(data, "qTfV"@)) by {
        assert(bytes_of("qTfV"@)[0] == 0x71);
    }
    assert(!opens_with(data, "qTsP"@)) by {
        assert(bytes_of("qTsP"@)[0] == 0x71);
    }
    assert(!opens_with(data, "qfThreadInfo"@)) by {
        assert(bytes_of("qfThreadInfo"@)[0] == 0x71);
    }
    assert(!opens_with(data, "qL"@)) by {
        assert(bytes_of("qL"@)[0] == 0x71);
    }
    assert(!opens_with(data, "qC"@)) by {
        assert(bytes_of("qC"@)[0] == 0x71);
    }
    assert(!opens_with(data, "qOffsets"@)) by {
        assert(bytes_of("qOffsets"@)[0] == 0x71);
    }
    assert(!opens_with(data, "Z0"@)) by {
        assert(bytes_of("Z0"@)[0] == 0x5a);
    }
    assert(!opens_with(data, "qAttached"@)) by {
        assert(bytes_of("qAttached"@)[0] == 0x71);
    }
    assert(!opens_with(data, "?"@)) by {
        assert(bytes_of("?"@)[0] == 0x3f);
    }
    assert(!opens_with(data, "g"@)) by {
        assert(bytes_of("g"@)[0] == 0x67);
    }
    assert(!opens_with(data, "p"@)) by {
        assert(bytes_of("p"@)[0] == 0x70);
    }
    assert(!opens_with(data, "m"@)) by {
        assert(bytes_of("m"@)[0] == 0x6d);
    }
    assert(!opens_with(data, "vCont?"@)) by {
        assert(bytes_of("vCont?"@)[0] == 0x76);
        assert(bytes_of("vCont?"@)[5] == 0x3f);
    }
}

/// The command to continue gets no reply, and leaves a halt awaited: where
/// the core could be let run, the worker says nothing to the debugger,
/// does not end the session, and waits for the core to halt.
pub proof fn lemma_continue_awaits_halt(
    t: Seq<Access>,
    at: int,
    units: Units,
    awaits_halt: bool,
    data: Seq<u8>,
)
    requires
        opens_with(data, "c"@) || opens_with(data, "vCont;c"@),
        dispatched(t, at, units, awaits_halt, data) is Some,
        dispatched(t, at, units, awaits_halt, data).unwrap().result is Ok,
    ensures
        dispatched(t, at, units, awaits_halt, data) == Some(
            Served {
                end: at + 1,
                units,
                awaits_halt: true,
                result: Ok(Reply { text: None, terminate: false }),
            },
        ),
{
    lemma_continue_is_read(data);
}

/// What `t` holds of a command at `at` is held there by every record that
/// continues `t`.
pub proof fn lemma_serve_extends(
    t: Seq<Access>,
    longer: Seq<Access>,
    at: int,
    units: Units,
    awaits_halt: bool,
    data: Seq<u8>,
    command: Command,
)
    requires
        t.is_prefix_of(longer),
        serve(t, at, units, awaits_halt, data, command) is Some,
    ensures
        serve(longer, at, units, awaits_halt, data, command) == serve(
            t,
            at,
            units,
            awaits_halt,
            data,
            command,
        ),
{
    match command {
        Command::Register { selector } => {
            lemma_forced_halt_extends(t, longer, at);
            match forced_halt(t, at) {
                Some((halted, Ok(_))) => {
                    trace::lemma_read_core_reg_extends(t, longer, halted, selector);
                },
                _ => {},
            }
        },
        Command::ReadMemory { address, length } => {
            trace::lemma_prefix_index(t, longer, at);
        },
        Command::Continue => {
            trace::lemma_access_extends(t, longer, at);
        },
        Command::Stop => {
            lemma_stop_extends(t, longer, at);
        },
        Command::Step => {
            trace::lemma_step_extends(t, longer, at);
        },
        Command::InsertBreakpoint { address } => {
            trace::lemma_reset_and_halt_extends(t, longer, at);
            match trace::reset_and_halt(t, at) {
                Some((halted, Ok(_))) => {
                    trace::lemma_set_hw_breakpoint_extends(t, longer, halted, units, address);
                    match trace::set_hw_breakpoint(t, halted, units, address) {
                        Some((set, _, Ok(_))) => {
                            trace::lemma_access_extends(t, longer, set);
                        },
                        _ => {},
                    }
                },
                _ => {},
            }
        },
        Command::RemoveBreakpoint { address } => {
            trace::lemma_reset_and_halt_extends(t, longer, at);
            match trace::reset_and_halt(t, at) {
                Some((halted, Ok(_))) => {
                    trace::lemma_clear_hw_breakpoint_extends(t, longer, halted, units, address);
                    match trace::clear_hw_breakpoint(t, halted, units, address) {
                        Some((cleared, _, Ok(_))) => {
                            trace::lemma_access_extends(t, longer, cleared);
                        },
                        _ => {},
                    }
                },
                _ => {},
            }
        },
        Command::WriteMemory { address, length } => {
            if length <= data.len() {
                trace::lemma_prefix_index(t, longer, at);
            }
        },
        Command::Interrupt => {
            lemma_forced_halt_extends(t, longer, at);
        },
        Command::MonitorReset => {
            trace::lemma_access_extends(t, longer, at);
            match trace::reset(t, at) {
                Some((requested, _)) => {
                    trace::lemma_halt_extends(t, longer, requested);
                },
                None => {},
            }
        },
        _ => {},
    }
}

/// A stop that `t` holds at `at` is held there by every record that
/// continues `t`.
pub proof fn lemma_stop_extends(t: Seq<Access>, longer: Seq<Access>, at: int)
    requires
        t.is_prefix_of(longer),
        stop(t, at).is_some(),
    ensures
        stop(longer, at) == stop(t, at),
{
    trace::lemma_halt_extends(t, longer, at);
    match trace::halt(t, at) {
        Some((halted, Ok(_))) => {
            trace::lemma_poll_extends(t, longer, halted, trace::S_HALT_BIT, trace::POLL_LIMIT as nat);
        },
        _ => {},
    }
}

/// What `t` holds of a packet at `at` is held there by every record that
/// continues `t`.
pub proof fn lemma_handled_extends(
    t: Seq<Access>,
    longer: Seq<Access>,
    at: int,
    units: Units,
    awaits_halt: bool,
    packet: PacketView,
)
    requires
        t.is_prefix_of(longer),
        handled(t, at, units, awaits_halt, packet) is Some,
    ensures
        handled(longer, at, units, awaits_halt, packet) == handled(
            t,
            at,
            units,
            awaits_halt,
            packet,
        ),
{
    if is_valid(packet) {
        match command_of(packet.data) {
            Ok(command) => {
                lemma_serve_extends(t, longer, at, units, awaits_halt, packet.data, command);
            },
            Err(_) => {},
        }
    }
}

/// What `t` holds of a look at the core at `at` is held there by every
/// record that continues `t`.
pub proof fn lemma_halt_awaited_extends(
    t: Seq<Access>,
    longer: Seq<Access>,
    at: int,
    awaits_halt: bool,
)
    requires
        t.is_prefix_of(longer),
        halt_awaited(t, at, awaits_halt) is Some,
    ensures
        halt_awaited(longer, at, awaits_halt) == halt_awaited(t, at, awaits_halt),
{
    trace::lemma_access_extends(t, longer, at);
}

/// A halt is told once: the look at the core that tells the debugger of a
/// halt ends the wait, and the next look reads nothing and tells nothing.
pub proof fn lemma_halt_is_told_once(t: Seq<Access>, at: int, awaits_halt: bool)
    requires
        halt_awaited(t, at, awaits_halt) is Some,
        halt_awaited(t, at, awaits_halt).unwrap().2 == Ok::<bool, Error>(true),
    ensures
        awaits_halt,
        !halt_awaited(t, at, awaits_halt).unwrap().1,
        halt_awaited(
            t,
            halt_awaited(t, at, awaits_halt).unwrap().0,
            halt_awaited(t, at, awaits_halt).unwrap().1,
        ) == Some((halt_awaited(t, at, awaits_halt).unwrap().0, false, Ok::<bool, Error>(false))),
{
}

} // verus!
