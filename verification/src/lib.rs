//! A bridge between a debugger that speaks the GDB remote serial protocol
//! and the debug unit of an ARM Cortex-M4 core.
//!
//! * [`registers`] models the debug registers as 32-bit words with named bit
//!   fields, over the bit operations of [`bits`].
//! * [`memory`] is the capability through which the target is reached; it
//!   keeps the record of the accesses made. [`target`] is a target of plain
//!   memory that implements it.
//! * [`m4`] is the debug engine: halt, run, step and reset, core register
//!   transfers, hardware breakpoints. [`trace`] says for each operation which
//!   accesses it makes and what it returns for every answer of the target;
//!   [`shape`] proves what follows for the order and number of the accesses.
//! * [`command`] reads a packet's payload as a command, with the numbers of
//!   [`hex`]; [`worker`] carries commands out and runs a session;
//!   [`memory_map`] serves the memory map; [`packet`] holds the packets of
//!   the codec.
pub mod bits;
pub mod command;
pub mod error;
pub mod hex;
pub mod m4;
pub mod memory;
pub mod memory_map;
pub mod packet;
pub mod registers;
pub mod shape;
pub mod target;
pub mod trace;
pub mod worker;
