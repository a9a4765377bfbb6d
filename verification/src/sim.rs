//! A cycle-accurate simulator for [`crate::sync::machine::Sync`]
//! machines: an IR interpreter, a testbench that threads state across
//! cycles, and VCD trace output.

pub mod interp;
pub mod sample;
pub mod testbench;
pub mod vcd;
