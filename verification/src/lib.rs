//! Hardware description: bit-precise values, a typed gate IR, circuits
//! as composable arrows, Mealy machines, a cycle simulator, and
//! Verilog / Circom emitters.

pub mod arith;
pub mod error;
pub mod bits;
pub mod text;
pub mod bit_seq;
pub mod ty_desc;
pub mod hw;
pub mod ir;
pub mod circuit;
pub mod sync;
pub mod deferred;
pub mod sim;
pub mod components;
pub mod verilog;
pub mod circom;
pub mod kernel;
pub mod signal;
pub mod laws;
