//! The hardware IR: typed wires, gate operations, instructions, and
//! the flat dataflow graph that holds them.

pub mod wire;
pub mod op;
pub mod instr;
pub mod graph;
pub mod builder;
