//! Verilog emission: an AST, a renderer, and emitters from IR graphs
//! and machines.

pub mod ast;
pub mod render;
pub mod emitter;
