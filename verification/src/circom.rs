//! Circom emission: a typed AST, a renderer to a self-contained
//! `circom 2.0.0` file, bit-level emitters from IR graphs (plain and
//! time-unrolled), and a witness model of what the emitted statements
//! compute.

pub mod ast;
pub mod render;
pub mod lower;
pub mod emitter;
pub mod semantics;
