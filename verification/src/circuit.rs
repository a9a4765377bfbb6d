//! Circuits as a symmetric monoidal category: objects are typed wire
//! bundles, morphisms are IR graphs with designated input and output
//! wires.

pub mod object;
pub mod arrow;
pub mod category;
pub mod coherence;
pub mod gates;
pub mod laws;
