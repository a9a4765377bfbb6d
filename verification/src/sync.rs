//! Synchronous (Mealy) machines as stateful circuit arrows, and their
//! sequential, parallel and feedback composition.

pub mod machine;
pub mod compose;
pub mod laws;
