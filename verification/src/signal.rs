//! Clock-domain-indexed signals: sample streams tagged with a
//! zero-sized clock-domain marker, and reset lines.

pub mod domain;
pub mod signal;

pub use domain::{Blue, ClockDomain, Red};
pub use signal::{Reset, Signal};
