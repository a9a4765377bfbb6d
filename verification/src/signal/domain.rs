//! Clock domain marker types.

use vstd::prelude::*;

verus! {

/// A clock domain: a zero-sized, copyable marker type with a
/// human-readable name.
pub trait ClockDomain: Copy + Send + Sync + 'static {
    /// The domain's name.
    const NAME: &'static str;
}

/// The "red" clock domain.
#[derive(Copy, Clone, Debug, Default)]
pub struct Red;

impl ClockDomain for Red {
    const NAME: &'static str = "red";
}

/// The "blue" clock domain.
#[derive(Copy, Clone, Debug, Default)]
pub struct Blue;

impl ClockDomain for Blue {
    const NAME: &'static str = "blue";
}

} // verus!
