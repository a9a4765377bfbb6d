//! A value tagged with the simulation cycle it was sampled at.

use vstd::prelude::*;

use crate::error::Cycle;

verus! {

/// A value sampled at a given cycle.
#[derive(Clone, Debug, PartialEq, Eq)]
pub struct TimedSample<T> {
    cycle: Cycle,
    value: T,
}

impl<T> TimedSample<T> {
    /// The cycle the sample was taken at.
    pub closed spec fn cycle_spec(&self) -> Cycle {
        self.cycle
    }

    /// The sampled value.
    pub closed spec fn value_spec(&self) -> T {
        self.value
    }

    /// Tag `value` with `cycle`.
    pub fn new(cycle: Cycle, value: T) -> (r: Self)
        ensures
            r.cycle_spec() == cycle,
            r.value_spec() == value,
    {
        TimedSample { cycle, value }
    }

    /// The cycle the sample was taken at.
    pub fn cycle(&self) -> (r: Cycle)
        ensures
            r == self.cycle_spec(),
    {
        self.cycle
    }

    /// The sampled value.
    pub fn value(&self) -> (r: &T)
        ensures
            *r == self.value_spec(),
    {
        &self.value
    }

    /// The sampled value, consuming the sample.
    pub fn into_value(self) -> (r: T)
        ensures
            r == self.value_spec(),
    {
        self.value
    }
}

} // verus!
