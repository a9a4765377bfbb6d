//! The crate-wide error type and its small domain newtypes.

use vstd::prelude::*;
use vstd::std_specs::convert::FromSpecImpl;
use comp_cat_rs::collapse::free_category::FreeCategoryError;
use core::num::ParseIntError;

use crate::text::{decimal, push_decimal};

verus! {

#[verifier::external_type_specification]
#[verifier::external_body]
pub struct ExParseIntError(ParseIntError);

#[verifier::external_type_specification]
#[verifier::external_body]
pub struct ExFreeCategoryError(FreeCategoryError);

#[verifier::external_type_specification]
#[verifier::external_body]
pub struct ExIoError(std::io::Error);

#[verifier::external_type_specification]
#[verifier::external_body]
pub struct ExFmtError(core::fmt::Error);

/// A bit width, measured in bits.
#[derive(Clone, Copy, Debug, PartialEq, Eq, Structural, Hash)]
pub struct Width(u32);

impl View for Width {
    type V = u32;

    closed spec fn view(&self) -> u32 {
        self.0
    }
}

impl Width {
    /// Construct a `Width` from a raw bit count.
    pub fn new(bits: u32) -> (r: Width)
        ensures
            r@ == bits,
    {
        Width(bits)
    }

    /// The underlying bit count.
    pub fn bits(self) -> (r: u32)
        ensures
            r == self@,
    {
        self.0
    }

    /// A width from a `usize` count, saturating at `u32::MAX`.
    pub fn saturating(n: usize) -> (r: Width)
        ensures
            r@ == saturating_u32(n as nat),
    {
        if n <= u32::MAX as usize {
            Width(n as u32)
        } else {
            Width(u32::MAX)
        }
    }
}

/// `n` as a `u32`, or `u32::MAX` when it does not fit.
pub open spec fn saturating_u32(n: nat) -> u32 {
    if n <= u32::MAX {
        n as u32
    } else {
        u32::MAX
    }
}

/// A cycle index in a simulation.
#[derive(Clone, Copy, Debug, PartialEq, Eq, Structural, Hash, PartialOrd, Ord)]
pub struct Cycle(u64);

impl View for Cycle {
    type V = u64;

    closed spec fn view(&self) -> u64 {
        self.0
    }
}

impl Cycle {
    /// Construct a `Cycle` from a raw index.
    pub fn new(index: u64) -> (r: Cycle)
        ensures
            r@ == index,
    {
        Cycle(index)
    }

    /// The underlying cycle index.
    pub fn index(self) -> (r: u64)
        ensures
            r == self@,
    {
        self.0
    }
}

/// A human-readable type name used in mismatch diagnostics.
#[derive(Clone, Debug, PartialEq, Eq, Hash)]
pub struct TypeName(String);

impl View for TypeName {
    type V = Seq<char>;

    closed spec fn view(&self) -> Seq<char> {
        self.0@
    }
}

impl TypeName {
    /// Construct a `TypeName` from a string.
    pub fn new(name: &str) -> (r: TypeName)
        ensures
            r@ == name@,
    {
        TypeName(name.to_string())
    }

    /// Construct a `TypeName` taking ownership of a string.
    pub fn from_string(name: String) -> (r: TypeName)
        ensures
            r@ == name@,
    {
        TypeName(name)
    }

    /// The underlying string.
    pub fn as_str(&self) -> (r: &str)
        ensures
            r@ == self@,
    {
        self.0.as_str()
    }
}

/// A signal name used in trace / codegen diagnostics.
#[derive(Clone, Debug, PartialEq, Eq, Hash)]
pub struct SignalName(String);

impl View for SignalName {
    type V = Seq<char>;

    closed spec fn view(&self) -> Seq<char> {
        self.0@
    }
}

impl SignalName {
    /// Construct a `SignalName` from a string.
    pub fn new(name: &str) -> (r: SignalName)
        ensures
            r@ == name@,
    {
        SignalName(name.to_string())
    }

    /// Construct a `SignalName` taking ownership of a string.
    pub fn from_string(name: String) -> (r: SignalName)
        ensures
            r@ == name@,
    {
        SignalName(name)
    }

    /// The underlying string.
    pub fn as_str(&self) -> (r: &str)
        ensures
            r@ == self@,
    {
        self.0.as_str()
    }
}

/// The crate-wide error enum.
#[derive(Debug)]
#[allow(inconsistent_fields)]
pub enum Error {
    /// Underlying I/O failure.
    Io(std::io::Error),
    /// Underlying formatter failure.
    Fmt(core::fmt::Error),
    /// Underlying integer parse failure.
    ParseInt(ParseIntError),
    /// A free-category graph query failed.
    FreeCategory(FreeCategoryError),
    /// A value did not fit its declared hardware width.
    WidthMismatch {
        /// The width declared by the target type.
        expected: Width,
        /// The width actually supplied.
        actual: Width,
    },
    /// A hardware value's runtime type does not match the expected type.
    TypeMismatch {
        /// The expected type's display name.
        expected: TypeName,
        /// The actual type's display name.
        actual: TypeName,
    },
    /// Two signals from different clock domains were composed.
    ClockDomainMismatch,
    /// A signal referenced in an IR or codegen pass was never defined.
    UndefinedSignal {
        /// The name that could not be resolved.
        name: SignalName,
    },
    /// A simulation read a register before the first clock edge.
    ImmatureSim {
        /// The cycle at which the read was attempted.
        cycle: Cycle,
    },
    /// A value overflowed its declared range during arithmetic.
    Overflow {
        /// The width of the operation that overflowed.
        width: Width,
    },
    /// The Circom backend has no lowering for a construct.
    UnsupportedInCircom(&'static str),
}

impl Error {
    /// `self` is a width mismatch between the two (saturated) widths.
    pub open spec fn is_width_mismatch(&self, expected: nat, actual: nat) -> bool {
        &&& self matches Error::WidthMismatch { expected: e, actual: a }
        &&& e@ == saturating_u32(expected)
        &&& a@ == saturating_u32(actual)
    }

    /// A width-mismatch error between two `usize` widths (each
    /// saturating at `u32::MAX`).
    pub fn width_mismatch(expected: usize, actual: usize) -> (e: Error)
        ensures
            e.is_width_mismatch(expected as nat, actual as nat),
    {
        Error::WidthMismatch { expected: Width::saturating(expected), actual: Width::saturating(actual) }
    }
}

impl From<std::io::Error> for Error {
    fn from(e: std::io::Error) -> (r: Error) {
        Error::Io(e)
    }
}

impl FromSpecImpl<std::io::Error> for Error {
    open spec fn obeys_from_spec() -> bool {
        true
    }

    open spec fn from_spec(v: std::io::Error) -> Error {
        Error::Io(v)
    }
}

impl From<core::fmt::Error> for Error {
    fn from(e: core::fmt::Error) -> (r: Error) {
        Error::Fmt(e)
    }
}

impl FromSpecImpl<core::fmt::Error> for Error {
    open spec fn obeys_from_spec() -> bool {
        true
    }

    open spec fn from_spec(v: core::fmt::Error) -> Error {
        Error::Fmt(v)
    }
}

impl From<FreeCategoryError> for Error {
    fn from(e: FreeCategoryError) -> (r: Error) {
        Error::FreeCategory(e)
    }
}

impl FromSpecImpl<FreeCategoryError> for Error {
    open spec fn obeys_from_spec() -> bool {
        true
    }

    open spec fn from_spec(v: FreeCategoryError) -> Error {
        Error::FreeCategory(v)
    }
}

impl From<ParseIntError> for Error {
    fn from(e: ParseIntError) -> (r: Error) {
        Error::ParseInt(e)
    }
}

impl FromSpecImpl<ParseIntError> for Error {
    open spec fn obeys_from_spec() -> bool {
        true
    }

    open spec fn from_spec(v: ParseIntError) -> Error {
        Error::ParseInt(v)
    }
}

/// `<n> bit(s)`.
pub open spec fn width_text(n: u32) -> Seq<char> {
    decimal(n as nat) + " bit(s)"@
}

/// `cycle <i>`.
pub open spec fn cycle_text(i: u64) -> Seq<char> {
    "cycle "@ + decimal(i as nat)
}

impl Width {
    /// The display text, e.g. `8 bit(s)`.
    pub fn to_display_string(self) -> (r: String)
        ensures
            r@ == width_text(self@),
    {
        let mut s = String::new();
        push_decimal(&mut s, self.0 as u128);
        s.append(" bit(s)");
        proof {
            assert(s@ =~= width_text(self@));
        }
        s
    }
}

impl Cycle {
    /// The display text, e.g. `cycle 3`.
    pub fn to_display_string(self) -> (r: String)
        ensures
            r@ == cycle_text(self@),
    {
        let mut s = String::new();
        s.append("cycle ");
        push_decimal(&mut s, self.0 as u128);
        proof {
            assert(s@ =~= cycle_text(self@));
        }
        s
    }
}

/// The prefix of the display text of an error wrapping an outside
/// error, whose own text follows it.
pub open spec fn wrapped_prefix(e: Error) -> Option<Seq<char>> {
    match e {
        Error::Io(_) => Some("I/O error: "@),
        Error::Fmt(_) => Some("formatter error: "@),
        Error::ParseInt(_) => Some("parse-int error: "@),
        Error::FreeCategory(_) => Some("free-category error: "@),
        _ => None,
    }
}

/// The display text of an error of this crate's own kinds.
pub open spec fn error_text(e: Error) -> Seq<char> {
    match e {
        Error::WidthMismatch { expected, actual } => "width mismatch: expected "@ + width_text(expected@) + ", got "@
            + width_text(actual@),
        Error::TypeMismatch { expected, actual } => "type mismatch: expected "@ + expected@ + ", got "@ + actual@,
        Error::ClockDomainMismatch => "clock domain mismatch"@,
        Error::UndefinedSignal { name } => "undefined signal: "@ + name@,
        Error::ImmatureSim { cycle } => "simulation read before first clock edge at "@ + cycle_text(cycle@),
        Error::Overflow { width } => "arithmetic overflow at "@ + width_text(width@),
        Error::UnsupportedInCircom(m) => "unsupported in circom: "@ + m@,
        _ => Seq::empty(),
    }
}

impl Error {
    /// The display text: for a wrapped outside error, a prefix naming
    /// its kind followed by its own text; otherwise the message of
    /// [`error_text`].
    pub fn to_display_string(&self) -> (r: String)
        ensures
            wrapped_prefix(*self) matches Some(p) ==> r@.len() >= p.len() && r@.take(p.len() as int) == p,
            wrapped_prefix(*self) is None ==> r@ == error_text(*self),
    {
        let mut s = String::new();
        match self {
            Error::Io(e) => {
                s.append("I/O error: ");
                let t = e.to_string();
                s.append(t.as_str());
            },
            Error::Fmt(e) => {
                s.append("formatter error: ");
                let t = e.to_string();
                s.append(t.as_str());
            },
            Error::ParseInt(e) => {
                s.append("parse-int error: ");
                let t = e.to_string();
                s.append(t.as_str());
            },
            Error::FreeCategory(e) => {
                s.append("free-category error: ");
                let t = e.to_string();
                s.append(t.as_str());
            },
            Error::WidthMismatch { expected, actual } => {
                s.append("width mismatch: expected ");
                let a = expected.to_display_string();
                s.append(a.as_str());
                s.append(", got ");
                let b = actual.to_display_string();
                s.append(b.as_str());
            },
            Error::TypeMismatch { expected, actual } => {
                s.append("type mismatch: expected ");
                s.append(expected.as_str());
                s.append(", got ");
                s.append(actual.as_str());
            },
            Error::ClockDomainMismatch => {
                s.append("clock domain mismatch");
            },
            Error::UndefinedSignal { name } => {
                s.append("undefined signal: ");
                s.append(name.as_str());
            },
            Error::ImmatureSim { cycle } => {
                s.append("simulation read before first clock edge at ");
                let c = cycle.to_display_string();
                s.append(c.as_str());
            },
            Error::Overflow { width } => {
                s.append("arithmetic overflow at ");
                let w = width.to_display_string();
                s.append(w.as_str());
            },
            Error::UnsupportedInCircom(m) => {
                s.append("unsupported in circom: ");
                s.append(m);
            },
        }
        proof {
            match wrapped_prefix(*self) {
                Some(p) => {
                    assert(s@.take(p.len() as int) =~= p);
                },
                None => {
                    assert(s@ =~= error_text(*self));
                },
            }
        }
        s
    }
}

} // verus!
