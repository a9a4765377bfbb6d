//! Wire identifiers and wire types.

use vstd::prelude::*;

use crate::text::{decimal, push_decimal};

verus! {

/// An identifier for a wire in an `HdlGraph`: its index in the
/// graph's wire list.
#[derive(Clone, Copy, Debug, PartialEq, Eq, Structural, Hash, PartialOrd, Ord)]
pub struct WireId(pub usize);

impl WireId {
    /// Construct from a raw index.
    pub fn new(index: usize) -> (r: WireId)
        ensures
            r.0 == index,
    {
        WireId(index)
    }

    /// The underlying index.
    pub fn index(self) -> (r: usize)
        ensures
            r == self.0,
    {
        self.0
    }

    /// The display text `w<index>`.
    pub fn to_display_string(self) -> (r: String)
        ensures
            r@ == wire_text(self.0 as nat),
    {
        let mut s = String::new();
        s.append("w");
        push_decimal(&mut s, self.0 as u128);
        proof {
            reveal_strlit("w");
        }
        s
    }
}

/// `w<index>`.
pub open spec fn wire_text(index: nat) -> Seq<char> {
    seq!['w'] + decimal(index)
}

/// The type carried on a hardware wire.
#[derive(Clone, Copy, Debug, PartialEq, Eq, Structural, Hash)]
pub enum WireTy {
    /// A single bit.
    Bit,
    /// An unsigned `n`-bit bus.
    Bits(u32),
    /// A two's-complement signed `n`-bit bus.
    Signed(u32),
    /// A fixed-depth array of `element_width`-bit elements.
    Array { element_width: u32, depth: usize },
}

/// The per-element bit width of a wire type.
pub open spec fn ty_width(t: WireTy) -> u32 {
    match t {
        WireTy::Bit => 1,
        WireTy::Bits(n) => n,
        WireTy::Signed(n) => n,
        WireTy::Array { element_width, depth } => element_width,
    }
}

/// The total storage bits of a wire type.
pub open spec fn ty_storage(t: WireTy) -> nat {
    match t {
        WireTy::Bit => 1,
        WireTy::Bits(n) => n as nat,
        WireTy::Signed(n) => n as nat,
        WireTy::Array { element_width, depth } => (element_width as nat) * (depth as nat),
    }
}

/// The display text of a wire type.
pub open spec fn ty_text(t: WireTy) -> Seq<char> {
    match t {
        WireTy::Bit => "bit"@,
        WireTy::Bits(n) => "Bits<"@ + decimal(n as nat) + ">"@,
        WireTy::Signed(n) => "SignedBits<"@ + decimal(n as nat) + ">"@,
        WireTy::Array { element_width, depth } => "Array<Bits<"@ + decimal(element_width as nat) + ">, "@
            + decimal(depth as nat) + ">"@,
    }
}

impl WireTy {
    /// The per-element bit width (the element width for arrays).
    pub fn width(&self) -> (r: u32)
        ensures
            r == ty_width(*self),
    {
        match self {
            WireTy::Bit => 1,
            WireTy::Bits(n) => *n,
            WireTy::Signed(n) => *n,
            WireTy::Array { element_width, depth: _ } => *element_width,
        }
    }

    /// The array depth, or `None` for scalar wires.
    pub fn depth(&self) -> (r: Option<usize>)
        ensures
            r == (match *self {
                WireTy::Array { element_width, depth } => Some(depth),
                _ => None::<usize>,
            }),
    {
        match self {
            WireTy::Array { element_width: _, depth } => Some(*depth),
            _ => None,
        }
    }

    /// Total storage in bits: the width for scalars,
    /// `element_width * depth` for arrays.
    pub fn storage_bits(&self) -> (r: usize)
        requires
            ty_storage(*self) <= usize::MAX,
        ensures
            r == ty_storage(*self),
    {
        match self {
            WireTy::Bit => 1,
            WireTy::Bits(n) => *n as usize,
            WireTy::Signed(n) => *n as usize,
            WireTy::Array { element_width, depth } => (*element_width as usize) * *depth,
        }
    }

    /// The display text, e.g. `bit`, `Bits<12>`, `Array<Bits<64>, 8>`.
    pub fn to_display_string(&self) -> (r: String)
        ensures
            r@ == ty_text(*self),
    {
        let mut s = String::new();
        self.push_display(&mut s);
        proof {
            assert(Seq::<char>::empty() + ty_text(*self) =~= ty_text(*self));
        }
        s
    }

    /// Append the display text to `s`.
    pub fn push_display(&self, s: &mut String)
        ensures
            final(s)@ == old(s)@ + ty_text(*self),
    {
        proof {
            reveal_strlit("bit");
            reveal_strlit("Bits<");
            reveal_strlit("SignedBits<");
            reveal_strlit(">");
            reveal_strlit("Array<Bits<");
            reveal_strlit(">, ");
        }
        let ghost start = s@;
        match self {
            WireTy::Bit => {
                s.append("bit");
            },
            WireTy::Bits(n) => {
                s.append("Bits<");
                push_decimal(s, *n as u128);
                s.append(">");
            },
            WireTy::Signed(n) => {
                s.append("SignedBits<");
                push_decimal(s, *n as u128);
                s.append(">");
            },
            WireTy::Array { element_width, depth } => {
                s.append("Array<Bits<");
                push_decimal(s, *element_width as u128);
                s.append(">, ");
                push_decimal(s, *depth as u128);
                s.append(">");
            },
        }
        proof {
            assert(s@ =~= start + ty_text(*self));
        }
    }
}

/// A declared wire: an identifier paired with its type.
#[derive(Clone, Copy, Debug, PartialEq, Eq, Structural, Hash)]
pub struct Wire {
    pub id: WireId,
    pub ty: WireTy,
}

impl Wire {
    /// Construct a declared wire.
    pub fn new(id: WireId, ty: WireTy) -> (r: Wire)
        ensures
            r.id == id,
            r.ty == ty,
    {
        Wire { id, ty }
    }

    /// The wire's identifier.
    pub fn id(&self) -> (r: WireId)
        ensures
            r == self.id,
    {
        self.id
    }

    /// The wire's type.
    pub fn ty(&self) -> (r: &WireTy)
        ensures
            *r == self.ty,
    {
        &self.ty
    }
}

} // verus!
