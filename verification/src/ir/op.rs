//! Primitive hardware operations.

use vstd::prelude::*;

use crate::bit_seq::BitSeq;
use crate::ir::wire::{WireTy, ty_text};
use crate::text::{decimal, push_decimal};

verus! {

/// A binary gate over buses of matching width.
#[derive(Clone, Copy, Debug, PartialEq, Eq, Structural, Hash)]
pub enum BinOp {
    /// Bitwise AND.
    And,
    /// Bitwise OR.
    Or,
    /// Bitwise XOR.
    Xor,
    /// Unsigned wrap-around addition.
    Add,
    /// Unsigned wrap-around subtraction.
    Sub,
    /// Unsigned wrap-around multiplication.
    Mul,
    /// Equality comparison (1-bit output).
    Eq,
    /// Unsigned less-than comparison (1-bit output).
    Lt,
}

/// The mnemonic of a binary op.
pub open spec fn binop_text(b: BinOp) -> Seq<char> {
    match b {
        BinOp::And => "and"@,
        BinOp::Or => "or"@,
        BinOp::Xor => "xor"@,
        BinOp::Add => "add"@,
        BinOp::Sub => "sub"@,
        BinOp::Mul => "mul"@,
        BinOp::Eq => "eq"@,
        BinOp::Lt => "lt"@,
    }
}

impl BinOp {
    /// Whether the op produces a 1-bit result regardless of width.
    pub fn is_comparison(self) -> (r: bool)
        ensures
            r == (self == BinOp::Eq || self == BinOp::Lt),
    {
        match self {
            BinOp::Eq | BinOp::Lt => true,
            _ => false,
        }
    }

    /// The mnemonic, e.g. `xor`.
    pub fn mnemonic(self) -> (r: &'static str)
        ensures
            r@ == binop_text(self),
    {
        proof {
            reveal_strlit("and");
            reveal_strlit("or");
            reveal_strlit("xor");
            reveal_strlit("add");
            reveal_strlit("sub");
            reveal_strlit("mul");
            reveal_strlit("eq");
            reveal_strlit("lt");
        }
        match self {
            BinOp::And => "and",
            BinOp::Or => "or",
            BinOp::Xor => "xor",
            BinOp::Add => "add",
            BinOp::Sub => "sub",
            BinOp::Mul => "mul",
            BinOp::Eq => "eq",
            BinOp::Lt => "lt",
        }
    }
}

/// A primitive hardware operation.
#[derive(Debug, PartialEq, Eq)]
pub enum Op {
    /// Bitwise NOT (one input).
    Not,
    /// A binary gate (two inputs).
    Bin(BinOp),
    /// 2:1 multiplexer; inputs `[selector, false_arm, true_arm]`.
    Mux,
    /// A literal constant (no inputs).
    Const { bits: BitSeq, ty: WireTy },
    /// A one-cycle delay register (one input).
    Reg { init: BitSeq, ty: WireTy },
    /// Bus concatenation; inputs `[low, high]`.
    Concat { low_width: u32, high_width: u32 },
    /// Bits `[lo, hi)` of the single input.
    Slice { lo: u32, hi: u32 },
    /// Shift a new element into the low end of an array, dropping the
    /// highest element; inputs `[array, element]`.
    ArrayShiftIn { element_width: u32, depth: usize },
    /// The highest element of an array; one input.
    ArrayTail { element_width: u32, depth: usize },
}

/// The mathematical content of an [`Op`].
pub ghost enum OpSpec {
    Not,
    Bin(BinOp),
    Mux,
    Const { bits: Seq<bool>, ty: WireTy },
    Reg { init: Seq<bool>, ty: WireTy },
    Concat { low_width: u32, high_width: u32 },
    Slice { lo: u32, hi: u32 },
    ArrayShiftIn { element_width: u32, depth: usize },
    ArrayTail { element_width: u32, depth: usize },
}

impl View for Op {
    type V = OpSpec;

    open spec fn view(&self) -> OpSpec {
        match *self {
            Op::Not => OpSpec::Not,
            Op::Bin(b) => OpSpec::Bin(b),
            Op::Mux => OpSpec::Mux,
            Op::Const { bits, ty } => OpSpec::Const { bits: bits@, ty },
            Op::Reg { init, ty } => OpSpec::Reg { init: init@, ty },
            Op::Concat { low_width, high_width } => OpSpec::Concat { low_width, high_width },
            Op::Slice { lo, hi } => OpSpec::Slice { lo, hi },
            Op::ArrayShiftIn { element_width, depth } => OpSpec::ArrayShiftIn { element_width, depth },
            Op::ArrayTail { element_width, depth } => OpSpec::ArrayTail { element_width, depth },
        }
    }
}

/// The number of inputs an op consumes.
pub open spec fn arity(op: OpSpec) -> nat {
    match op {
        OpSpec::Not => 1,
        OpSpec::Reg { .. } => 1,
        OpSpec::Slice { .. } => 1,
        OpSpec::ArrayTail { .. } => 1,
        OpSpec::Bin(_) => 2,
        OpSpec::Concat { .. } => 2,
        OpSpec::ArrayShiftIn { .. } => 2,
        OpSpec::Mux => 3,
        OpSpec::Const { .. } => 0,
    }
}

/// The display text of an op.
pub open spec fn op_text(op: OpSpec) -> Seq<char> {
    match op {
        OpSpec::Not => "not"@,
        OpSpec::Bin(b) => binop_text(b),
        OpSpec::Mux => "mux"@,
        OpSpec::Const { bits, ty } => "const:"@ + ty_text(ty),
        OpSpec::Reg { init, ty } => "reg:"@ + ty_text(ty),
        OpSpec::Concat { low_width, high_width } => "concat<"@ + decimal(low_width as nat) + ","@
            + decimal(high_width as nat) + ">"@,
        OpSpec::Slice { lo, hi } => "slice["@ + decimal(lo as nat) + ".."@ + decimal(hi as nat) + "]"@,
        OpSpec::ArrayShiftIn { element_width, depth } => "array_shift_in<"@ + decimal(
            element_width as nat,
        ) + ","@ + decimal(depth as nat) + ">"@,
        OpSpec::ArrayTail { element_width, depth } => "array_tail<"@ + decimal(element_width as nat)
            + ","@ + decimal(depth as nat) + ">"@,
    }
}

impl Clone for Op {
    fn clone(&self) -> (r: Self)
        ensures
            r@ == self@,
    {
        match self {
            Op::Not => Op::Not,
            Op::Bin(b) => Op::Bin(*b),
            Op::Mux => Op::Mux,
            Op::Const { bits, ty } => Op::Const { bits: bits.clone(), ty: *ty },
            Op::Reg { init, ty } => Op::Reg { init: init.clone(), ty: *ty },
            Op::Concat { low_width, high_width } => Op::Concat { low_width: *low_width, high_width: *high_width },
            Op::Slice { lo, hi } => Op::Slice { lo: *lo, hi: *hi },
            Op::ArrayShiftIn { element_width, depth } => Op::ArrayShiftIn { element_width: *element_width, depth: *depth },
            Op::ArrayTail { element_width, depth } => Op::ArrayTail { element_width: *element_width, depth: *depth },
        }
    }
}

impl Op {
    /// The number of inputs this op consumes.
    pub fn arity(&self) -> (r: usize)
        ensures
            r == arity(self@),
    {
        match self {
            Op::Not | Op::Reg { .. } | Op::Slice { .. } | Op::ArrayTail { .. } => 1,
            Op::Bin(_) | Op::Concat { .. } | Op::ArrayShiftIn { .. } => 2,
            Op::Mux => 3,
            Op::Const { .. } => 0,
        }
    }

    /// The display text, e.g. `not`, `xor`, `slice[0..8]`.
    pub fn to_display_string(&self) -> (r: String)
        ensures
            r@ == op_text(self@),
    {
        let mut s = String::new();
        self.push_display(&mut s);
        proof {
            assert(Seq::<char>::empty() + op_text(self@) =~= op_text(self@));
        }
        s
    }

    /// Append the display text to `s`.
    pub fn push_display(&self, s: &mut String)
        ensures
            final(s)@ == old(s)@ + op_text(self@),
    {
        proof {
            reveal_strlit("not");
            reveal_strlit("mux");
            reveal_strlit("const:");
            reveal_strlit("reg:");
            reveal_strlit("concat<");
            reveal_strlit(",");
            reveal_strlit(">");
            reveal_strlit("slice[");
            reveal_strlit("..");
            reveal_strlit("]");
            reveal_strlit("array_shift_in<");
            reveal_strlit("array_tail<");
        }
        let ghost start = s@;
        match self {
            Op::Not => {
                s.append("not");
            },
            Op::Bin(b) => {
                s.append(b.mnemonic());
            },
            Op::Mux => {
                s.append("mux");
            },
            Op::Const { bits: _, ty } => {
                s.append("const:");
                ty.push_display(s);
            },
            Op::Reg { init: _, ty } => {
                s.append("reg:");
                ty.push_display(s);
            },
            Op::Concat { low_width, high_width } => {
                s.append("concat<");
                push_decimal(s, *low_width as u128);
                s.append(",");
                push_decimal(s, *high_width as u128);
                s.append(">");
            },
            Op::Slice { lo, hi } => {
                s.append("slice[");
                push_decimal(s, *lo as u128);
                s.append("..");
                push_decimal(s, *hi as u128);
                s.append("]");
            },
            Op::ArrayShiftIn { element_width, depth } => {
                s.append("array_shift_in<");
                push_decimal(s, *element_width as u128);
                s.append(",");
                push_decimal(s, *depth as u128);
                s.append(">");
            },
            Op::ArrayTail { element_width, depth } => {
                s.append("array_tail<");
                push_decimal(s, *element_width as u128);
                s.append(",");
                push_decimal(s, *depth as u128);
                s.append(">");
            },
        }
        proof {
            assert(s@ =~= start + op_text(self@));
        }
    }
}

} // verus!
