//! Single-gate circuits over bit buses and single bits.

use vstd::prelude::*;

use crate::bits::Bits;
use crate::circuit::arrow::{CircuitArrow, primitive_arrow, primitive_spec};
use crate::circuit::object::{CircuitTensor, Obj};
use crate::error::{Error, Width};
use crate::ir::op::{BinOp, Op, OpSpec};
use crate::ir::wire::WireTy;

verus! {

/// A two-input, one-output gate over `N`-bit buses.
pub type BinGate<const N: usize> = CircuitArrow<CircuitTensor<Obj<Bits<N>>, Obj<Bits<N>>>, Obj<Bits<N>>>;

/// A two-input comparator over `N`-bit buses with a 1-bit result.
pub type CmpGate<const N: usize> = CircuitArrow<CircuitTensor<Obj<Bits<N>>, Obj<Bits<N>>>, Obj<bool>>;

/// A two-input, one-output gate over single bits.
pub type BitBinGate = CircuitArrow<CircuitTensor<Obj<bool>, Obj<bool>>, Obj<bool>>;

/// `N` as a wire width; an overflow (reported at `u32::MAX`) when it
/// does not fit.
fn bits_width<const N: usize>() -> (r: Result<u32, Error>)
    ensures
        r is Ok <==> N <= u32::MAX,
        r matches Ok(w) ==> w == N,
        r matches Err(e) ==> e matches Error::Overflow { width } && width@ == u32::MAX,
{
    if N <= u32::MAX as usize {
        Ok(N as u32)
    } else {
        Err(Error::Overflow { width: Width::new(u32::MAX) })
    }
}

/// The arrow of a binary gate `op` over `N`-bit buses, with output type
/// `out`.
pub open spec fn bin_gate_spec(n: nat, op: OpSpec, out: WireTy) -> crate::circuit::arrow::ArrowSpec {
    primitive_spec(seq![WireTy::Bits(n as u32), WireTy::Bits(n as u32)], op, out)
}

/// Bitwise NOT over `N` bits; fails with an overflow when `N` exceeds
/// `u32::MAX`.
pub fn not_bits<const N: usize>() -> (r: Result<CircuitArrow<Obj<Bits<N>>, Obj<Bits<N>>>, Error>)
    ensures
        r is Ok <==> N <= u32::MAX,
        r matches Ok(a) ==> a@ == primitive_spec(seq![WireTy::Bits(N as u32)], OpSpec::Not, WireTy::Bits(N as u32)),
{
    let w = bits_width::<N>()?;
    let mut tys: Vec<WireTy> = Vec::new();
    tys.push(WireTy::Bits(w));
    proof {
        assert(tys@ =~= seq![WireTy::Bits(N as u32)]);
    }
    primitive_arrow(tys, Op::Not, WireTy::Bits(w))
}

fn binary_bits<const N: usize>(op: BinOp) -> (r: Result<CircuitArrow<CircuitTensor<Obj<Bits<N>>, Obj<Bits<N>>>, Obj<Bits<N>>>, Error>)
    ensures
        r is Ok <==> N <= u32::MAX,
        r matches Ok(a) ==> a@ == bin_gate_spec(N as nat, OpSpec::Bin(op), WireTy::Bits(N as u32)),
{
    let w = bits_width::<N>()?;
    let mut tys: Vec<WireTy> = Vec::new();
    tys.push(WireTy::Bits(w));
    tys.push(WireTy::Bits(w));
    proof {
        assert(tys@ =~= seq![WireTy::Bits(N as u32), WireTy::Bits(N as u32)]);
    }
    primitive_arrow(tys, Op::Bin(op), WireTy::Bits(w))
}

/// Bitwise AND over `N` bits.
pub fn and_bits<const N: usize>() -> (r: Result<BinGate<N>, Error>)
    ensures
        r is Ok <==> N <= u32::MAX,
        r matches Ok(a) ==> a@ == bin_gate_spec(N as nat, OpSpec::Bin(BinOp::And), WireTy::Bits(N as u32)),
{
    binary_bits::<N>(BinOp::And)
}

/// Bitwise OR over `N` bits.
pub fn or_bits<const N: usize>() -> (r: Result<BinGate<N>, Error>)
    ensures
        r is Ok <==> N <= u32::MAX,
        r matches Ok(a) ==> a@ == bin_gate_spec(N as nat, OpSpec::Bin(BinOp::Or), WireTy::Bits(N as u32)),
{
    binary_bits::<N>(BinOp::Or)
}

/// Bitwise XOR over `N` bits.
pub fn xor_bits<const N: usize>() -> (r: Result<BinGate<N>, Error>)
    ensures
        r is Ok <==> N <= u32::MAX,
        r matches Ok(a) ==> a@ == bin_gate_spec(N as nat, OpSpec::Bin(BinOp::Xor), WireTy::Bits(N as u32)),
{
    binary_bits::<N>(BinOp::Xor)
}

/// Wrapping addition over `N` bits.
pub fn add_bits<const N: usize>() -> (r: Result<BinGate<N>, Error>)
    ensures
        r is Ok <==> N <= u32::MAX,
        r matches Ok(a) ==> a@ == bin_gate_spec(N as nat, OpSpec::Bin(BinOp::Add), WireTy::Bits(N as u32)),
{
    binary_bits::<N>(BinOp::Add)
}

/// Wrapping subtraction over `N` bits.
pub fn sub_bits<const N: usize>() -> (r: Result<BinGate<N>, Error>)
    ensures
        r is Ok <==> N <= u32::MAX,
        r matches Ok(a) ==> a@ == bin_gate_spec(N as nat, OpSpec::Bin(BinOp::Sub), WireTy::Bits(N as u32)),
{
    binary_bits::<N>(BinOp::Sub)
}

/// Wrapping multiplication over `N` bits.
pub fn mul_bits<const N: usize>() -> (r: Result<BinGate<N>, Error>)
    ensures
        r is Ok <==> N <= u32::MAX,
        r matches Ok(a) ==> a@ == bin_gate_spec(N as nat, OpSpec::Bin(BinOp::Mul), WireTy::Bits(N as u32)),
{
    binary_bits::<N>(BinOp::Mul)
}

fn compare_bits<const N: usize>(op: BinOp) -> (r: Result<CmpGate<N>, Error>)
    ensures
        r is Ok <==> N <= u32::MAX,
        r matches Ok(a) ==> a@ == bin_gate_spec(N as nat, OpSpec::Bin(op), WireTy::Bit),
{
    let w = bits_width::<N>()?;
    let mut tys: Vec<WireTy> = Vec::new();
    tys.push(WireTy::Bits(w));
    tys.push(WireTy::Bits(w));
    proof {
        assert(tys@ =~= seq![WireTy::Bits(N as u32), WireTy::Bits(N as u32)]);
    }
    primitive_arrow(tys, Op::Bin(op), WireTy::Bit)
}

/// Equality of two `N`-bit buses, a 1-bit result.
pub fn eq_bits<const N: usize>() -> (r: Result<CmpGate<N>, Error>)
    ensures
        r is Ok <==> N <= u32::MAX,
        r matches Ok(a) ==> a@ == bin_gate_spec(N as nat, OpSpec::Bin(BinOp::Eq), WireTy::Bit),
{
    compare_bits::<N>(BinOp::Eq)
}

/// Unsigned less-than of two `N`-bit buses, a 1-bit result.
pub fn lt_bits<const N: usize>() -> (r: Result<CmpGate<N>, Error>)
    ensures
        r is Ok <==> N <= u32::MAX,
        r matches Ok(a) ==> a@ == bin_gate_spec(N as nat, OpSpec::Bin(BinOp::Lt), WireTy::Bit),
{
    compare_bits::<N>(BinOp::Lt)
}

/// NOT of a single bit.
pub fn not_bit() -> (r: Result<CircuitArrow<Obj<bool>, Obj<bool>>, Error>)
    ensures
        r matches Ok(a) && a@ == primitive_spec(seq![WireTy::Bit], OpSpec::Not, WireTy::Bit),
{
    let mut tys: Vec<WireTy> = Vec::new();
    tys.push(WireTy::Bit);
    proof {
        assert(tys@ =~= seq![WireTy::Bit]);
    }
    primitive_arrow(tys, Op::Not, WireTy::Bit)
}

fn bit_gate(op: BinOp) -> (r: Result<BitBinGate, Error>)
    ensures
        r matches Ok(a) && a@ == primitive_spec(seq![WireTy::Bit, WireTy::Bit], OpSpec::Bin(op), WireTy::Bit),
{
    let mut tys: Vec<WireTy> = Vec::new();
    tys.push(WireTy::Bit);
    tys.push(WireTy::Bit);
    proof {
        assert(tys@ =~= seq![WireTy::Bit, WireTy::Bit]);
    }
    primitive_arrow(tys, Op::Bin(op), WireTy::Bit)
}

/// AND of two single bits.
pub fn and_bit() -> (r: Result<BitBinGate, Error>)
    ensures
        r matches Ok(a) && a@ == primitive_spec(seq![WireTy::Bit, WireTy::Bit], OpSpec::Bin(BinOp::And), WireTy::Bit),
{
    bit_gate(BinOp::And)
}

/// OR of two single bits.
pub fn or_bit() -> (r: Result<BitBinGate, Error>)
    ensures
        r matches Ok(a) && a@ == primitive_spec(seq![WireTy::Bit, WireTy::Bit], OpSpec::Bin(BinOp::Or), WireTy::Bit),
{
    bit_gate(BinOp::Or)
}

} // verus!
