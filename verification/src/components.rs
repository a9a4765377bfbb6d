//! Ready-made circuits and machines: adders, counters, an accumulator,
//! a shift register and a toggle flip-flop.

use vstd::prelude::*;

use crate::bit_seq::BitSeq;
use crate::bits::Bits;
use crate::circuit::arrow::{ArrowSpec, CircuitArrow};
use crate::circuit::object::{CircuitTensor, CircuitUnit, Obj};
use crate::error::{Error, Width};
use crate::ir::builder::HdlGraphBuilder;
use crate::ir::graph::GraphSpec;
use crate::ir::instr::InstrSpec;
use crate::ir::op::{BinOp, Op, OpSpec};
use crate::ir::wire::{WireId, WireTy};
use crate::sync::machine::{Sync, SyncSpec, from_raw};

verus! {

/// A half adder: `(a, b) -> (a xor b, a and b)`.
pub type HalfAdderArrow = CircuitArrow<CircuitTensor<Obj<bool>, Obj<bool>>, CircuitTensor<Obj<bool>, Obj<bool>>>;

/// A full adder: `((a, b), cin) -> (sum, cout)`.
pub type FullAdderArrow = CircuitArrow<
    CircuitTensor<CircuitTensor<Obj<bool>, Obj<bool>>, Obj<bool>>,
    CircuitTensor<Obj<bool>, Obj<bool>>,
>;

/// An `N`-bit up-counter.
pub type CounterSync<const N: usize> = Sync<Obj<Bits<N>>, CircuitUnit, Obj<Bits<N>>>;

/// An `N`-bit down-counter.
pub type DownCounterSync<const N: usize> = Sync<Obj<Bits<N>>, CircuitUnit, Obj<Bits<N>>>;

/// An `N`-bit accumulator.
pub type AccumulatorSync<const N: usize> = Sync<Obj<Bits<N>>, Obj<Bits<N>>, Obj<Bits<N>>>;

/// An `N`-bit shift register fed one bit per cycle.
pub type ShiftRegisterLeftSync<const N: usize> = Sync<Obj<Bits<N>>, Obj<bool>, Obj<Bits<N>>>;

/// A toggle flip-flop.
pub type ToggleSync = Sync<Obj<bool>, CircuitUnit, Obj<bool>>;

/// Wire `i`.
pub open spec fn w(i: nat) -> WireId {
    WireId(i as usize)
}

/// `n` copies of `b`.
pub open spec fn fill(b: bool, n: nat) -> Seq<bool> {
    Seq::new(n, |_i: int| b)
}

/// The `n`-bit pattern of the value one.
pub open spec fn one_bits(n: nat) -> Seq<bool> {
    Seq::new(n, |i: int| i == 0)
}

/// The instruction `op(inputs) -> output`.
pub open spec fn ins(op: OpSpec, inputs: Seq<WireId>, output: nat) -> InstrSpec {
    InstrSpec { op, inputs, output: w(output) }
}

/// The half adder's circuit.
pub open spec fn half_adder_spec() -> ArrowSpec {
    ArrowSpec {
        graph: GraphSpec {
            wires: seq![WireTy::Bit, WireTy::Bit, WireTy::Bit, WireTy::Bit],
            instrs: seq![ins(OpSpec::Bin(BinOp::Xor), seq![w(0), w(1)], 2), ins(OpSpec::Bin(BinOp::And), seq![w(0), w(1)], 3)],
        },
        inputs: seq![w(0), w(1)],
        outputs: seq![w(2), w(3)],
    }
}

/// The full adder's circuit.
pub open spec fn full_adder_spec() -> ArrowSpec {
    ArrowSpec {
        graph: GraphSpec {
            wires: Seq::new(8, |_i: int| WireTy::Bit),
            instrs: seq![
                ins(OpSpec::Bin(BinOp::Xor), seq![w(0), w(1)], 3),
                ins(OpSpec::Bin(BinOp::And), seq![w(0), w(1)], 4),
                ins(OpSpec::Bin(BinOp::And), seq![w(2), w(3)], 5),
                ins(OpSpec::Bin(BinOp::Xor), seq![w(3), w(2)], 6),
                ins(OpSpec::Bin(BinOp::Or), seq![w(4), w(5)], 7),
            ],
        },
        inputs: seq![w(0), w(1), w(2)],
        outputs: seq![w(6), w(7)],
    }
}

/// The counter machine (up for `Add`, down for `Sub`): state wire 0,
/// constant one on wire 1, next state on wire 2; outputs the next state
/// and the current state.
pub open spec fn count_spec(n: nat, op: BinOp, init: bool) -> SyncSpec {
    let t = WireTy::Bits(n as u32);
    SyncSpec {
        graph: GraphSpec {
            wires: seq![t, t, t],
            instrs: seq![ins(OpSpec::Const { bits: one_bits(n), ty: t }, seq![], 1), ins(OpSpec::Bin(op), seq![w(0), w(1)], 2)],
        },
        inputs: seq![w(0)],
        outputs: seq![w(2), w(0)],
        init: fill(init, n),
        state_count: 1,
    }
}

/// The accumulator machine: state plus input into the next state, which
/// is also the output.
pub open spec fn accumulator_spec(n: nat) -> SyncSpec {
    let t = WireTy::Bits(n as u32);
    SyncSpec {
        graph: GraphSpec { wires: seq![t, t, t], instrs: seq![ins(OpSpec::Bin(BinOp::Add), seq![w(0), w(1)], 2)] },
        inputs: seq![w(0), w(1)],
        outputs: seq![w(2), w(2)],
        init: fill(false, n),
        state_count: 1,
    }
}

/// The shift register: the new bit becomes bit 0, the state's low
/// `n - 1` bits move up one place; outputs the next and current state.
pub open spec fn shift_register_spec(n: nat) -> SyncSpec {
    let m = (n - 1) as u32;
    SyncSpec {
        graph: GraphSpec {
            wires: seq![WireTy::Bits(n as u32), WireTy::Bit, WireTy::Bits(m), WireTy::Bits(n as u32)],
            instrs: seq![
                ins(OpSpec::Slice { lo: 0, hi: m }, seq![w(0)], 2),
                ins(OpSpec::Concat { low_width: 1, high_width: m }, seq![w(1), w(2)], 3),
            ],
        },
        inputs: seq![w(0), w(1)],
        outputs: seq![w(3), w(0)],
        init: fill(false, n),
        state_count: 1,
    }
}

/// The toggle flip-flop: the next state is the inverted state; outputs
/// the next and current state.
pub open spec fn toggle_spec() -> SyncSpec {
    SyncSpec {
        graph: GraphSpec { wires: seq![WireTy::Bit, WireTy::Bit], instrs: seq![ins(OpSpec::Not, seq![w(0)], 1)] },
        inputs: seq![w(0)],
        outputs: seq![w(1), w(0)],
        init: seq![false],
        state_count: 1,
    }
}

fn wires2(a: WireId, b: WireId) -> (r: Vec<WireId>)
    ensures
        r@ == seq![a, b],
{
    let mut v: Vec<WireId> = Vec::new();
    v.push(a);
    v.push(b);
    proof {
        assert(v@ =~= seq![a, b]);
    }
    v
}

fn wires1(a: WireId) -> (r: Vec<WireId>)
    ensures
        r@ == seq![a],
{
    let mut v: Vec<WireId> = Vec::new();
    v.push(a);
    proof {
        assert(v@ =~= seq![a]);
    }
    v
}

fn no_wires() -> (r: Vec<WireId>)
    ensures
        r@ == Seq::<WireId>::empty(),
{
    let v: Vec<WireId> = Vec::new();
    proof {
        assert(v@ =~= Seq::<WireId>::empty());
    }
    v
}

/// A half adder circuit.
pub fn half_adder() -> (r: Result<HalfAdderArrow, Error>)
    ensures
        r matches Ok(a) && a@ == half_adder_spec(),
{
    let (b, a) = HdlGraphBuilder::new().with_wire(WireTy::Bit);
    let (b, bb) = b.with_wire(WireTy::Bit);
    let (b, sum) = b.with_wire(WireTy::Bit);
    let (b, carry) = b.with_wire(WireTy::Bit);
    let b = b.with_instruction(Op::Bin(BinOp::Xor), wires2(a, bb), sum)?;
    let b = b.with_instruction(Op::Bin(BinOp::And), wires2(a, bb), carry)?;
    let g = b.build();
    proof {
        assert(g@.wires =~= half_adder_spec().graph.wires);
        assert(g@.instrs =~= half_adder_spec().graph.instrs);
    }
    Ok(CircuitArrow::from_raw_parts(g, wires2(a, bb), wires2(sum, carry)))
}

/// A full adder circuit: `sum = (a xor b) xor cin`,
/// `cout = (a and b) or (cin and (a xor b))`.
pub fn full_adder() -> (r: Result<FullAdderArrow, Error>)
    ensures
        r matches Ok(a) && a@ == full_adder_spec(),
{
    let (b, a) = HdlGraphBuilder::new().with_wire(WireTy::Bit);
    let (b, bb) = b.with_wire(WireTy::Bit);
    let (b, cin) = b.with_wire(WireTy::Bit);
    let (b, ab) = b.with_wire(WireTy::Bit);
    let (b, ab_and) = b.with_wire(WireTy::Bit);
    let (b, c_and) = b.with_wire(WireTy::Bit);
    let (b, sum) = b.with_wire(WireTy::Bit);
    let (b, cout) = b.with_wire(WireTy::Bit);
    let b = b.with_instruction(Op::Bin(BinOp::Xor), wires2(a, bb), ab)?;
    let b = b.with_instruction(Op::Bin(BinOp::And), wires2(a, bb), ab_and)?;
    let b = b.with_instruction(Op::Bin(BinOp::And), wires2(cin, ab), c_and)?;
    let b = b.with_instruction(Op::Bin(BinOp::Xor), wires2(ab, cin), sum)?;
    let b = b.with_instruction(Op::Bin(BinOp::Or), wires2(ab_and, c_and), cout)?;
    let g = b.build();
    let mut inputs = wires2(a, bb);
    inputs.push(cin);
    proof {
        assert(g@.wires =~= full_adder_spec().graph.wires);
        assert(g@.instrs =~= full_adder_spec().graph.instrs);
        assert(inputs@ =~= full_adder_spec().inputs);
    }
    Ok(CircuitArrow::from_raw_parts(g, inputs, wires2(sum, cout)))
}

/// `N` as a wire width, or an overflow at `u32::MAX`.
fn width_of_n<const N: usize>() -> (r: Result<u32, Error>)
    ensures
        r is Ok <==> N <= u32::MAX,
        r matches Ok(x) ==> x == N,
        r matches Err(e) ==> e matches Error::Overflow { width } && width@ == u32::MAX,
{
    if N <= u32::MAX as usize {
        Ok(N as u32)
    } else {
        Err(Error::Overflow { width: Width::new(u32::MAX) })
    }
}

fn one_bitseq(n: usize) -> (r: BitSeq)
    ensures
        r@ == one_bits(n as nat),
{
    let mut b = BitSeq::new();
    let mut i: usize = 0;
    while i < n
        invariant
            i <= n,
            b@ == one_bits(i as nat),
        decreases n - i,
    {
        b.push(i == 0);
        proof {
            assert(b@ =~= one_bits((i + 1) as nat));
        }
        i = i + 1;
    }
    b
}

fn count_machine<const N: usize>(op: BinOp, init: bool) -> (r: Result<Sync<Obj<Bits<N>>, CircuitUnit, Obj<Bits<N>>>, Error>)
    ensures
        r is Ok <==> N <= u32::MAX,
        r matches Ok(m) ==> m@ == count_spec(N as nat, op, init),
        r matches Err(e) ==> e matches Error::Overflow { width } && width@ == u32::MAX,
{
    let width = width_of_n::<N>()?;
    let ty = WireTy::Bits(width);
    let (b, state) = HdlGraphBuilder::new().with_wire(ty);
    let (b, one) = b.with_wire(ty);
    let (b, next_state) = b.with_wire(ty);
    let b = b.with_instruction(Op::Const { bits: one_bitseq(N), ty }, no_wires(), one)?;
    let b = b.with_instruction(Op::Bin(op), wires2(state, one), next_state)?;
    let g = b.build();
    let init_bits = BitSeq::filled(init, N);
    proof {
        let s = count_spec(N as nat, op, init);
        assert(g@.wires =~= s.graph.wires);
        assert(g@.instrs =~= s.graph.instrs);
        assert(init_bits@ =~= s.init);
    }
    Ok(from_raw(g, wires1(state), wires2(next_state, state), init_bits, 1))
}

/// An `N`-bit up-counter starting at zero: each cycle it outputs its
/// state and adds one (wrapping).  Fails with an overflow when `N`
/// exceeds `u32::MAX`.
pub fn counter<const N: usize>() -> (r: Result<CounterSync<N>, Error>)
    ensures
        r is Ok <==> N <= u32::MAX,
        r matches Ok(m) ==> m@ == count_spec(N as nat, BinOp::Add, false),
        r matches Err(e) ==> e matches Error::Overflow { width } && width@ == u32::MAX,
{
    count_machine::<N>(BinOp::Add, false)
}

/// An `N`-bit down-counter starting at all ones: each cycle it outputs
/// its state and subtracts one (wrapping).  Fails with an overflow when
/// `N` exceeds `u32::MAX`.
pub fn down_counter<const N: usize>() -> (r: Result<DownCounterSync<N>, Error>)
    ensures
        r is Ok <==> N <= u32::MAX,
        r matches Ok(m) ==> m@ == count_spec(N as nat, BinOp::Sub, true),
        r matches Err(e) ==> e matches Error::Overflow { width } && width@ == u32::MAX,
{
    count_machine::<N>(BinOp::Sub, true)
}

/// An `N`-bit accumulator starting at zero: each cycle it adds its input
/// to the state (wrapping) and outputs the new sum.  Fails with an
/// overflow when `N` exceeds `u32::MAX`.
pub fn accumulator<const N: usize>() -> (r: Result<AccumulatorSync<N>, Error>)
    ensures
        r is Ok <==> N <= u32::MAX,
        r matches Ok(m) ==> m@ == accumulator_spec(N as nat),
        r matches Err(e) ==> e matches Error::Overflow { width } && width@ == u32::MAX,
{
    let width = width_of_n::<N>()?;
    let ty = WireTy::Bits(width);
    let (b, state) = HdlGraphBuilder::new().with_wire(ty);
    let (b, input) = b.with_wire(ty);
    let (b, next_state) = b.with_wire(ty);
    let b = b.with_instruction(Op::Bin(BinOp::Add), wires2(state, input), next_state)?;
    let g = b.build();
    let init_bits = BitSeq::filled(false, N);
    proof {
        let s = accumulator_spec(N as nat);
        assert(g@.wires =~= s.graph.wires);
        assert(g@.instrs =~= s.graph.instrs);
        assert(init_bits@ =~= s.init);
    }
    Ok(from_raw(g, wires2(state, input), wires2(next_state, next_state), init_bits, 1))
}

/// An `N`-bit shift register starting at zero: each cycle the input bit
/// enters at bit 0 and the top bit drops out; it outputs its state.
/// Fails with a width mismatch (2 expected) when `N < 2`, and with an
/// overflow when `N` exceeds `u32::MAX`.
pub fn shift_register_left<const N: usize>() -> (r: Result<ShiftRegisterLeftSync<N>, Error>)
    ensures
        r is Ok <==> 2 <= N <= u32::MAX,
        r matches Ok(m) ==> m@ == shift_register_spec(N as nat),
        N < 2 ==> (r matches Err(e) && e.is_width_mismatch(2, N as nat)),
        2 <= N && N > u32::MAX ==> (r matches Err(e) && e matches Error::Overflow { width } && width@ == u32::MAX),
{
    if N < 2 {
        return Err(Error::width_mismatch(2, N));
    }
    let width_n = width_of_n::<N>()?;
    let m = width_n - 1;
    let (b, state) = HdlGraphBuilder::new().with_wire(WireTy::Bits(width_n));
    let (b, new_bit) = b.with_wire(WireTy::Bit);
    let (b, low_part) = b.with_wire(WireTy::Bits(m));
    let (b, next_state) = b.with_wire(WireTy::Bits(width_n));
    let b = b.with_instruction(Op::Slice { lo: 0, hi: m }, wires1(state), low_part)?;
    let b = b.with_instruction(Op::Concat { low_width: 1, high_width: m }, wires2(new_bit, low_part), next_state)?;
    let g = b.build();
    let init_bits = BitSeq::filled(false, N);
    proof {
        let s = shift_register_spec(N as nat);
        assert(g@.wires =~= s.graph.wires);
        assert(g@.instrs =~= s.graph.instrs);
        assert(init_bits@ =~= s.init);
    }
    Ok(from_raw(g, wires2(state, new_bit), wires2(next_state, state), init_bits, 1))
}

/// A toggle flip-flop starting at `false`: each cycle it outputs its
/// state and inverts it.
pub fn toggle_ff() -> (r: Result<ToggleSync, Error>)
    ensures
        r matches Ok(m) && m@ == toggle_spec(),
{
    let (b, state) = HdlGraphBuilder::new().with_wire(WireTy::Bit);
    let (b, next_state) = b.with_wire(WireTy::Bit);
    let b = b.with_instruction(Op::Not, wires1(state), next_state)?;
    let g = b.build();
    let init_bits = BitSeq::from_iter([false]);
    proof {
        let s = toggle_spec();
        assert(g@.wires =~= s.graph.wires);
        assert(g@.instrs =~= s.graph.instrs);
        assert(init_bits@ =~= s.init);
    }
    Ok(from_raw(g, wires1(state), wires2(next_state, state), init_bits, 1))
}

} // verus!
