//! The IR graph interpreter: applies each instruction's op in order,
//! threading a wire-value environment.

use vstd::prelude::*;
use vstd::arithmetic::power2::{pow2, lemma_pow2_pos, lemma_pow2_strictly_increases};

use crate::arith::{bits_val, val_bits, bits_of_u128, u128_of_bits, lemma_bits_val_bound,
    lemma_pow2_two_to_128, lemma_mod_of_wrapped, lemma_mask_is_mod};
use crate::bit_seq::BitSeq;
use crate::bits::mask;
use crate::error::{Error, SignalName, Width, saturating_u32};
use crate::ir::graph::{GraphSpec, HdlGraph, instr_views};
use crate::ir::instr::{InstrSpec, Instruction};
use crate::ir::op::{BinOp, Op, OpSpec};
use crate::ir::wire::{WireId, wire_text};

verus! {

/// A wire-value environment: entry `i` is wire `i`'s value, or `None`
/// when it has not been computed.
pub type Env = Vec<Option<BitSeq>>;

/// The mathematical content of an environment.
pub type EnvSpec = Seq<Option<Seq<bool>>>;

/// An error of the simulator, as plain values.
pub ghost enum SimErr {
    WidthMismatch { expected: nat, actual: nat },
    UndefinedSignal { wire: nat },
    Overflow { width: nat },
}

/// `e` is the error value that `s` describes.
pub open spec fn error_is(e: Error, s: SimErr) -> bool {
    match s {
        SimErr::WidthMismatch { expected, actual } => e.is_width_mismatch(expected, actual),
        SimErr::UndefinedSignal { wire } => e matches Error::UndefinedSignal { name } && name@ == wire_text(wire),
        SimErr::Overflow { width } => e matches Error::Overflow { width: w } && w@ == saturating_u32(width),
    }
}

/// An executable bit-sequence result agrees with a mathematical one.
pub open spec fn bits_result_is(r: Result<BitSeq, Error>, s: Result<Seq<bool>, SimErr>) -> bool {
    match s {
        Ok(v) => r matches Ok(x) && x@ == v,
        Err(se) => r matches Err(e) && error_is(e, se),
    }
}

/// An executable environment result agrees with a mathematical one.
pub open spec fn env_result_is(r: Result<Env, Error>, s: Result<EnvSpec, SimErr>) -> bool {
    match s {
        Ok(v) => r matches Ok(x) && env_view(x@) == v,
        Err(se) => r matches Err(e) && error_is(e, se),
    }
}

/// The views of a list of bit sequences.
pub open spec fn seqs_view(s: Seq<BitSeq>) -> Seq<Seq<bool>> {
    s.map_values(|b: BitSeq| b@)
}

/// The view of an optional bit sequence.
pub open spec fn opt_view(o: Option<BitSeq>) -> Option<Seq<bool>> {
    match o {
        Some(b) => Some(b@),
        None => None,
    }
}

/// The view of an environment.
pub open spec fn env_view(e: Seq<Option<BitSeq>>) -> EnvSpec {
    e.map_values(|o: Option<BitSeq>| opt_view(o))
}

/// Ops whose sizes stay within machine arithmetic: concat widths sum
/// within `u32`, an array's storage size within `usize`.
pub open spec fn op_sizes_ok(op: OpSpec) -> bool {
    match op {
        OpSpec::Concat { low_width, high_width } => low_width + high_width <= u32::MAX,
        OpSpec::ArrayShiftIn { element_width, depth } => element_width * depth <= usize::MAX,
        OpSpec::ArrayTail { element_width, depth } => element_width * depth <= usize::MAX,
        _ => true,
    }
}

/// The operand values on which an op has no defined result: a reversed
/// slice (its error width `hi - lo` is negative), and an array op of
/// depth 0 whose operands match the (empty) array (the kept part,
/// `(depth - 1) * element_width`, is negative).  On every other operand
/// list a depth-0 array op fails with a width mismatch.
pub open spec fn op_panics(op: OpSpec, ins: Seq<Seq<bool>>) -> bool {
    match op {
        OpSpec::Slice { lo, hi } => ins.len() == 1 && hi < lo,
        OpSpec::ArrayShiftIn { element_width, depth } => depth == 0 && ins.len() >= 2 && ins[0].len() == 0
            && ins[1].len() == element_width,
        OpSpec::ArrayTail { element_width, depth } => depth == 0 && ins.len() >= 1 && ins[0].len() == 0,
        _ => false,
    }
}

/// Ops well formed throughout: sizes within machine arithmetic, slices
/// not reversed, arrays of at least one element.  Such an op has a
/// defined result on every operand list.
pub open spec fn op_ok(op: OpSpec) -> bool {
    &&& op_sizes_ok(op)
    &&& match op {
        OpSpec::Slice { lo, hi } => lo <= hi,
        OpSpec::ArrayShiftIn { element_width, depth } => depth >= 1,
        OpSpec::ArrayTail { element_width, depth } => depth >= 1,
        _ => true,
    }
}

/// Every op of a graph satisfies [`op_sizes_ok`].
pub open spec fn graph_sizes_ok(g: GraphSpec) -> bool {
    forall|j: int| 0 <= j < g.instrs.len() ==> op_sizes_ok(#[trigger] g.instrs[j].op)
}

/// Every op of a graph satisfies [`op_ok`].
pub open spec fn graph_ops_ok(g: GraphSpec) -> bool {
    forall|j: int| 0 <= j < g.instrs.len() ==> op_ok(#[trigger] g.instrs[j].op)
}

/// Bitwise combination of two equal-length sequences.
pub open spec fn zip_bits(a: Seq<bool>, b: Seq<bool>, op: BinOp) -> Seq<bool> {
    Seq::new(
        a.len(),
        |i: int|
            match op {
                BinOp::And => a[i] && b[i],
                BinOp::Or => a[i] || b[i],
                _ => a[i] != b[i],
            },
    )
}

/// The result of a binary gate on two bit sequences.
pub open spec fn apply_bin_spec(op: BinOp, a: Seq<bool>, b: Seq<bool>) -> Result<Seq<bool>, SimErr> {
    let n = a.len();
    if a.len() != b.len() {
        Err(SimErr::WidthMismatch { expected: a.len(), actual: b.len() })
    } else {
        match op {
            BinOp::And | BinOp::Or | BinOp::Xor => Ok(zip_bits(a, b, op)),
            _ => if n > 128 {
                Err(SimErr::Overflow { width: n })
            } else {
                let x = bits_val(a) as int;
                let y = bits_val(b) as int;
                let m = pow2(n) as int;
                match op {
                    BinOp::Add => Ok(val_bits(((x + y) % m) as nat, n)),
                    BinOp::Sub => Ok(val_bits(((x - y) % m) as nat, n)),
                    BinOp::Mul => Ok(val_bits(((x * y) % m) as nat, n)),
                    BinOp::Eq => Ok(seq![x == y]),
                    _ => Ok(seq![x < y]),
                }
            },
        }
    }
}

/// The result of an op on operand values.
pub open spec fn apply_op_spec(op: OpSpec, ins: Seq<Seq<bool>>) -> Result<Seq<bool>, SimErr> {
    let wrong_arity = |n: nat| Err::<Seq<bool>, SimErr>(SimErr::WidthMismatch { expected: n, actual: ins.len() });
    match op {
        OpSpec::Not => if ins.len() != 1 {
            wrong_arity(1)
        } else {
            Ok(Seq::new(ins[0].len(), |i: int| !ins[0][i]))
        },
        OpSpec::Bin(b) => if ins.len() != 2 {
            wrong_arity(2)
        } else {
            apply_bin_spec(b, ins[0], ins[1])
        },
        OpSpec::Mux => if ins.len() != 3 {
            wrong_arity(3)
        } else if ins[0].len() > 0 && ins[0][0] {
            Ok(ins[2])
        } else {
            Ok(ins[1])
        },
        OpSpec::Const { bits, ty } => if ins.len() != 0 {
            wrong_arity(0)
        } else {
            Ok(bits)
        },
        OpSpec::Reg { init, ty } => if ins.len() != 1 {
            wrong_arity(1)
        } else {
            Ok(ins[0])
        },
        OpSpec::Concat { low_width, high_width } => if ins.len() != 2 {
            wrong_arity(2)
        } else if ins[0].len() == low_width && ins[1].len() == high_width {
            Ok(ins[0] + ins[1])
        } else {
            Err(SimErr::WidthMismatch { expected: (low_width + high_width) as nat, actual: ins[0].len() + ins[1].len() })
        },
        OpSpec::Slice { lo, hi } => if ins.len() != 1 {
            wrong_arity(1)
        } else if hi <= ins[0].len() {
            Ok(ins[0].subrange(lo as int, hi as int))
        } else {
            Err(SimErr::WidthMismatch { expected: (hi - lo) as nat, actual: ins[0].len() })
        },
        OpSpec::ArrayShiftIn { element_width, depth } => {
            let ew = element_width as nat;
            let total: nat = ew * (depth as nat);
            if ins.len() >= 2 && ins[0].len() == total && ins[1].len() == ew {
                Ok(ins[1] + ins[0].take(((depth - 1) * ew) as int))
            } else {
                Err(SimErr::WidthMismatch { expected: total, actual: ins.len() })
            }
        },
        OpSpec::ArrayTail { element_width, depth } => {
            let ew = element_width as nat;
            let total: nat = ew * (depth as nat);
            let start = ((depth - 1) * ew) as int;
            if ins.len() >= 1 && ins[0].len() == total {
                Ok(ins[0].subrange(start, start + ew))
            } else {
                Err(SimErr::WidthMismatch { expected: total, actual: if ins.len() >= 1 { ins[0].len() } else { 0 } })
            }
        },
    }
}

/// The value of the first input wire numbered `idx`, pairing wires with
/// values in order.
pub open spec fn first_value(ws: Seq<WireId>, vs: Seq<Seq<bool>>, idx: nat) -> Option<Seq<bool>>
    decreases ws.len(),
{
    if ws.len() == 0 || vs.len() == 0 {
        None
    } else if ws[0].0 == idx {
        Some(vs[0])
    } else {
        first_value(ws.drop_first(), vs.drop_first(), idx)
    }
}

/// The environment before any instruction runs: input wires hold their
/// values, every other wire is undefined.
pub open spec fn initial_env(n: nat, ws: Seq<WireId>, vs: Seq<Seq<bool>>) -> EnvSpec {
    Seq::new(n, |i: int| first_value(ws, vs, i as nat))
}

/// The value of wire `w` in `env`, if defined.
pub open spec fn lookup(env: EnvSpec, w: WireId) -> Option<Seq<bool>> {
    if (w.0 as nat) < env.len() {
        env[w.0 as int]
    } else {
        None
    }
}

/// The values of a list of wires, failing on the first undefined one.
pub open spec fn operands(env: EnvSpec, ws: Seq<WireId>) -> Result<Seq<Seq<bool>>, SimErr>
    decreases ws.len(),
{
    if ws.len() == 0 {
        Ok(Seq::empty())
    } else {
        match operands(env, ws.drop_last()) {
            Err(e) => Err(e),
            Ok(vs) => match lookup(env, ws.last()) {
                Some(v) => Ok(vs.push(v)),
                None => Err(SimErr::UndefinedSignal { wire: ws.last().0 as nat }),
            },
        }
    }
}

/// One instruction: read its operands, apply its op, write its output
/// (an output beyond the environment is dropped).
pub open spec fn step_spec(env: EnvSpec, i: InstrSpec) -> Result<EnvSpec, SimErr> {
    match operands(env, i.inputs) {
        Err(e) => Err(e),
        Ok(vs) => match apply_op_spec(i.op, vs) {
            Err(e) => Err(e),
            Ok(r) => Ok(
                if (i.output.0 as nat) < env.len() {
                    env.update(i.output.0 as int, Some(r))
                } else {
                    env
                },
            ),
        },
    }
}

/// Run instructions in order, stopping at the first failure.
pub open spec fn run_instrs(env: EnvSpec, is: Seq<InstrSpec>) -> Result<EnvSpec, SimErr>
    decreases is.len(),
{
    if is.len() == 0 {
        Ok(env)
    } else {
        match run_instrs(env, is.drop_last()) {
            Err(e) => Err(e),
            Ok(e2) => step_spec(e2, is.last()),
        }
    }
}

/// Whether one instruction reads its operands and meets values on which
/// its op has no defined result.
pub open spec fn step_panics(env: EnvSpec, i: InstrSpec) -> bool {
    operands(env, i.inputs) matches Ok(vs) && op_panics(i.op, vs)
}

/// Whether running the instructions reaches, before any error, an
/// instruction whose op has no defined result on its operands.
pub open spec fn run_panics(env: EnvSpec, is: Seq<InstrSpec>) -> bool
    decreases is.len(),
{
    if is.len() == 0 {
        false
    } else {
        run_panics(env, is.drop_last()) || match run_instrs(env, is.drop_last()) {
            Ok(e2) => step_panics(e2, is.last()),
            Err(_) => false,
        }
    }
}

/// Whether interpreting `g` on `vs` reaches an op with no defined
/// result.
pub open spec fn interpret_panics(g: GraphSpec, ws: Seq<WireId>, vs: Seq<Seq<bool>>) -> bool {
    ws.len() == vs.len() && run_panics(initial_env(g.wires.len(), ws, vs), g.instrs)
}

/// A run that reaches no undefined op has no prefix that does.
proof fn lemma_run_panics_prefix(env: EnvSpec, is: Seq<InstrSpec>, k: int)
    requires
        0 <= k <= is.len(),
        !run_panics(env, is),
    ensures
        !run_panics(env, is.take(k)),
    decreases is.len() - k,
{
    if k < is.len() {
        assert(is.take(k + 1).drop_last() =~= is.take(k));
        lemma_run_panics_prefix(env, is, k + 1);
    } else {
        assert(is.take(k) =~= is);
    }
}

/// Well-formed ops reach no undefined result.
pub proof fn lemma_ops_ok_no_panic(env: EnvSpec, is: Seq<InstrSpec>)
    requires
        forall|j: int| 0 <= j < is.len() ==> op_ok(#[trigger] is[j].op),
    ensures
        !run_panics(env, is),
    decreases is.len(),
{
    if is.len() > 0 {
        assert forall|j: int| 0 <= j < is.drop_last().len() implies op_ok(#[trigger] is.drop_last()[j].op) by {
            assert(is.drop_last()[j] == is[j]);
        }
        lemma_ops_ok_no_panic(env, is.drop_last());
        assert(op_ok(is[is.len() - 1].op));
    }
}

/// A graph of well-formed ops meets what [`interpret`] asks, on any
/// inputs.
pub proof fn lemma_graph_ops_ok(g: GraphSpec, ws: Seq<WireId>, vs: Seq<Seq<bool>>)
    requires
        graph_ops_ok(g),
    ensures
        graph_sizes_ok(g),
        !interpret_panics(g, ws, vs),
{
    assert forall|j: int| 0 <= j < g.instrs.len() implies op_sizes_ok(#[trigger] g.instrs[j].op) by {
        assert(op_ok(g.instrs[j].op));
    }
    lemma_ops_ok_no_panic(initial_env(g.wires.len(), ws, vs), g.instrs);
}

/// The environment after interpreting graph `g` with input wires `ws`
/// holding values `vs`.
pub open spec fn interpret_spec(g: GraphSpec, ws: Seq<WireId>, vs: Seq<Seq<bool>>) -> Result<EnvSpec, SimErr> {
    if ws.len() != vs.len() {
        Err(SimErr::WidthMismatch { expected: ws.len(), actual: vs.len() })
    } else {
        run_instrs(initial_env(g.wires.len(), ws, vs), g.instrs)
    }
}

/// Interpret `graph` with `input_wires` holding `inputs`, returning the
/// final wire-value environment.  Fails with a width mismatch when the
/// two lists differ in length, with an undefined signal when an
/// instruction reads a wire not yet computed, and with the op's own
/// error otherwise.  The run must not reach an op with no defined
/// result (see [`op_panics`]).
pub fn interpret(graph: &HdlGraph, input_wires: &[WireId], inputs: &[BitSeq]) -> (r: Result<Env, Error>)
    requires
        graph_sizes_ok(graph@),
        !interpret_panics(graph@, input_wires@, seqs_view(inputs@)),
    ensures
        env_result_is(r, interpret_spec(graph@, input_wires@, seqs_view(inputs@))),
{
    if input_wires.len() != inputs.len() {
        return Err(Error::width_mismatch(input_wires.len(), inputs.len()));
    }
    let n = graph.vertex_count();
    let mut env: Env = Vec::new();
    let mut idx: usize = 0;
    while idx < n
        invariant
            idx <= n,
            n == graph@.wires.len(),
            input_wires@.len() == inputs@.len(),
            env_view(env@) == initial_env(idx as nat, input_wires@, seqs_view(inputs@)),
        decreases n - idx,
    {
        let v = find_input(input_wires, inputs, idx);
        let ghost prev = env@;
        env.push(v);
        proof {
            assert(env@.drop_last() =~= prev);
            assert(env_view(env@) =~= env_view(prev).push(opt_view(v)));
            assert(env_view(env@) =~= initial_env((idx + 1) as nat, input_wires@, seqs_view(inputs@)));
        }
        idx = idx + 1;
    }
    proof {
        assert(initial_env(n as nat, input_wires@, seqs_view(inputs@)) == initial_env(
            graph@.wires.len(),
            input_wires@,
            seqs_view(inputs@),
        ));
    }
    let instrs = graph.instructions();
    let ghost start = env_view(env@);
    assert(!run_panics(start, graph@.instrs));
    let mut j: usize = 0;
    proof {
        assert(graph@.instrs.take(0) =~= Seq::<InstrSpec>::empty());
    }
    while j < instrs.len()
        invariant
            j <= instrs@.len(),
            instr_views(instrs@) == graph@.instrs,
            instrs@.len() == graph@.instrs.len(),
            graph_sizes_ok(graph@),
            !run_panics(start, graph@.instrs),
            input_wires@.len() == inputs@.len(),
            start == initial_env(graph@.wires.len(), input_wires@, seqs_view(inputs@)),
            env@.len() == start.len(),
            run_instrs(start, graph@.instrs.take(j as int)) == Ok::<EnvSpec, SimErr>(env_view(env@)),
        decreases instrs@.len() - j,
    {
        proof {
            assert(instrs@[j as int]@ == graph@.instrs[j as int]);
            assert(graph@.instrs.take(j + 1).drop_last() =~= graph@.instrs.take(j as int));
            assert(op_sizes_ok(graph@.instrs[j as int].op));
            lemma_run_panics_prefix(start, graph@.instrs, j + 1);
            assert(graph@.instrs.take(j + 1).last() == graph@.instrs[j as int]);
            assert(!step_panics(env_view(env@), graph@.instrs[j as int]));
        }
        let ghost before = env_view(env@);
        match step_instruction(&mut env, &instrs[j]) {
            Ok(()) => {},
            Err(e) => {
                proof {
                    assert(step_spec(before, graph@.instrs[j as int]) is Err);
                    assert(graph@.instrs.take(j + 1).last() == graph@.instrs[j as int]);
                    assert(run_instrs(start, graph@.instrs.take(j + 1)) == step_spec(before, graph@.instrs[j as int]));
                    lemma_run_instrs_err_sticks(start, graph@.instrs, j + 1);
                    assert(interpret_spec(graph@, input_wires@, seqs_view(inputs@)) == step_spec(
                        before,
                        graph@.instrs[j as int],
                    ));
                }
                return Err(e);
            },
        }
        j = j + 1;
    }
    proof {
        assert(graph@.instrs.take(j as int) =~= graph@.instrs);
    }
    Ok(env)
}

/// Once a prefix of the instructions fails, the whole run fails with
/// that error.
pub proof fn lemma_run_instrs_err_sticks(env: EnvSpec, is: Seq<InstrSpec>, k: int)
    requires
        0 <= k <= is.len(),
        run_instrs(env, is.take(k)) is Err,
    ensures
        run_instrs(env, is) == run_instrs(env, is.take(k)),
    decreases is.len() - k,
{
    if k < is.len() {
        assert(is.take(k + 1).drop_last() =~= is.take(k));
        lemma_run_instrs_err_sticks(env, is, k + 1);
    } else {
        assert(is.take(k) =~= is);
    }
}

/// The value paired with the first input wire numbered `idx`.
fn find_input(ws: &[WireId], vs: &[BitSeq], idx: usize) -> (r: Option<BitSeq>)
    requires
        ws@.len() == vs@.len(),
    ensures
        opt_view(r) == first_value(ws@, seqs_view(vs@), idx as nat),
{
    let mut k: usize = 0;
    proof {
        assert(ws@.skip(0) =~= ws@);
        assert(seqs_view(vs@).skip(0) =~= seqs_view(vs@));
    }
    while k < ws.len()
        invariant
            k <= ws@.len(),
            ws@.len() == vs@.len(),
            first_value(ws@, seqs_view(vs@), idx as nat) == first_value(
                ws@.skip(k as int),
                seqs_view(vs@).skip(k as int),
                idx as nat,
            ),
        decreases ws@.len() - k,
    {
        if ws[k].index() == idx {
            proof {
                assert(seqs_view(vs@).skip(k as int)[0] == vs@[k as int]@);
            }
            return Some(vs[k].clone());
        }
        proof {
            assert(ws@.skip(k as int).drop_first() =~= ws@.skip(k + 1));
            assert(seqs_view(vs@).skip(k as int).drop_first() =~= seqs_view(vs@).skip(k + 1));
        }
        k = k + 1;
    }
    None
}

/// The value of wire `w` in `env`; an undefined signal named after the
/// wire when it is missing.
pub fn read_env(env: &[Option<BitSeq>], w: WireId) -> (r: Result<BitSeq, Error>)
    ensures
        match lookup(env_view(env@), w) {
            Some(v) => r matches Ok(x) && x@ == v,
            None => r matches Err(e) && error_is(e, SimErr::UndefinedSignal { wire: w.0 as nat }),
        },
{
    if w.index() < env.len() {
        match &env[w.index()] {
            Some(b) => {
                return Ok(b.clone());
            },
            None => {},
        }
    }
    Err(Error::UndefinedSignal { name: SignalName::from_string(w.to_display_string()) })
}

/// Run one instruction on `env` in place.
fn step_instruction(env: &mut Env, instr: &Instruction) -> (r: Result<(), Error>)
    requires
        op_sizes_ok(instr@.op),
        !step_panics(env_view(old(env)@), instr@),
    ensures
        match step_spec(env_view(old(env)@), instr@) {
            Ok(v) => r is Ok && env_view(final(env)@) == v,
            Err(se) => r matches Err(e) && error_is(e, se),
        },
        r is Ok ==> final(env)@.len() == old(env)@.len(),
{
    let ins = instr.inputs();
    let ghost e0 = env_view(env@);
    assert(instr@.inputs == ins@);
    let mut vals: Vec<BitSeq> = Vec::new();
    let mut k: usize = 0;
    proof {
        assert(ins@.take(0) =~= Seq::<WireId>::empty());
        assert(seqs_view(vals@) =~= Seq::<Seq<bool>>::empty());
    }
    while k < ins.len()
        invariant
            k <= ins@.len(),
            instr@.inputs == ins@,
            env_view(env@) == e0,
            operands(e0, ins@.take(k as int)) == Ok::<Seq<Seq<bool>>, SimErr>(seqs_view(vals@)),
        decreases ins@.len() - k,
    {
        proof {
            assert(ins@.take(k + 1).drop_last() =~= ins@.take(k as int));
            assert(ins@.take(k + 1).last() == ins@[k as int]);
        }
        let v = read_env(env.as_slice(), ins[k]);
        match v {
            Ok(b) => {
                let ghost prev = vals@;
                vals.push(b);
                proof {
                    assert(seqs_view(vals@) =~= seqs_view(prev).push(b@));
                }
            },
            Err(e) => {
                proof {
                    assert(lookup(e0, ins@[k as int]) is None);
                    assert(operands(e0, ins@.take(k + 1)) == Err::<Seq<Seq<bool>>, SimErr>(
                        SimErr::UndefinedSignal { wire: ins@[k as int].0 as nat },
                    ));
                    lemma_operands_err_sticks(e0, ins@, k + 1);
                    assert(operands(e0, ins@) is Err);
                    assert(operands(e0, instr@.inputs) is Err);
                    assert(step_spec(e0, instr@) == Err::<EnvSpec, SimErr>(
                        SimErr::UndefinedSignal { wire: ins@[k as int].0 as nat },
                    ));
                }
                return Err(e);
            },
        }
        k = k + 1;
    }
    proof {
        assert(ins@.take(k as int) =~= ins@);
        assert(instr@.inputs == ins@);
    }
    let res = apply_op(instr.op(), vals.as_slice());
    match res {
        Ok(b) => {
            let out = instr.output().index();
            if out < env.len() {
                env.set(out, Some(b));
                proof {
                    assert(env_view(env@) =~= e0.update(out as int, Some(b@)));
                }
            }
            Ok(())
        },
        Err(e) => Err(e),
    }
}

/// Once a prefix of the operand wires fails to read, the whole read
/// fails with that error.
pub proof fn lemma_operands_err_sticks(env: EnvSpec, ws: Seq<WireId>, k: int)
    requires
        0 <= k <= ws.len(),
        operands(env, ws.take(k)) is Err,
    ensures
        operands(env, ws) == operands(env, ws.take(k)),
    decreases ws.len() - k,
{
    if k < ws.len() {
        assert(ws.take(k + 1).drop_last() =~= ws.take(k));
        lemma_operands_err_sticks(env, ws, k + 1);
    } else {
        assert(ws.take(k) =~= ws);
    }
}

fn wrong_arity(expected: usize, actual: usize) -> (e: Error)
    ensures
        error_is(e, SimErr::WidthMismatch { expected: expected as nat, actual: actual as nat }),
{
    Error::width_mismatch(expected, actual)
}

/// A width mismatch with widths given as `u128` counts.
fn mismatch_wide(expected: u128, actual: u128) -> (e: Error)
    ensures
        error_is(e, SimErr::WidthMismatch { expected: expected as nat, actual: actual as nat }),
{
    let ex = if expected <= u32::MAX as u128 { expected as u32 } else { u32::MAX };
    let ac = if actual <= u32::MAX as u128 { actual as u32 } else { u32::MAX };
    Error::WidthMismatch { expected: Width::new(ex), actual: Width::new(ac) }
}

/// Apply `op` to concrete operand values.
pub fn apply_op(op: &Op, inputs: &[BitSeq]) -> (r: Result<BitSeq, Error>)
    requires
        op_sizes_ok(op@),
        !op_panics(op@, seqs_view(inputs@)),
    ensures
        bits_result_is(r, apply_op_spec(op@, seqs_view(inputs@))),
{
    let ghost ins = seqs_view(inputs@);
    proof {
        assert(ins.len() == inputs@.len());
        assert(forall|k: int| 0 <= k < inputs@.len() ==> #[trigger] ins[k] == inputs@[k]@);
    }
    match op {
        Op::Not => {
            if inputs.len() != 1 {
                return Err(wrong_arity(1, inputs.len()));
            }
            let a = inputs[0].as_slice();
            let mut out: Vec<bool> = Vec::new();
            let mut i: usize = 0;
            while i < a.len()
                invariant
                    i <= a@.len(),
                    out@.len() == i,
                    forall|k: int| 0 <= k < i ==> out@[k] == !a@[k],
                decreases a@.len() - i,
            {
                out.push(!a[i]);
                i = i + 1;
            }
            let r = BitSeq::from_vec(out);
            proof {
                assert(r@ =~= Seq::new(ins[0].len(), |k: int| !ins[0][k]));
            }
            Ok(r)
        },
        Op::Bin(b) => {
            if inputs.len() != 2 {
                return Err(wrong_arity(2, inputs.len()));
            }
            apply_bin(*b, &inputs[0], &inputs[1])
        },
        Op::Mux => {
            if inputs.len() != 3 {
                return Err(wrong_arity(3, inputs.len()));
            }
            if inputs[0].bit(0) {
                Ok(inputs[2].clone())
            } else {
                Ok(inputs[1].clone())
            }
        },
        Op::Const { bits, ty: _ } => {
            if inputs.len() != 0 {
                return Err(wrong_arity(0, inputs.len()));
            }
            Ok(bits.clone())
        },
        Op::Reg { init: _, ty: _ } => {
            if inputs.len() != 1 {
                return Err(wrong_arity(1, inputs.len()));
            }
            Ok(inputs[0].clone())
        },
        Op::Concat { low_width, high_width } => {
            if inputs.len() != 2 {
                return Err(wrong_arity(2, inputs.len()));
            }
            let l0 = inputs[0].len();
            let l1 = inputs[1].len();
            if l0 as u128 == *low_width as u128 && l1 as u128 == *high_width as u128 {
                Ok(inputs[0].clone().concat(inputs[1].clone()))
            } else {
                Err(mismatch_wide((*low_width + *high_width) as u128, l0 as u128 + l1 as u128))
            }
        },
        Op::Slice { lo, hi } => {
            if inputs.len() != 1 {
                return Err(wrong_arity(1, inputs.len()));
            }
            let n = inputs[0].len();
            if (*hi as u128) <= (n as u128) {
                Ok(inputs[0].sub(*lo as usize, *hi as usize))
            } else {
                Err(mismatch_wide((*hi - *lo) as u128, n as u128))
            }
        },
        Op::ArrayShiftIn { element_width, depth } => {
            let ew = *element_width as usize;
            let depth = *depth;
            let total = ew * depth;
            if inputs.len() >= 2 && inputs[0].len() == total && inputs[1].len() == ew {
                proof {
                    if depth == 0 {
                        assert(total == 0) by (nonlinear_arith)
                            requires
                                total == ew * depth,
                                depth == 0,
                        ;
                        assert(ins[0].len() == 0 && ins[1].len() == ew);
                        assert(op_panics(op@, ins));
                    }
                }
                proof {
                    assert((depth - 1) * ew <= ew * depth) by (nonlinear_arith)
                        requires
                            depth >= 1,
                    ;
                }
                let kept = (depth - 1) * ew;
                proof {
                    assert(kept <= total) by (nonlinear_arith)
                        requires
                            kept == (depth - 1) * ew,
                            total == ew * depth,
                            depth >= 1,
                    ;
                }
                let old_kept = inputs[0].sub(0, kept);
                let r = inputs[1].clone().concat(old_kept);
                proof {
                    assert(inputs@[0]@.subrange(0, kept as int) =~= inputs@[0]@.take(kept as int));
                }
                Ok(r)
            } else {
                Err(mismatch_wide(total as u128, inputs.len() as u128))
            }
        },
        Op::ArrayTail { element_width, depth } => {
            let ew = *element_width as usize;
            let depth = *depth;
            let total = ew * depth;
            if inputs.len() >= 1 && inputs[0].len() == total {
                proof {
                    if depth == 0 {
                        assert(total == 0) by (nonlinear_arith)
                            requires
                                total == ew * depth,
                                depth == 0,
                        ;
                        assert(ins[0].len() == 0);
                        assert(op_panics(op@, ins));
                    }
                }
                proof {
                    assert((depth - 1) * ew <= ew * depth) by (nonlinear_arith)
                        requires
                            depth >= 1,
                    ;
                }
                let start = (depth - 1) * ew;
                proof {
                    assert(start + ew == total) by (nonlinear_arith)
                        requires
                            start == (depth - 1) * ew,
                            total == ew * depth,
                            depth >= 1,
                    ;
                }
                Ok(inputs[0].sub(start, start + ew))
            } else {
                let actual = if inputs.len() >= 1 { inputs[0].len() } else { 0 };
                Err(mismatch_wide(total as u128, actual as u128))
            }
        },
    }
}

/// The value of a bit sequence of at most 128 bits.
fn seq_value(a: &BitSeq) -> (r: u128)
    requires
        a@.len() <= 128,
    ensures
        r == bits_val(a@),
{
    proof {
        lemma_bits_val_bound(a@);
        lemma_pow2_two_to_128();
        if a@.len() < 128 {
            lemma_pow2_strictly_increases(a@.len(), 128);
        }
    }
    match u128_of_bits(a.as_slice()) {
        Some(x) => x,
        None => 0,
    }
}

/// Apply a binary gate to two bit sequences.
pub fn apply_bin(op: BinOp, a: &BitSeq, b: &BitSeq) -> (r: Result<BitSeq, Error>)
    ensures
        bits_result_is(r, apply_bin_spec(op, a@, b@)),
{
    if a.len() != b.len() {
        return Err(Error::width_mismatch(a.len(), b.len()));
    }
    let n = a.len();
    match op {
        BinOp::And | BinOp::Or | BinOp::Xor => {
            let sa = a.as_slice();
            let sb = b.as_slice();
            let mut out: Vec<bool> = Vec::new();
            let mut i: usize = 0;
            while i < n
                invariant
                    i <= n,
                    n == sa@.len(),
                    n == sb@.len(),
                    out@.len() == i,
                    op == BinOp::And || op == BinOp::Or || op == BinOp::Xor,
                    forall|k: int| 0 <= k < i ==> out@[k] == zip_bits(sa@, sb@, op)[k],
                decreases n - i,
            {
                let v = match op {
                    BinOp::And => sa[i] && sb[i],
                    BinOp::Or => sa[i] || sb[i],
                    _ => sa[i] != sb[i],
                };
                out.push(v);
                i = i + 1;
            }
            let r = BitSeq::from_vec(out);
            proof {
                assert(r@ =~= zip_bits(a@, b@, op));
                assert(apply_bin_spec(op, a@, b@) == Ok::<Seq<bool>, SimErr>(zip_bits(a@, b@, op)));
            }
            Ok(r)
        },
        _ => {
            if n > 128 {
                return Err(Error::Overflow { width: Width::saturating(n) });
            }
            let av = seq_value(a);
            let bv = seq_value(b);
            proof {
                lemma_pow2_two_to_128();
                lemma_pow2_pos(n as nat);
            }
            match op {
                BinOp::Eq => {
                    let r = BitSeq::from_iter([av == bv]);
                    proof {
                        assert(r@ =~= seq![av == bv]);
                    }
                    Ok(r)
                },
                BinOp::Lt => {
                    let r = BitSeq::from_iter([av < bv]);
                    proof {
                        assert(r@ =~= seq![av < bv]);
                    }
                    Ok(r)
                },
                BinOp::Add => {
                    let w = av.wrapping_add(bv);
                    proof {
                        vstd::arithmetic::div_mod::lemma_fundamental_div_mod_converse_mod(
                            av + bv,
                            pow2(128) as int,
                            if av + bv > u128::MAX { 1 } else { 0 },
                            w as int,
                        );
                        lemma_mod_of_wrapped(av + bv, w, n as nat);
                        lemma_mask_is_mod(w, n as nat);
                    }
                    Ok(BitSeq::from_vec(bits_of_u128(w & mask(n), n)))
                },
                BinOp::Sub => {
                    let w = av.wrapping_sub(bv);
                    proof {
                        vstd::arithmetic::div_mod::lemma_fundamental_div_mod_converse_mod(
                            av - bv,
                            pow2(128) as int,
                            if av - bv < 0 { -1 } else { 0 },
                            w as int,
                        );
                        lemma_mod_of_wrapped(av - bv, w, n as nat);
                        lemma_mask_is_mod(w, n as nat);
                    }
                    Ok(BitSeq::from_vec(bits_of_u128(w & mask(n), n)))
                },
                _ => {
                    let w = av.wrapping_mul(bv);
                    proof {
                        lemma_mod_of_wrapped(av * bv, w, n as nat);
                        lemma_mask_is_mod(w, n as nat);
                    }
                    Ok(BitSeq::from_vec(bits_of_u128(w & mask(n), n)))
                },
            }
        },
    }
}

/// Whether every op of `graph` satisfies [`op_ok`]: what the simulator
/// asks of a graph before it runs one.
pub fn graph_ops_checked(graph: &HdlGraph) -> (r: bool)
    ensures
        r == graph_ops_ok(graph@),
{
    let instrs = graph.instructions();
    let mut j: usize = 0;
    while j < instrs.len()
        invariant
            j <= instrs@.len(),
            instrs@.len() == graph@.instrs.len(),
            instr_views(instrs@) == graph@.instrs,
            forall|k: int| 0 <= k < j ==> op_ok(#[trigger] graph@.instrs[k].op),
        decreases instrs@.len() - j,
    {
        let op = instrs[j].op();
        proof {
            assert(graph@.instrs[j as int] == instrs@[j as int]@);
        }
        let ok = match op {
            Op::Concat { low_width, high_width } => low_width.checked_add(*high_width).is_some(),
            Op::Slice { lo, hi } => *lo <= *hi,
            Op::ArrayShiftIn { element_width, depth } => *depth >= 1 && (*element_width as usize).checked_mul(
                *depth,
            ).is_some(),
            Op::ArrayTail { element_width, depth } => *depth >= 1 && (*element_width as usize).checked_mul(
                *depth,
            ).is_some(),
            _ => true,
        };
        if !ok {
            return false;
        }
        j = j + 1;
    }
    true
}

} // verus!
