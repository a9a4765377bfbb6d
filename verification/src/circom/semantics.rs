//! What the emitted Circom computes.  A witness model of the emitted
//! statements (signal bits, circomlib's `Num2Bits`, `IsEqual` and
//! `LessThan`, each gadget input held within its range so that field and
//! integer arithmetic agree), and the law that the statements one
//! instruction lowers to set its output signal to the interpreter's
//! result.

use vstd::prelude::*;
use vstd::arithmetic::power2::{pow2, lemma_pow2_pos, lemma_pow2_adds, lemma_pow2_strictly_increases};
use vstd::arithmetic::div_mod::lemma_mod_add_multiples_vanish;

use crate::arith::{bits_val, val_bits, lemma_bits_val_bound, lemma_bits_val_push, lemma_bits_val_of_val_bits,
    lemma_val_bits_of_bits_val, lemma_pow2_128_bound};
use crate::circom::ast::{ExprV, StmtV};
use crate::circom::lower::{BitwiseOp, arith_v, assign_v, cwidth, kept, lower_v, op_fits, sat_add, sat_mul, b2n_v, bit_v, bitwise_seq, bitwise_v, cname, comp_bits_seq,
    comp_name, compare_v, const_seq, copy_seq, mux_seq, not_seq, num2bits_v, u32_count};
use crate::circom::render::coef;
use crate::ir::graph::GraphSpec;
use crate::ir::instr::InstrSpec;
use crate::ir::op::{BinOp, OpSpec};
use crate::ir::wire::WireId;
use crate::sim::interp::{SimErr, apply_bin_spec, apply_op_spec, op_ok};

verus! {

/// A witness under construction: signal values by name and bit index,
/// the declared components (template and arguments), the values driven
/// into component inputs, and whether every gadget input and constraint
/// so far was within range.
pub ghost struct Witness {
    pub sigs: Map<(Seq<char>, u32), int>,
    pub comps: Map<Seq<char>, (Seq<char>, Seq<u32>)>,
    pub drives: Map<(Seq<char>, Option<u32>), int>,
    pub ok: bool,
}

/// The value of bit `i` of signal `name` (0 when never assigned).
pub open spec fn sig_val(w: Witness, name: Seq<char>, i: u32) -> int {
    if w.sigs.dom().contains((name, i)) {
        w.sigs[(name, i)]
    } else {
        0
    }
}

/// The value driven into input `idx` of component `comp` (0 when never
/// driven).
pub open spec fn drive_val(w: Witness, comp: Seq<char>, idx: Option<u32>) -> int {
    if w.drives.dom().contains((comp, idx)) {
        w.drives[(comp, idx)]
    } else {
        0
    }
}

/// Bit `i` of a number.
pub open spec fn bit_of(v: int, i: nat) -> int {
    (v / (pow2(i) as int)) % 2
}

/// The value of an expression: field operations as integer ones,
/// `comp.out[i]` as bit `i` of what drives a `Num2Bits`, and `comp.out`
/// as the comparison an `IsEqual` or `LessThan` makes of its two inputs.
pub open spec fn eval(w: Witness, e: ExprV) -> int
    decreases e, 0nat,
{
    match e {
        ExprV::Bit { sig, index } => sig_val(w, sig, index),
        ExprV::BitLiteral(b) => if b {
            1
        } else {
            0
        },
        ExprV::FieldLiteral(v) => v as int,
        ExprV::Bits2Num(es) => eval_pack(w, es, es.len()),
        ExprV::Neg(a) => -eval(w, *a),
        ExprV::Add(a, b) => eval(w, *a) + eval(w, *b),
        ExprV::Sub(a, b) => eval(w, *a) - eval(w, *b),
        ExprV::Mul(a, b) => eval(w, *a) * eval(w, *b),
        ExprV::CompOutBit { comp, port, index } => bit_of(drive_val(w, comp, None), index as nat),
        ExprV::CompOutField { comp, port } => {
            let x = drive_val(w, comp, Some(0));
            let y = drive_val(w, comp, Some(1));
            if w.comps.dom().contains(comp) && w.comps[comp].0 == "IsEqual"@ {
                if x == y {
                    1
                } else {
                    0
                }
            } else if x < y {
                1
            } else {
                0
            }
        },
    }
}

/// `es[0] + 2*es[1] + ... + 2^(n-1)*es[n-1]`.
pub open spec fn eval_pack(w: Witness, es: Seq<ExprV>, n: nat) -> int
    decreases es, n,
{
    if n == 0 || n > es.len() {
        0
    } else {
        eval_pack(w, es, (n - 1) as nat) + (pow2((n - 1) as nat) as int) * eval(w, es[n - 1])
    }
}

/// Whether an expression reads signal `name`.
pub open spec fn reads(e: ExprV, name: Seq<char>) -> bool
    decreases e, 0nat,
{
    match e {
        ExprV::Bit { sig, index } => sig == name,
        ExprV::Bits2Num(es) => reads_any(es, name, es.len()),
        ExprV::Neg(a) => reads(*a, name),
        ExprV::Add(a, b) => reads(*a, name) || reads(*b, name),
        ExprV::Sub(a, b) => reads(*a, name) || reads(*b, name),
        ExprV::Mul(a, b) => reads(*a, name) || reads(*b, name),
        _ => false,
    }
}

/// Whether one of the first `n` expressions reads signal `name`.
pub open spec fn reads_any(es: Seq<ExprV>, name: Seq<char>, n: nat) -> bool
    decreases es, n,
{
    if n == 0 || n > es.len() {
        false
    } else {
        reads_any(es, name, (n - 1) as nat) || reads(es[n - 1], name)
    }
}

/// The input range of a gadget: below `2^n` for `Num2Bits(n)` and
/// `LessThan(n)` with `n` within the 252 bits a BN254 element safely
/// holds, below `2^252` otherwise; non-negative throughout.
pub open spec fn drive_ok(w: Witness, comp: Seq<char>, v: int) -> bool {
    if w.comps.dom().contains(comp) {
        let t = w.comps[comp].0;
        let args = w.comps[comp].1;
        if (t == "Num2Bits"@ || t == "LessThan"@) && args.len() >= 1 {
            args[0] <= 252 && 0 <= v < pow2(args[0] as nat)
        } else {
            0 <= v < pow2(252)
        }
    } else {
        false
    }
}

/// One statement: declarations do nothing, a component is recorded,
/// a drive sets a component input (checking its range), an assignment
/// sets a signal bit, a constraint is checked.
pub open spec fn exec_stmt(w: Witness, s: StmtV) -> Witness {
    match s {
        StmtV::SignalDecl(_) => w,
        StmtV::Component { name, template, args } => Witness {
            sigs: w.sigs,
            comps: w.comps.insert(name, (template, args)),
            drives: w.drives,
            ok: w.ok,
        },
        StmtV::ComponentDrive { comp, port, index, rhs } => {
            let v = eval(w, rhs);
            Witness {
                sigs: w.sigs,
                comps: w.comps,
                drives: w.drives.insert((comp, index), v),
                ok: w.ok && drive_ok(w, comp, v),
            }
        },
        StmtV::Assign { lhs, index, rhs } => Witness {
            sigs: w.sigs.insert(
                (
                    lhs,
                    match index {
                        Some(i) => i,
                        None => 0,
                    },
                ),
                eval(w, rhs),
            ),
            comps: w.comps,
            drives: w.drives,
            ok: w.ok,
        },
        StmtV::Constraint(e) => Witness { sigs: w.sigs, comps: w.comps, drives: w.drives, ok: w.ok && eval(w, e) == 0 },
    }
}

/// Statements in order.
pub open spec fn exec_stmts(w: Witness, ss: Seq<StmtV>) -> Witness
    decreases ss.len(),
{
    if ss.len() == 0 {
        w
    } else {
        exec_stmt(exec_stmts(w, ss.drop_last()), ss.last())
    }
}

/// Signal `name` holds `bits` (as 0 and 1) at indices `0..bits.len()`.
pub open spec fn holds(w: Witness, name: Seq<char>, bits: Seq<bool>) -> bool {
    forall|i: int|
        0 <= i < bits.len() ==> #[trigger] sig_val(w, name, i as u32) == (if bits[i] {
            1int
        } else {
            0int
        })
}

/// `w2` and `w` agree on every signal but `out`, and on components.
pub open spec fn agree_except(w2: Witness, w: Witness, out: Seq<char>) -> bool {
    &&& w2.comps == w.comps
    &&& w2.drives == w.drives
    &&& forall|n: Seq<char>, i: u32| n != out ==> #[trigger] sig_val(w2, n, i) == sig_val(w, n, i)
}

/// An expression not reading `out` has the same value in witnesses
/// that agree on everything but `out`.
proof fn lemma_eval_frame(w2: Witness, w: Witness, out: Seq<char>, e: ExprV)
    requires
        agree_except(w2, w, out),
        !reads(e, out),
    ensures
        eval(w2, e) == eval(w, e),
    decreases e, 0nat,
{
    match e {
        ExprV::Bit { sig, index } => {
            assert(sig_val(w2, sig, index) == sig_val(w, sig, index));
        },
        ExprV::Bits2Num(es) => {
            lemma_pack_frame(w2, w, out, es, es.len());
        },
        ExprV::Neg(a) => {
            lemma_eval_frame(w2, w, out, *a);
        },
        ExprV::Add(a, b) => {
            lemma_eval_frame(w2, w, out, *a);
            lemma_eval_frame(w2, w, out, *b);
        },
        ExprV::Sub(a, b) => {
            lemma_eval_frame(w2, w, out, *a);
            lemma_eval_frame(w2, w, out, *b);
        },
        ExprV::Mul(a, b) => {
            lemma_eval_frame(w2, w, out, *a);
            lemma_eval_frame(w2, w, out, *b);
        },
        _ => {},
    }
}

proof fn lemma_pack_frame(w2: Witness, w: Witness, out: Seq<char>, es: Seq<ExprV>, n: nat)
    requires
        agree_except(w2, w, out),
        !reads_any(es, out, n),
    ensures
        eval_pack(w2, es, n) == eval_pack(w, es, n),
    decreases es, n,
{
    if n == 0 || n > es.len() {
    } else {
        lemma_pack_frame(w2, w, out, es, (n - 1) as nat);
        lemma_eval_frame(w2, w, out, es[n - 1]);
    }
}

/// The bit index an assignment writes.
pub open spec fn assign_index(s: StmtV) -> u32 {
    match s {
        StmtV::Assign { index: Some(i), .. } => i,
        _ => 0,
    }
}

/// The value an assignment writes.
pub open spec fn assign_rhs(s: StmtV) -> ExprV {
    match s {
        StmtV::Assign { rhs, .. } => rhs,
        _ => ExprV::BitLiteral(false),
    }
}

/// A run of assignments to distinct bits of `out`, none reading `out`.
pub open spec fn assigns_to(ss: Seq<StmtV>, out: Seq<char>) -> bool {
    &&& forall|k: int|
        0 <= k < ss.len() ==> (#[trigger] ss[k] matches StmtV::Assign { lhs, index: Some(_), rhs } && lhs == out
            && !reads(rhs, out))
    &&& forall|k1: int, k2: int|
        0 <= k1 < k2 < ss.len() ==> assign_index(#[trigger] ss[k1]) != assign_index(#[trigger] ss[k2])
}

/// Running such assignments sets each written bit of `out` to its
/// value in the starting witness, and touches nothing else.
proof fn lemma_assigns(w: Witness, ss: Seq<StmtV>, out: Seq<char>)
    requires
        assigns_to(ss, out),
    ensures
        agree_except(exec_stmts(w, ss), w, out),
        exec_stmts(w, ss).ok == w.ok,
        forall|k: int|
            0 <= k < ss.len() ==> sig_val(exec_stmts(w, ss), out, assign_index(#[trigger] ss[k])) == eval(
                w,
                assign_rhs(ss[k]),
            ),
    decreases ss.len(),
{
    if ss.len() > 0 {
        let init = ss.drop_last();
        assert forall|k: int| 0 <= k < init.len() implies (#[trigger] init[k] matches StmtV::Assign {
            lhs,
            index: Some(_),
            rhs,
        } && lhs == out && !reads(rhs, out)) by {
            assert(init[k] == ss[k]);
        }
        assert forall|k1: int, k2: int| 0 <= k1 < k2 < init.len() implies assign_index(#[trigger] init[k1])
            != assign_index(#[trigger] init[k2]) by {
            assert(init[k1] == ss[k1]);
            assert(init[k2] == ss[k2]);
        }
        lemma_assigns(w, init, out);
        let w1 = exec_stmts(w, init);
        let last = ss.last();
        assert(ss[ss.len() - 1] == last);
        lemma_eval_frame(w1, w, out, assign_rhs(last));
        let w2 = exec_stmts(w, ss);
        assert forall|k: int| 0 <= k < ss.len() implies sig_val(w2, out, assign_index(#[trigger] ss[k])) == eval(
            w,
            assign_rhs(ss[k]),
        ) by {
            if k < ss.len() - 1 {
                assert(init[k] == ss[k]);
                assert(assign_index(ss[k]) != assign_index(ss[ss.len() - 1]));
            }
        }
        assert forall|n: Seq<char>, i: u32| n != out implies #[trigger] sig_val(w2, n, i) == sig_val(w, n, i) by {
            assert(sig_val(w1, n, i) == sig_val(w, n, i));
        }
    }
}

/// The 0/1 value of a bit.
pub open spec fn b01(b: bool) -> int {
    if b {
        1
    } else {
        0
    }
}

/// Packing the bits of a signal that holds `v` gives `v`'s value.
proof fn lemma_pack_value(w: Witness, src: WireId, ctx: Option<usize>, v: Seq<bool>, n: nat)
    requires
        holds(w, cname(src, ctx), v),
        n <= v.len() <= u32::MAX,
    ensures
        eval_pack(w, Seq::new(v.len(), |i: int| bit_v(src, i as u32, ctx)), n) == bits_val(v.take(n as int)),
    decreases n,
{
    let es = Seq::new(v.len(), |i: int| bit_v(src, i as u32, ctx));
    if n == 0 {
        assert(v.take(0) =~= Seq::<bool>::empty());
    } else {
        lemma_pack_value(w, src, ctx, v, (n - 1) as nat);
        let k = (n - 1) as int;
        assert(v.take(n as int) =~= v.take(k).push(v[k]));
        lemma_bits_val_push(v.take(k), v[k]);
        assert(sig_val(w, cname(src, ctx), k as u32) == b01(v[k]));
        assert(eval(w, es[k]) == b01(v[k]));
    }
}

/// The packed value of wire `src` holding `v`.
proof fn lemma_b2n(w: Witness, src: WireId, ctx: Option<usize>, v: Seq<bool>)
    requires
        holds(w, cname(src, ctx), v),
        v.len() <= u32::MAX,
    ensures
        eval(w, b2n_v(src, v.len() as u32, ctx)) == bits_val(v),
{
    lemma_pack_value(w, src, ctx, v, v.len());
    assert(v.take(v.len() as int) =~= v);
    assert(Seq::new((v.len() as u32) as nat, |i: int| bit_v(src, i as u32, ctx)) =~= Seq::new(
        v.len(),
        |i: int| bit_v(src, i as u32, ctx),
    ));
}

/// `out[i] <== (1 - a[i])` sets `out` to the complement of `a`.
proof fn lemma_low_not(w: Witness, out: WireId, a: WireId, ctx: Option<usize>, v: Seq<bool>)
    requires
        holds(w, cname(a, ctx), v),
        v.len() <= u32::MAX,
        cname(a, ctx) != cname(out, ctx),
    ensures
        exec_stmts(w, not_seq(out, a, v.len() as u32, ctx)).ok == w.ok,
        holds(exec_stmts(w, not_seq(out, a, v.len() as u32, ctx)), cname(out, ctx), Seq::new(v.len(), |i: int| !v[i])),
{
    let ss = not_seq(out, a, v.len() as u32, ctx);
    let o = cname(out, ctx);
    assert forall|k: int| 0 <= k < ss.len() implies (#[trigger] ss[k] matches StmtV::Assign {
        lhs,
        index: Some(_),
        rhs,
    } && lhs == o && !reads(rhs, o)) by {
        reveal_with_fuel(reads, 4);
    }
    assert forall|k1: int, k2: int| 0 <= k1 < k2 < ss.len() implies assign_index(#[trigger] ss[k1]) != assign_index(
        #[trigger] ss[k2],
    ) by {}
    lemma_assigns(w, ss, o);
    let w2 = exec_stmts(w, ss);
    let r = Seq::new(v.len(), |i: int| !v[i]);
    assert forall|i: int| 0 <= i < r.len() implies #[trigger] sig_val(w2, o, i as u32) == b01(r[i]) by {
        assert(assign_index(ss[i]) == i as u32);
        assert(sig_val(w, cname(a, ctx), i as u32) == b01(v[i]));
        reveal_with_fuel(eval, 3);
        assert(eval(w, assign_rhs(ss[i])) == 1 - b01(v[i]));
    }
}

/// The bitwise op of a gate.
pub open spec fn bitwise_bit(op: BitwiseOp, x: bool, y: bool) -> bool {
    match op {
        BitwiseOp::And => x && y,
        BitwiseOp::Or => x || y,
        BitwiseOp::Xor => x != y,
    }
}

/// The per-bit field formulas of AND, OR and XOR compute those gates.
proof fn lemma_low_bitwise(w: Witness, out: WireId, a: WireId, b: WireId, op: BitwiseOp, ctx: Option<usize>, va: Seq<bool>, vb: Seq<bool>)
    requires
        holds(w, cname(a, ctx), va),
        holds(w, cname(b, ctx), vb),
        va.len() == vb.len(),
        va.len() <= u32::MAX,
        cname(a, ctx) != cname(out, ctx),
        cname(b, ctx) != cname(out, ctx),
    ensures
        exec_stmts(w, bitwise_seq(out, a, b, va.len() as u32, op, ctx)).ok == w.ok,
        holds(
            exec_stmts(w, bitwise_seq(out, a, b, va.len() as u32, op, ctx)),
            cname(out, ctx),
            Seq::new(va.len(), |i: int| bitwise_bit(op, va[i], vb[i])),
        ),
{
    let ss = bitwise_seq(out, a, b, va.len() as u32, op, ctx);
    let o = cname(out, ctx);
    assert forall|k: int| 0 <= k < ss.len() implies (#[trigger] ss[k] matches StmtV::Assign {
        lhs,
        index: Some(_),
        rhs,
    } && lhs == o && !reads(rhs, o)) by {
        reveal_with_fuel(reads, 4);
    }
    assert forall|k1: int, k2: int| 0 <= k1 < k2 < ss.len() implies assign_index(#[trigger] ss[k1]) != assign_index(
        #[trigger] ss[k2],
    ) by {}
    lemma_assigns(w, ss, o);
    let w2 = exec_stmts(w, ss);
    let r = Seq::new(va.len(), |i: int| bitwise_bit(op, va[i], vb[i]));
    assert forall|i: int| 0 <= i < r.len() implies #[trigger] sig_val(w2, o, i as u32) == b01(r[i]) by {
        assert(assign_index(ss[i]) == i as u32);
        assert(sig_val(w, cname(a, ctx), i as u32) == b01(va[i]));
        assert(sig_val(w, cname(b, ctx), i as u32) == b01(vb[i]));
        let x = b01(va[i]);
        let y = b01(vb[i]);
        let xe = bit_v(a, i as u32, ctx);
        let ye = bit_v(b, i as u32, ctx);
        assert(eval(w, xe) == x);
        assert(eval(w, ye) == y);
        lemma_bitwise_eval(w, op, a, b, i as u32, ctx, va[i], vb[i]);
    }
}

/// The field formula of a bitwise op on two bits computes that op.
proof fn lemma_bitwise_eval(w: Witness, op: BitwiseOp, a: WireId, b: WireId, i: u32, ctx: Option<usize>, p: bool, q: bool)
    requires
        eval(w, bit_v(a, i, ctx)) == b01(p),
        eval(w, bit_v(b, i, ctx)) == b01(q),
    ensures
        eval(w, bitwise_v(op, a, b, i, ctx)) == b01(bitwise_bit(op, p, q)),
{
    reveal_with_fuel(eval, 4);
    let x = b01(p);
    let y = b01(q);
    let e = bitwise_v(op, a, b, i, ctx);
    match op {
        BitwiseOp::And => {
            assert(eval(w, e) == x * y);
        },
        BitwiseOp::Or => {
            assert(eval(w, e) == x + y - x * y);
        },
        BitwiseOp::Xor => {
            assert(eval(w, e) == x + y - 2 * (x * y));
        },
    }
    if p {
        if q {
        } else {
        }
    }
}

/// `out[i] <== ((sel[0] * (t[i] - f[i])) + f[i])` selects `t` when the
/// selector's first bit is set and `f` otherwise.
proof fn lemma_low_mux(
    w: Witness,
    out: WireId,
    sel: WireId,
    f: WireId,
    t: WireId,
    ctx: Option<usize>,
    vs: Seq<bool>,
    vf: Seq<bool>,
    vt: Seq<bool>,
    n: nat,
)
    requires
        holds(w, cname(sel, ctx), vs),
        holds(w, cname(f, ctx), vf),
        holds(w, cname(t, ctx), vt),
        vs.len() >= 1,
        n <= u32::MAX,
        n <= (if vs[0] { vt.len() } else { vf.len() }),
        cname(sel, ctx) != cname(out, ctx),
        cname(f, ctx) != cname(out, ctx),
        cname(t, ctx) != cname(out, ctx),
    ensures
        exec_stmts(w, mux_seq(out, sel, f, t, n as u32, ctx)).ok == w.ok,
        holds(
            exec_stmts(w, mux_seq(out, sel, f, t, n as u32, ctx)),
            cname(out, ctx),
            Seq::new(n, |i: int| if vs[0] { vt[i] } else { vf[i] }),
        ),
{
    let ss = mux_seq(out, sel, f, t, n as u32, ctx);
    let o = cname(out, ctx);
    assert forall|k: int| 0 <= k < ss.len() implies (#[trigger] ss[k] matches StmtV::Assign {
        lhs,
        index: Some(_),
        rhs,
    } && lhs == o && !reads(rhs, o)) by {
        reveal_with_fuel(reads, 4);
    }
    assert forall|k1: int, k2: int| 0 <= k1 < k2 < ss.len() implies assign_index(#[trigger] ss[k1]) != assign_index(
        #[trigger] ss[k2],
    ) by {}
    lemma_assigns(w, ss, o);
    let w2 = exec_stmts(w, ss);
    let r = Seq::new(n, |i: int| if vs[0] { vt[i] } else { vf[i] });
    let z: int = 0;
    assert(sig_val(w, cname(sel, ctx), z as u32) == b01(vs[z]));
    assert forall|i: int| 0 <= i < r.len() implies #[trigger] sig_val(w2, o, i as u32) == b01(r[i]) by {
        assert(assign_index(ss[i]) == i as u32);
        let s0 = b01(vs[0]);
        let x = sig_val(w, cname(t, ctx), i as u32);
        let y = sig_val(w, cname(f, ctx), i as u32);
        if vs[0] {
            assert(x == b01(vt[i]));
        } else {
            assert(y == b01(vf[i]));
        }
        assert(s0 * (x - y) + y == (if vs[0] { x } else { y })) by (nonlinear_arith)
            requires
                s0 == b01(vs[0]),
        ;
        reveal_with_fuel(eval, 4);
    }
}

/// `out[i] <== bit;` writes the constant.
proof fn lemma_low_const(w: Witness, out: WireId, bits: Seq<bool>, ctx: Option<usize>)
    requires
        bits.len() <= u32::MAX,
    ensures
        exec_stmts(w, const_seq(out, bits, ctx)).ok == w.ok,
        holds(exec_stmts(w, const_seq(out, bits, ctx)), cname(out, ctx), bits),
{
    let ss = const_seq(out, bits, ctx);
    let o = cname(out, ctx);
    assert(u32_count(bits.len()) == bits.len());
    assert forall|k: int| 0 <= k < ss.len() implies (#[trigger] ss[k] matches StmtV::Assign {
        lhs,
        index: Some(_),
        rhs,
    } && lhs == o && !reads(rhs, o)) by {
        reveal_with_fuel(reads, 4);
    }
    assert forall|k1: int, k2: int| 0 <= k1 < k2 < ss.len() implies assign_index(#[trigger] ss[k1]) != assign_index(
        #[trigger] ss[k2],
    ) by {}
    lemma_assigns(w, ss, o);
    let w2 = exec_stmts(w, ss);
    assert forall|i: int| 0 <= i < bits.len() implies #[trigger] sig_val(w2, o, i as u32) == b01(bits[i]) by {
        assert(assign_index(ss[i]) == i as u32);
    }
}

/// Running `a + b` is running `a`, then `b`.
proof fn lemma_exec_append(w: Witness, a: Seq<StmtV>, b: Seq<StmtV>)
    ensures
        exec_stmts(w, a + b) == exec_stmts(exec_stmts(w, a), b),
    decreases b.len(),
{
    if b.len() == 0 {
        assert(a + b =~= a);
    } else {
        assert((a + b).drop_last() =~= a + b.drop_last());
        assert((a + b).last() == b.last());
        lemma_exec_append(w, a, b.drop_last());
    }
}

/// Two copies into consecutive bits of `out`: `n1` bits of `s1` from
/// `off1`, then `n2` bits of `s2` from `off2`.
proof fn lemma_low_copy2(
    w: Witness,
    out: WireId,
    ctx: Option<usize>,
    s1: WireId,
    off1: u32,
    n1: u32,
    v1: Seq<bool>,
    s2: WireId,
    off2: u32,
    n2: u32,
    v2: Seq<bool>,
)
    requires
        holds(w, cname(s1, ctx), v1),
        holds(w, cname(s2, ctx), v2),
        off1 + n1 <= v1.len() <= u32::MAX,
        off2 + n2 <= v2.len() <= u32::MAX,
        n1 + n2 <= u32::MAX,
        cname(s1, ctx) != cname(out, ctx),
        cname(s2, ctx) != cname(out, ctx),
    ensures
        ({
            let ss = copy_seq(out, ctx, 0, s1, ctx, off1, n1) + copy_seq(out, ctx, n1, s2, ctx, off2, n2);
            &&& exec_stmts(w, ss).ok == w.ok
            &&& holds(
                exec_stmts(w, ss),
                cname(out, ctx),
                v1.subrange(off1 as int, off1 + n1) + v2.subrange(off2 as int, off2 + n2),
            )
        }),
{
    let c1 = copy_seq(out, ctx, 0, s1, ctx, off1, n1);
    let c2 = copy_seq(out, ctx, n1, s2, ctx, off2, n2);
    let ss = c1 + c2;
    let o = cname(out, ctx);
    assert forall|k: int| 0 <= k < ss.len() implies assign_index(#[trigger] ss[k]) == k as u32 && assign_rhs(ss[k])
        == (if k < n1 {
        bit_v(s1, (off1 + k) as u32, ctx)
    } else {
        bit_v(s2, (off2 + k - n1) as u32, ctx)
    }) && (ss[k] matches StmtV::Assign { lhs, index: Some(_), rhs } && lhs == o) by {
        if k < n1 {
            assert(ss[k] == c1[k]);
        } else {
            assert(ss[k] == c2[k - n1]);
        }
    }
    assert forall|k: int| 0 <= k < ss.len() implies (#[trigger] ss[k] matches StmtV::Assign {
        lhs,
        index: Some(_),
        rhs,
    } && lhs == o && !reads(rhs, o)) by {
        assert(assign_index(ss[k]) == k as u32);
    }
    assert forall|k1: int, k2: int| 0 <= k1 < k2 < ss.len() implies assign_index(#[trigger] ss[k1]) != assign_index(
        #[trigger] ss[k2],
    ) by {}
    lemma_assigns(w, ss, o);
    let w2 = exec_stmts(w, ss);
    let r = v1.subrange(off1 as int, off1 + n1) + v2.subrange(off2 as int, off2 + n2);
    assert forall|i: int| 0 <= i < r.len() implies #[trigger] sig_val(w2, o, i as u32) == b01(r[i]) by {
        assert(assign_index(ss[i]) == i as u32);
        if i < n1 {
            let j = off1 + i;
            assert(sig_val(w, cname(s1, ctx), j as u32) == b01(v1[j]));
        } else {
            let j = off2 + i - n1;
            assert(sig_val(w, cname(s2, ctx), j as u32) == b01(v2[j]));
        }
    }
}

/// What a signal holds depends on the signals alone.
proof fn lemma_holds_sigs(w2: Witness, w: Witness, name: Seq<char>, bits: Seq<bool>)
    requires
        w2.sigs == w.sigs,
        holds(w, name, bits),
    ensures
        holds(w2, name, bits),
{
    assert forall|i: int| 0 <= i < bits.len() implies #[trigger] sig_val(w2, name, i as u32) == b01(bits[i]) by {
        assert(sig_val(w, name, i as u32) == b01(bits[i]));
    }
}

/// A comparator: `comp.in[0]` and `comp.in[1]` are driven with the
/// packed operands and `out[0]` takes `comp.out`: equality for
/// `IsEqual`, less-than for `LessThan`.
proof fn lemma_low_compare(
    w: Witness,
    tag: Seq<char>,
    is_eq: bool,
    out: WireId,
    a: WireId,
    b: WireId,
    ctx: Option<usize>,
    va: Seq<bool>,
    vb: Seq<bool>,
)
    requires
        holds(w, cname(a, ctx), va),
        holds(w, cname(b, ctx), vb),
        va.len() == vb.len() <= 128,
    ensures
        ({
            let template = if is_eq {
                "IsEqual"@
            } else {
                "LessThan"@
            };
            let args = if is_eq {
                Seq::empty()
            } else {
                seq![va.len() as u32]
            };
            let l = compare_v(tag, template, args, out, a, b, va.len() as u32, vb.len() as u32, ctx);
            let x = bits_val(va);
            let y = bits_val(vb);
            &&& exec_stmts(w, l.stmts).ok == w.ok
            &&& holds(
                exec_stmts(w, l.stmts),
                cname(out, ctx),
                seq![if is_eq { x == y } else { x < y }],
            )
        }),
{
    reveal_strlit("IsEqual");
    reveal_strlit("LessThan");
    reveal_strlit("Num2Bits");
    let template = if is_eq {
        "IsEqual"@
    } else {
        "LessThan"@
    };
    let args = if is_eq {
        Seq::<u32>::empty()
    } else {
        seq![va.len() as u32]
    };
    let l = compare_v(tag, template, args, out, a, b, va.len() as u32, vb.len() as u32, ctx);
    let comp = comp_name(tag, out, ctx);
    let x = bits_val(va);
    let y = bits_val(vb);
    lemma_b2n(w, a, ctx, va);
    lemma_b2n(w, b, ctx, vb);
    lemma_bits_val_bound(va);
    lemma_bits_val_bound(vb);
    lemma_pow2_strictly_increases(va.len(), 252);
    let w1 = exec_stmt(w, l.stmts[0]);
    assert(w1.sigs == w.sigs);
    assert(eval(w1, b2n_v(a, va.len() as u32, ctx)) == x) by {
        lemma_holds_sigs(w1, w, cname(a, ctx), va);
        lemma_b2n(w1, a, ctx, va);
    }
    let w2 = exec_stmt(w1, l.stmts[1]);
    assert(w2.sigs == w.sigs);
    assert(eval(w2, b2n_v(b, vb.len() as u32, ctx)) == y) by {
        lemma_holds_sigs(w2, w, cname(b, ctx), vb);
        lemma_b2n(w2, b, ctx, vb);
    }
    let w3 = exec_stmt(w2, l.stmts[2]);
    let w4 = exec_stmt(w3, l.stmts[3]);
    reveal_with_fuel(exec_stmts, 5);
    assert(l.stmts.drop_last().drop_last().drop_last().drop_last() =~= Seq::<StmtV>::empty());
    assert(l.stmts.drop_last().drop_last().drop_last() =~= seq![l.stmts[0]]);
    assert(l.stmts.drop_last().drop_last() =~= seq![l.stmts[0], l.stmts[1]]);
    assert(l.stmts.drop_last() =~= seq![l.stmts[0], l.stmts[1], l.stmts[2]]);
    assert(exec_stmts(w, l.stmts) == w4);
    assert(w1.comps == w.comps.insert(comp, (template, args)));
    assert(w3.comps == w1.comps);
    assert(w2.drives == w.drives.insert((comp, Some(0u32)), x as int));
    assert(w3.drives == w2.drives.insert((comp, Some(1u32)), y as int));
    assert(drive_val(w3, comp, Some(0u32)) == x);
    assert(drive_val(w3, comp, Some(1u32)) == y);
    assert(w3.comps.dom().contains(comp) && w3.comps[comp].0 == template);
    assert(("LessThan"@ == "IsEqual"@) == false);
    let e = ExprV::CompOutField { comp, port: "out"@ };
    assert(eval(w3, e) == b01(if is_eq { x == y } else { x < y }));
    assert(l.stmts[3] == assign_v(out, ctx, 0, e));
    let z: int = 0;
    assert(sig_val(w4, cname(out, ctx), z as u32) == b01(if is_eq { x == y } else { x < y }));
}

/// A `Num2Bits(n_bits)` gadget driven with a value in range writes that
/// value's low `out_width` bits to `out`.
proof fn lemma_low_num2bits(
    w: Witness,
    tag: Seq<char>,
    out: WireId,
    out_width: u32,
    n_bits: u32,
    rhs: ExprV,
    ctx: Option<usize>,
    v: int,
)
    requires
        n_bits <= 252,
        0 <= v < pow2(n_bits as nat),
        forall|w2: Witness| w2.sigs == w.sigs ==> #[trigger] eval(w2, rhs) == v,
    ensures
        exec_stmts(w, num2bits_v(tag, out, out_width, n_bits, rhs, ctx).stmts).ok == w.ok,
        holds(
            exec_stmts(w, num2bits_v(tag, out, out_width, n_bits, rhs, ctx).stmts),
            cname(out, ctx),
            val_bits(v as nat, out_width as nat),
        ),
{
    reveal_strlit("Num2Bits");
    let comp = comp_name(tag, out, ctx);
    let head = seq![
        StmtV::Component { name: comp, template: "Num2Bits"@, args: seq![n_bits] },
        StmtV::ComponentDrive { comp, port: "in"@, index: None, rhs },
    ];
    let bits = comp_bits_seq(out, comp, out_width, ctx);
    assert(num2bits_v(tag, out, out_width, n_bits, rhs, ctx).stmts == head + bits);
    lemma_exec_append(w, head, bits);
    reveal_with_fuel(exec_stmts, 3);
    assert(head.drop_last() =~= seq![head[0]]);
    assert(seq![head[0]].drop_last() =~= Seq::<StmtV>::empty());
    let w1 = exec_stmts(w, head);
    let wc = exec_stmt(w, head[0]);
    assert(exec_stmts(w, seq![head[0]]) == wc);
    assert(eval(wc, rhs) == v);
    assert(w1.ok == w.ok);
    assert(drive_val(w1, comp, None) == v);
    let o = cname(out, ctx);
    assert forall|k: int| 0 <= k < bits.len() implies (#[trigger] bits[k] matches StmtV::Assign {
        lhs,
        index: Some(_),
        rhs,
    } && lhs == o && !reads(rhs, o)) by {}
    assert forall|k1: int, k2: int| 0 <= k1 < k2 < bits.len() implies assign_index(#[trigger] bits[k1])
        != assign_index(#[trigger] bits[k2]) by {}
    lemma_assigns(w1, bits, o);
    let w2 = exec_stmts(w1, bits);
    let r = val_bits(v as nat, out_width as nat);
    assert forall|i: int| 0 <= i < r.len() implies #[trigger] sig_val(w2, o, i as u32) == b01(r[i]) by {
        assert(assign_index(bits[i]) == i as u32);
        lemma_pow2_pos(i as nat);
        assert(eval(w1, assign_rhs(bits[i])) == bit_of(v, i as nat));
        assert(bit_of(v, i as nat) == ((v as nat / pow2(i as nat)) % 2) as int);
    }
}

/// The widths at which the arithmetic lowering stays within the field:
/// a subtraction's `2^w` bias needs `w < 128`, a product's
/// `Num2Bits(2w)` needs `2w <= 252`.
pub open spec fn arith_in_field(op: OpSpec, width: nat) -> bool {
    match op {
        OpSpec::Bin(BinOp::Sub) => width <= 1 || width < 128,
        OpSpec::Bin(BinOp::Mul) => width <= 1 || width <= 126,
        _ => true,
    }
}

/// What the lowering law assumes of instruction `i`, its operand values
/// `vs`, its interpreted result `r` and the starting witness `w`: a
/// supported, well-formed op; each input signal holds its operand
/// value, of its wire's width, under a name other than the output's;
/// the result has the output wire's width; a mux has a selector bit;
/// arithmetic stays within the field.
pub open spec fn lowering_pre(g: GraphSpec, i: InstrSpec, ctx: Option<usize>, vs: Seq<Seq<bool>>, r: Seq<bool>, w: Witness) -> bool {
    &&& !(i.op is Reg)
    &&& op_fits(i.op)
    &&& op_ok(i.op)
    &&& i.inputs.len() == vs.len()
    &&& apply_op_spec(i.op, vs) == Ok::<Seq<bool>, SimErr>(r)
    &&& forall|k: int|
        0 <= k < vs.len() ==> holds(w, cname(#[trigger] i.inputs[k], ctx), vs[k]) && cwidth(g, i.inputs[k])
            == vs[k].len() && cname(i.inputs[k], ctx) != cname(i.output, ctx)
    &&& cwidth(g, i.output) == r.len()
    &&& (i.op is Mux ==> vs[0].len() >= 1)
    &&& arith_in_field(i.op, r.len())
}

/// What the lowering law concludes: the statements leave every gadget
/// in range and the output signal holding `r`.
pub open spec fn lowering_post(g: GraphSpec, i: InstrSpec, ctx: Option<usize>, r: Seq<bool>, w: Witness) -> bool {
    &&& exec_stmts(w, lower_v(g, i, ctx).stmts).ok == w.ok
    &&& holds(exec_stmts(w, lower_v(g, i, ctx).stmts), cname(i.output, ctx), r)
}

/// Operand `k`'s facts, spelled out.
proof fn lemma_operand(g: GraphSpec, i: InstrSpec, ctx: Option<usize>, vs: Seq<Seq<bool>>, r: Seq<bool>, w: Witness, k: int)
    requires
        lowering_pre(g, i, ctx, vs, r, w),
        0 <= k < vs.len(),
    ensures
        holds(w, cname(i.inputs[k], ctx), vs[k]),
        cwidth(g, i.inputs[k]) == vs[k].len(),
        vs[k].len() <= u32::MAX,
        cname(i.inputs[k], ctx) != cname(i.output, ctx),
{
    assert(holds(w, cname(i.inputs[k], ctx), vs[k]));
}

/// Two bits' field arithmetic modulo 2 is XOR for `+` and `-`, AND for
/// `*`.
proof fn lemma_one_bit_arith(b: BinOp, va: Seq<bool>, vb: Seq<bool>)
    requires
        va.len() == 1,
        vb.len() == 1,
        b == BinOp::Add || b == BinOp::Sub || b == BinOp::Mul,
    ensures
        ({
            let x = bits_val(va) as int;
            let y = bits_val(vb) as int;
            let m = pow2(1) as int;
            let v = match b {
                BinOp::Add => (x + y) % m,
                BinOp::Sub => (x - y) % m,
                _ => (x * y) % m,
            };
            val_bits(v as nat, 1) =~= Seq::new(
                1,
                |j: int| bitwise_bit(if b == BinOp::Mul { BitwiseOp::And } else { BitwiseOp::Xor }, va[j], vb[j]),
            )
        }),
{
    reveal_with_fuel(bits_val, 2);
    vstd::arithmetic::power2::lemma2_to64();
    assert(va.drop_first().len() == 0);
    assert(vb.drop_first().len() == 0);
    assert(bits_val(va) == b01(va[0]));
    assert(bits_val(vb) == b01(vb[0]));
    let x = bits_val(va) as int;
    let y = bits_val(vb) as int;
    let v = match b {
        BinOp::Add => (x + y) % 2,
        BinOp::Sub => (x - y) % 2,
        _ => (x * y) % 2,
    };
    let want = bitwise_bit(if b == BinOp::Mul { BitwiseOp::And } else { BitwiseOp::Xor }, va[0], vb[0]);
    assert(((v as nat / pow2(0)) % 2 == 1) == want) by {
        if va[0] {
            if vb[0] {
                assert(x == 1 && y == 1);
            } else {
                assert(x == 1 && y == 0);
            }
        } else {
            if vb[0] {
                assert(x == 0 && y == 1);
            } else {
                assert(x == 0 && y == 0);
            }
        }
    }
}

/// Bits `0..w` of `v` are those of `v mod 2^w`.
proof fn lemma_val_bits_mod(v: nat, w: nat)
    ensures
        val_bits(v % pow2(w), w) == val_bits(v, w),
{
    lemma_bits_val_of_val_bits(v, w);
    lemma_val_bits_of_bits_val(val_bits(v, w));
}

/// Both packed operands, in any witness with the same signals.
proof fn lemma_pack_pair(w2: Witness, w: Witness, a: WireId, c: WireId, ctx: Option<usize>, va: Seq<bool>, vb: Seq<bool>)
    requires
        w2.sigs == w.sigs,
        holds(w, cname(a, ctx), va),
        holds(w, cname(c, ctx), vb),
        va.len() == vb.len() <= u32::MAX,
    ensures
        eval(w2, b2n_v(a, va.len() as u32, ctx)) == bits_val(va),
        eval(w2, b2n_v(c, va.len() as u32, ctx)) == bits_val(vb),
{
    lemma_holds_sigs(w2, w, cname(a, ctx), va);
    lemma_holds_sigs(w2, w, cname(c, ctx), vb);
    lemma_b2n(w2, a, ctx, va);
    lemma_b2n(w2, c, ctx, vb);
}

/// The arithmetic ops' lowering computes the wrapped result.
proof fn lemma_lower_arith(g: GraphSpec, i: InstrSpec, ctx: Option<usize>, vs: Seq<Seq<bool>>, r: Seq<bool>, w: Witness, b: BinOp)
    requires
        lowering_pre(g, i, ctx, vs, r, w),
        i.op == OpSpec::Bin(b),
        b == BinOp::Add || b == BinOp::Sub || b == BinOp::Mul,
    ensures
        lowering_post(g, i, ctx, r, w),
{
    lemma_operand(g, i, ctx, vs, r, w, 0);
    lemma_operand(g, i, ctx, vs, r, w, 1);
    let va = vs[0];
    let vb = vs[1];
    let n = va.len();
    let x = bits_val(va);
    let y = bits_val(vb);
    let m = pow2(n);
    let a = i.inputs[0];
    let c = i.inputs[1];
    let out = i.output;
    let width = cwidth(g, out);
    assert(apply_bin_spec(b, va, vb) == Ok::<Seq<bool>, SimErr>(r));
    assert(n <= 128);
    assert(width as nat == n);
    assert(width == va.len() as u32);
    assert(width == vb.len() as u32);
    lemma_bits_val_bound(va);
    lemma_bits_val_bound(vb);
    lemma_pow2_pos(n);
    assert(lower_v(g, i, ctx) == arith_v(g, b, out, a, c, ctx));
    if width == 1 {
        lemma_one_bit_arith(b, va, vb);
        let op = if b == BinOp::Mul {
            BitwiseOp::And
        } else {
            BitwiseOp::Xor
        };
        lemma_low_bitwise(w, out, a, c, op, ctx, va, vb);
    } else {
        let px = b2n_v(a, width, ctx);
        let py = b2n_v(c, width, ctx);
        lemma_pow2_adds(n, 1);
        vstd::arithmetic::power2::lemma2_to64();
        if b == BinOp::Add {
            let rhs = ExprV::Add(Box::new(px), Box::new(py));
            assert forall|w2: Witness| w2.sigs == w.sigs implies #[trigger] eval(w2, rhs) == x + y by {
                lemma_pack_pair(w2, w, a, c, ctx, va, vb);
            }
            assert(sat_add(width, 1) == n + 1);
            lemma_low_num2bits(w, "add"@, out, width, sat_add(width, 1), rhs, ctx, (x + y) as int);
            lemma_val_bits_mod((x + y) as nat, n);
        } else if b == BinOp::Sub {
            lemma_pow2_128_bound(n);
            let bias = ExprV::FieldLiteral(coef(n) as u128);
            let rhs = ExprV::Add(Box::new(ExprV::Sub(Box::new(px), Box::new(py))), Box::new(bias));
            let v = x - y + m;
            assert(coef(n) == m);
            assert((coef(n) as u128) as int == m as int);
            assert forall|w2: Witness| w2.sigs == w.sigs implies #[trigger] eval(w2, rhs) == v by {
                lemma_pack_pair(w2, w, a, c, ctx, va, vb);
                reveal_with_fuel(eval, 3);
                assert(eval(w2, bias) == m as int);
            }
            assert(sat_add(width, 1) == n + 1);
            lemma_low_num2bits(w, "sub"@, out, width, sat_add(width, 1), rhs, ctx, v);
            lemma_mod_add_multiples_vanish(x - y, m as int);
            lemma_val_bits_mod(v as nat, n);
        } else {
            let rhs = ExprV::Mul(Box::new(px), Box::new(py));
            assert forall|w2: Witness| w2.sigs == w.sigs implies #[trigger] eval(w2, rhs) == x * y by {
                lemma_pack_pair(w2, w, a, c, ctx, va, vb);
            }
            lemma_pow2_adds(n, n);
            assert(x * y < m * m) by (nonlinear_arith)
                requires
                    x < m,
                    y < m,
            ;
            assert(sat_mul(width, 2) == 2 * n);
            lemma_low_num2bits(w, "mul"@, out, width, sat_mul(width, 2), rhs, ctx, (x * y) as int);
            lemma_val_bits_mod((x * y) as nat, n);
        }
    }
}

/// The lowering of NOT, the bitwise ops, the mux and the comparators.
proof fn lemma_lower_gates(g: GraphSpec, i: InstrSpec, ctx: Option<usize>, vs: Seq<Seq<bool>>, r: Seq<bool>, w: Witness)
    requires
        lowering_pre(g, i, ctx, vs, r, w),
        i.op is Not || i.op is Mux || i.op == OpSpec::Bin(BinOp::And) || i.op == OpSpec::Bin(BinOp::Or) || i.op
            == OpSpec::Bin(BinOp::Xor) || i.op == OpSpec::Bin(BinOp::Eq) || i.op == OpSpec::Bin(BinOp::Lt),
    ensures
        lowering_post(g, i, ctx, r, w),
{
    let out = i.output;
    let width = cwidth(g, out);
    match i.op {
        OpSpec::Not => {
            lemma_operand(g, i, ctx, vs, r, w, 0);
            assert(width == vs[0].len() as u32);
            lemma_low_not(w, out, i.inputs[0], ctx, vs[0]);
            assert(r =~= Seq::new(vs[0].len(), |j: int| !vs[0][j]));
        },
        OpSpec::Mux => {
            lemma_operand(g, i, ctx, vs, r, w, 0);
            lemma_operand(g, i, ctx, vs, r, w, 1);
            lemma_operand(g, i, ctx, vs, r, w, 2);
            let n = r.len();
            assert(width == n as u32);
            lemma_low_mux(w, out, i.inputs[0], i.inputs[1], i.inputs[2], ctx, vs[0], vs[1], vs[2], n);
            assert(r =~= Seq::new(n, |j: int| if vs[0][0] { vs[2][j] } else { vs[1][j] }));
        },
        OpSpec::Bin(b) => {
            lemma_operand(g, i, ctx, vs, r, w, 0);
            lemma_operand(g, i, ctx, vs, r, w, 1);
            let va = vs[0];
            let vb = vs[1];
            assert(apply_bin_spec(b, va, vb) == Ok::<Seq<bool>, SimErr>(r));
            if b == BinOp::Eq || b == BinOp::Lt {
                lemma_low_compare(w, if b == BinOp::Eq { "eq"@ } else { "lt"@ }, b == BinOp::Eq, out, i.inputs[0], i.inputs[1], ctx, va, vb);
                assert(cwidth(g, i.inputs[0]) == va.len() as u32);
                assert(cwidth(g, i.inputs[1]) == vb.len() as u32);
            } else {
                let op = if b == BinOp::And {
                    BitwiseOp::And
                } else if b == BinOp::Or {
                    BitwiseOp::Or
                } else {
                    BitwiseOp::Xor
                };
                assert(width == va.len() as u32);
                lemma_low_bitwise(w, out, i.inputs[0], i.inputs[1], op, ctx, va, vb);
                assert(r =~= Seq::new(va.len(), |j: int| bitwise_bit(op, va[j], vb[j])));
            }
        },
        _ => {},
    }
}

/// The constant and bit-moving ops' lowering.
proof fn lemma_lower_moves(g: GraphSpec, i: InstrSpec, ctx: Option<usize>, vs: Seq<Seq<bool>>, r: Seq<bool>, w: Witness)
    requires
        lowering_pre(g, i, ctx, vs, r, w),
        i.op is Const || i.op is Slice || i.op is Concat || i.op is ArrayShiftIn || i.op is ArrayTail,
    ensures
        lowering_post(g, i, ctx, r, w),
{
    let out = i.output;
    let e = Seq::<StmtV>::empty();
    match i.op {
        OpSpec::Const { bits, ty } => {
            lemma_low_const(w, out, bits, ctx);
        },
        OpSpec::Slice { lo, hi } => {
            lemma_operand(g, i, ctx, vs, r, w, 0);
            let s0 = i.inputs[0];
            let n = (hi - lo) as u32;
            let c1 = copy_seq(out, ctx, 0, s0, ctx, lo, n);
            assert(copy_seq(out, ctx, n, s0, ctx, 0, 0) =~= e);
            assert(c1 + copy_seq(out, ctx, n, s0, ctx, 0, 0) =~= c1);
            lemma_low_copy2(w, out, ctx, s0, lo, n, vs[0], s0, 0, 0, vs[0]);
            assert(vs[0].subrange(lo as int, lo + n) + vs[0].subrange(0, 0) =~= r);
        },
        OpSpec::Concat { low_width, high_width } => {
            lemma_operand(g, i, ctx, vs, r, w, 0);
            lemma_operand(g, i, ctx, vs, r, w, 1);
            lemma_low_copy2(w, out, ctx, i.inputs[0], 0, low_width, vs[0], i.inputs[1], 0, high_width, vs[1]);
            assert(vs[0].subrange(0, low_width as int) + vs[1].subrange(0, high_width as int) =~= r);
        },
        OpSpec::ArrayShiftIn { element_width, depth } => {
            lemma_operand(g, i, ctx, vs, r, w, 0);
            lemma_operand(g, i, ctx, vs, r, w, 1);
            let ew = element_width as nat;
            let d = (depth - 1) as nat;
            assert(vs[0].len() == ew * (depth as nat));
            assert(ew * (depth as nat) == ew + d * ew) by (nonlinear_arith)
                requires
                    depth >= 1,
                    d == depth - 1,
            ;
            lemma_kept(element_width, depth);
            let k = kept(element_width, depth);
            lemma_low_copy2(w, out, ctx, i.inputs[1], 0, element_width, vs[1], i.inputs[0], 0, k, vs[0]);
            assert(vs[1].subrange(0, element_width as int) + vs[0].subrange(0, k as int) =~= r);
        },
        OpSpec::ArrayTail { element_width, depth } => {
            lemma_operand(g, i, ctx, vs, r, w, 0);
            let ew = element_width as nat;
            let d = (depth - 1) as nat;
            assert(vs[0].len() == ew * (depth as nat));
            assert(ew * (depth as nat) == ew + d * ew) by (nonlinear_arith)
                requires
                    depth >= 1,
                    d == depth - 1,
            ;
            lemma_kept(element_width, depth);
            let k = kept(element_width, depth);
            let s0 = i.inputs[0];
            let c1 = copy_seq(out, ctx, 0, s0, ctx, k, element_width);
            assert(copy_seq(out, ctx, element_width, s0, ctx, 0, 0) =~= e);
            assert(c1 + copy_seq(out, ctx, element_width, s0, ctx, 0, 0) =~= c1);
            lemma_low_copy2(w, out, ctx, s0, k, element_width, vs[0], s0, 0, 0, vs[0]);
            assert(vs[0].subrange(k as int, k + element_width) + vs[0].subrange(0, 0) =~= r);
        },
        _ => {},
    }
}

/// `kept` is `(depth - 1) * element_width` when that fits a `u32`.
proof fn lemma_kept(element_width: u32, depth: usize)
    requires
        depth >= 1,
        element_width + (depth - 1) * element_width <= u32::MAX,
    ensures
        kept(element_width, depth) == (depth - 1) * element_width,
{
    let d = (depth - 1) as nat;
    if element_width > 0 {
        assert(d <= d * element_width) by (nonlinear_arith)
            requires
                element_width > 0,
        ;
    } else {
        assert(d * element_width == 0) by (nonlinear_arith)
            requires
                element_width == 0,
        ;
    }
}

/// The Circom statements that one instruction lowers to compute what
/// the interpreter computes: run from a witness whose input signals hold
/// the operand values, they set the output signal's bits to the
/// interpreter's result, with every gadget's input in its range
/// (`Num2Bits`, `IsEqual`, `LessThan` in circomlib's meaning, field
/// arithmetic as integer arithmetic within the field).  It holds for
/// every op but `Reg` on operands and a result of their wires' widths,
/// with the output signal distinct from the inputs', a selector bit for
/// a mux, subtraction below 128 bits and multiplication at most 126.
pub proof fn lemma_lowering_computes(g: GraphSpec, i: InstrSpec, ctx: Option<usize>, vs: Seq<Seq<bool>>, r: Seq<bool>, w: Witness)
    requires
        lowering_pre(g, i, ctx, vs, r, w),
    ensures
        lowering_post(g, i, ctx, r, w),
{
    match i.op {
        OpSpec::Bin(b) => {
            if b == BinOp::Add || b == BinOp::Sub || b == BinOp::Mul {
                lemma_lower_arith(g, i, ctx, vs, r, w, b);
            } else {
                lemma_lower_gates(g, i, ctx, vs, r, w);
            }
        },
        OpSpec::Not => lemma_lower_gates(g, i, ctx, vs, r, w),
        OpSpec::Mux => lemma_lower_gates(g, i, ctx, vs, r, w),
        OpSpec::Reg { .. } => {},
        _ => lemma_lower_moves(g, i, ctx, vs, r, w),
    }
}

} // verus!
