//! Per-instruction lowering of IR ops to bit-level Circom statements.

use vstd::prelude::*;
use vstd::arithmetic::power2::pow2;

use crate::arith::lemma_shl_one;
use crate::circom::ast::{Expr, ExprV, Stmt, StmtV, exprs_v, lemma_exprs_v_push, stmts_v, strings_v};
use crate::circom::render::coef;
use crate::error::{Error, saturating_u32};
use crate::ir::graph::{GraphSpec, HdlGraph};
use crate::ir::instr::{InstrSpec, Instruction};
use crate::ir::op::{BinOp, Op, OpSpec};
use crate::ir::wire::{WireId, ty_storage, wire_text};
use crate::text::{decimal, push_decimal};

verus! {

/// The signal name of wire `w`: `w<idx>`, or `w<idx>_c<k>` in the copy
/// of cycle `k`.
pub open spec fn cname(w: WireId, ctx: Option<usize>) -> Seq<char> {
    wire_text(w.0 as nat) + match ctx {
        None => Seq::empty(),
        Some(k) => "_c"@ + decimal(k as nat),
    }
}

/// The name of a subcomponent computing wire `out`: `<tag>_<wire name>`.
pub open spec fn comp_name(tag: Seq<char>, out: WireId, ctx: Option<usize>) -> Seq<char> {
    tag + "_"@ + cname(out, ctx)
}

/// Every wire's storage fits in a `usize`.
pub open spec fn storage_fits(g: GraphSpec) -> bool {
    forall|i: int| 0 <= i < g.wires.len() ==> ty_storage(#[trigger] g.wires[i]) <= usize::MAX
}

/// The signal width of wire `w`: its storage bits saturated to `u32`,
/// 0 when undeclared.
pub open spec fn cwidth(g: GraphSpec, w: WireId) -> u32 {
    if (w.0 as nat) < g.wires.len() {
        saturating_u32(ty_storage(g.wires[w.0 as int]))
    } else {
        0
    }
}

/// `a + b` saturated to `u32`.
pub open spec fn sat_add(a: u32, b: u32) -> u32 {
    saturating_u32((a + b) as nat)
}

/// `a * b` saturated to `u32`.
pub open spec fn sat_mul(a: u32, b: u32) -> u32 {
    saturating_u32((a * b) as nat)
}

/// The storage bits of an array before its last element:
/// `(depth - 1) * element_width`, each step saturating.
pub open spec fn kept(element_width: u32, depth: usize) -> u32 {
    let d: nat = if depth >= 1 {
        (depth - 1) as nat
    } else {
        0
    };
    sat_mul(saturating_u32(d), element_width)
}

/// The per-bit index arithmetic of an op stays within `u32`.
pub open spec fn op_fits(op: OpSpec) -> bool {
    match op {
        OpSpec::Concat { low_width, high_width } => low_width + high_width <= 0x1_0000_0000,
        OpSpec::ArrayShiftIn { element_width, depth } => element_width + kept(element_width, depth) <= 0x1_0000_0000,
        OpSpec::ArrayTail { element_width, depth } => kept(element_width, depth) + element_width <= 0x1_0000_0000,
        _ => true,
    }
}

/// The graph can be lowered without index overflow.
pub open spec fn circom_ready(g: GraphSpec) -> bool {
    &&& storage_fits(g)
    &&& forall|j: int| 0 <= j < g.instrs.len() ==> op_fits(#[trigger] g.instrs[j].op)
}

/// `sig[i]` of wire `w`.
pub open spec fn bit_v(w: WireId, i: u32, ctx: Option<usize>) -> ExprV {
    ExprV::Bit { sig: cname(w, ctx), index: i }
}

/// The first `width` bits of wire `w` packed into a number.
pub open spec fn b2n_v(w: WireId, width: u32, ctx: Option<usize>) -> ExprV {
    ExprV::Bits2Num(Seq::new(width as nat, |i: int| bit_v(w, i as u32, ctx)))
}

/// `out[i] <== rhs;`.
pub open spec fn assign_v(out: WireId, ctx: Option<usize>, i: u32, rhs: ExprV) -> StmtV {
    StmtV::Assign { lhs: cname(out, ctx), index: Some(i), rhs }
}

/// `out[i] <== (1 - a[i])` for each bit.
pub open spec fn not_seq(out: WireId, a: WireId, width: u32, ctx: Option<usize>) -> Seq<StmtV> {
    Seq::new(
        width as nat,
        |i: int|
            assign_v(
                out,
                ctx,
                i as u32,
                ExprV::Sub(Box::new(ExprV::BitLiteral(true)), Box::new(bit_v(a, i as u32, ctx))),
            ),
    )
}

/// The bitwise gates with a per-bit lowering.
#[derive(Clone, Copy, Debug, PartialEq, Eq, Structural)]
pub enum BitwiseOp {
    /// `a * b`.
    And,
    /// `a + b - a * b`.
    Or,
    /// `a + b - 2 * (a * b)`.
    Xor,
}

/// The field expression of a bitwise gate on bit `i`.
pub open spec fn bitwise_v(op: BitwiseOp, a: WireId, b: WireId, i: u32, ctx: Option<usize>) -> ExprV {
    let x = bit_v(a, i, ctx);
    let y = bit_v(b, i, ctx);
    match op {
        BitwiseOp::And => ExprV::Mul(Box::new(x), Box::new(y)),
        BitwiseOp::Or => ExprV::Sub(
            Box::new(ExprV::Add(Box::new(x), Box::new(y))),
            Box::new(ExprV::Mul(Box::new(x), Box::new(y))),
        ),
        BitwiseOp::Xor => ExprV::Sub(
            Box::new(ExprV::Add(Box::new(x), Box::new(y))),
            Box::new(ExprV::Mul(Box::new(ExprV::FieldLiteral(2)), Box::new(ExprV::Mul(Box::new(x), Box::new(y))))),
        ),
    }
}

/// One assignment per bit of a bitwise gate.
pub open spec fn bitwise_seq(out: WireId, a: WireId, b: WireId, width: u32, op: BitwiseOp, ctx: Option<usize>) -> Seq<StmtV> {
    Seq::new(width as nat, |i: int| assign_v(out, ctx, i as u32, bitwise_v(op, a, b, i as u32, ctx)))
}

/// `out[i] <== ((sel[0] * (t[i] - f[i])) + f[i])` for each bit.
pub open spec fn mux_seq(out: WireId, sel: WireId, f: WireId, t: WireId, width: u32, ctx: Option<usize>) -> Seq<StmtV> {
    Seq::new(
        width as nat,
        |i: int|
            assign_v(
                out,
                ctx,
                i as u32,
                ExprV::Add(
                    Box::new(
                        ExprV::Mul(
                            Box::new(bit_v(sel, 0, ctx)),
                            Box::new(ExprV::Sub(Box::new(bit_v(t, i as u32, ctx)), Box::new(bit_v(f, i as u32, ctx)))),
                        ),
                    ),
                    Box::new(bit_v(f, i as u32, ctx)),
                ),
            ),
    )
}

/// `min(n, 2^32)`: the number of positions with a `u32` index.
pub open spec fn u32_count(n: nat) -> nat {
    if n <= 0x1_0000_0000 {
        n
    } else {
        0x1_0000_0000
    }
}

/// `out[i] <== bit;` for each constant bit with a `u32` index.
pub open spec fn const_seq(out: WireId, bits: Seq<bool>, ctx: Option<usize>) -> Seq<StmtV> {
    Seq::new(u32_count(bits.len()), |i: int| assign_v(out, ctx, i as u32, ExprV::BitLiteral(bits[i])))
}

/// `out[out_off + i] <== src[src_off + i];` for `i < n`.
pub open spec fn copy_seq(
    out: WireId,
    octx: Option<usize>,
    out_off: u32,
    src: WireId,
    sctx: Option<usize>,
    src_off: u32,
    n: u32,
) -> Seq<StmtV> {
    Seq::new(n as nat, |i: int| assign_v(out, octx, (out_off + i) as u32, bit_v(src, (src_off + i) as u32, sctx)))
}

/// `out[i] <== comp.out[i];` for `i < width`.
pub open spec fn comp_bits_seq(out: WireId, comp: Seq<char>, width: u32, ctx: Option<usize>) -> Seq<StmtV> {
    Seq::new(
        width as nat,
        |i: int| assign_v(out, ctx, i as u32, ExprV::CompOutBit { comp, port: "out"@, index: i as u32 }),
    )
}

/// `(w[i] * (w[i] - 1)) === 0;`: bit `i` of `w` is boolean.
pub open spec fn constraint_v(w: WireId, i: u32, ctx: Option<usize>) -> StmtV {
    StmtV::Constraint(
        ExprV::Mul(
            Box::new(bit_v(w, i, ctx)),
            Box::new(ExprV::Sub(Box::new(bit_v(w, i, ctx)), Box::new(ExprV::BitLiteral(true)))),
        ),
    )
}

/// Boolean constraints on the first `width` bits of `w`.
pub open spec fn constraints_seq(w: WireId, width: u32, ctx: Option<usize>) -> Seq<StmtV> {
    Seq::new(width as nat, |i: int| constraint_v(w, i as u32, ctx))
}

/// The statements and includes produced by lowering.
pub ghost struct LoweredV {
    pub stmts: Seq<StmtV>,
    pub includes: Seq<Seq<char>>,
}

/// Statements with no include.
pub open spec fn of_stmts(s: Seq<StmtV>) -> LoweredV {
    LoweredV { stmts: s, includes: Seq::empty() }
}

/// `acc` followed by each of `new` that it does not hold yet.
pub open spec fn merge_includes(acc: Seq<Seq<char>>, new: Seq<Seq<char>>) -> Seq<Seq<char>>
    decreases new.len(),
{
    if new.len() == 0 {
        acc
    } else {
        let a = merge_includes(acc, new.drop_last());
        if a.contains(new.last()) {
            a
        } else {
            a.push(new.last())
        }
    }
}

/// Statements appended, includes merged without duplicates.
pub open spec fn extend_v(a: LoweredV, b: LoweredV) -> LoweredV {
    LoweredV { stmts: a.stmts + b.stmts, includes: merge_includes(a.includes, b.includes) }
}

/// circomlib's `bitify.circom`.
pub open spec fn bitify_path() -> Seq<char> {
    "circomlib/circuits/bitify.circom"@
}

/// circomlib's `comparators.circom`.
pub open spec fn comparators_path() -> Seq<char> {
    "circomlib/circuits/comparators.circom"@
}

/// A `Num2Bits(n_bits)` gadget fed `rhs`, whose low `out_width` bits
/// become `out`.
pub open spec fn num2bits_v(tag: Seq<char>, out: WireId, out_width: u32, n_bits: u32, rhs: ExprV, ctx: Option<usize>) -> LoweredV {
    let comp = comp_name(tag, out, ctx);
    LoweredV {
        stmts: seq![
            StmtV::Component { name: comp, template: "Num2Bits"@, args: seq![n_bits] },
            StmtV::ComponentDrive { comp, port: "in"@, index: None, rhs },
        ] + comp_bits_seq(out, comp, out_width, ctx),
        includes: seq![bitify_path()],
    }
}

/// A comparator gadget fed the packed operands, whose output becomes
/// bit 0 of `out`.
pub open spec fn compare_v(
    tag: Seq<char>,
    template: Seq<char>,
    args: Seq<u32>,
    out: WireId,
    a: WireId,
    b: WireId,
    aw: u32,
    bw: u32,
    ctx: Option<usize>,
) -> LoweredV {
    let comp = comp_name(tag, out, ctx);
    LoweredV {
        stmts: seq![
            StmtV::Component { name: comp, template, args },
            StmtV::ComponentDrive { comp, port: "in"@, index: Some(0), rhs: b2n_v(a, aw, ctx) },
            StmtV::ComponentDrive { comp, port: "in"@, index: Some(1), rhs: b2n_v(b, bw, ctx) },
            assign_v(out, ctx, 0, ExprV::CompOutField { comp, port: "out"@ }),
        ],
        includes: seq![comparators_path()],
    }
}

/// The lowering of an arithmetic op of width `width`: per-bit XOR/AND
/// at width 1, a `Num2Bits` round trip otherwise.
pub open spec fn arith_v(g: GraphSpec, b: BinOp, out: WireId, x: WireId, y: WireId, ctx: Option<usize>) -> LoweredV {
    let width = cwidth(g, out);
    let px = b2n_v(x, width, ctx);
    let py = b2n_v(y, width, ctx);
    match b {
        BinOp::Add => if width == 1 {
            of_stmts(bitwise_seq(out, x, y, 1, BitwiseOp::Xor, ctx))
        } else {
            num2bits_v("add"@, out, width, sat_add(width, 1), ExprV::Add(Box::new(px), Box::new(py)), ctx)
        },
        BinOp::Sub => if width == 1 {
            of_stmts(bitwise_seq(out, x, y, 1, BitwiseOp::Xor, ctx))
        } else {
            num2bits_v(
                "sub"@,
                out,
                width,
                sat_add(width, 1),
                ExprV::Add(
                    Box::new(ExprV::Sub(Box::new(px), Box::new(py))),
                    Box::new(ExprV::FieldLiteral(coef(width as nat) as u128)),
                ),
                ctx,
            )
        },
        _ => if width == 1 {
            of_stmts(bitwise_seq(out, x, y, 1, BitwiseOp::And, ctx))
        } else {
            num2bits_v("mul"@, out, width, sat_mul(width, 2), ExprV::Mul(Box::new(px), Box::new(py)), ctx)
        },
    }
}

/// The lowering of one instruction (`Reg` has none and lowers to
/// nothing here; the emitters reject it).
pub open spec fn lower_v(g: GraphSpec, i: InstrSpec, ctx: Option<usize>) -> LoweredV {
    let out = i.output;
    let ins = i.inputs;
    let width = cwidth(g, out);
    match i.op {
        OpSpec::Not => of_stmts(not_seq(out, ins[0], width, ctx)),
        OpSpec::Bin(b) => match b {
            BinOp::And => of_stmts(bitwise_seq(out, ins[0], ins[1], width, BitwiseOp::And, ctx)),
            BinOp::Or => of_stmts(bitwise_seq(out, ins[0], ins[1], width, BitwiseOp::Or, ctx)),
            BinOp::Xor => of_stmts(bitwise_seq(out, ins[0], ins[1], width, BitwiseOp::Xor, ctx)),
            BinOp::Eq => compare_v(
                "eq"@,
                "IsEqual"@,
                Seq::empty(),
                out,
                ins[0],
                ins[1],
                cwidth(g, ins[0]),
                cwidth(g, ins[1]),
                ctx,
            ),
            BinOp::Lt => compare_v(
                "lt"@,
                "LessThan"@,
                seq![cwidth(g, ins[0])],
                out,
                ins[0],
                ins[1],
                cwidth(g, ins[0]),
                cwidth(g, ins[1]),
                ctx,
            ),
            _ => arith_v(g, b, out, ins[0], ins[1], ctx),
        },
        OpSpec::Mux => of_stmts(mux_seq(out, ins[0], ins[1], ins[2], width, ctx)),
        OpSpec::Const { bits, ty } => of_stmts(const_seq(out, bits, ctx)),
        OpSpec::Slice { lo, hi } => of_stmts(
            copy_seq(
                out,
                ctx,
                0,
                ins[0],
                ctx,
                lo,
                if hi >= lo {
                    (hi - lo) as u32
                } else {
                    0
                },
            ),
        ),
        OpSpec::Concat { low_width, high_width } => of_stmts(
            copy_seq(out, ctx, 0, ins[0], ctx, 0, low_width) + copy_seq(out, ctx, low_width, ins[1], ctx, 0, high_width),
        ),
        OpSpec::ArrayShiftIn { element_width, depth } => of_stmts(
            copy_seq(out, ctx, 0, ins[1], ctx, 0, element_width) + copy_seq(
                out,
                ctx,
                element_width,
                ins[0],
                ctx,
                0,
                kept(element_width, depth),
            ),
        ),
        OpSpec::ArrayTail { element_width, depth } => of_stmts(
            copy_seq(out, ctx, 0, ins[0], ctx, kept(element_width, depth), element_width),
        ),
        OpSpec::Reg { .. } => of_stmts(Seq::empty()),
    }
}

/// No instruction is a register.
pub open spec fn no_reg(is: Seq<InstrSpec>) -> bool {
    forall|j: int| 0 <= j < is.len() ==> !(#[trigger] is[j].op is Reg)
}

/// Lower each instruction in order, extending `acc`.
pub open spec fn lower_from(g: GraphSpec, acc: LoweredV, is: Seq<InstrSpec>, ctx: Option<usize>) -> LoweredV
    decreases is.len(),
{
    if is.len() == 0 {
        acc
    } else {
        extend_v(lower_from(g, acc, is.drop_last(), ctx), lower_v(g, is.last(), ctx))
    }
}

/// The message of the error for a register in a Circom lowering.
pub open spec fn reg_message() -> Seq<char> {
    "reg (cross-cycle stateful; not yet rewritten by the unrolled emitter)"@
}

/// The signal name of wire `w` in context `ctx`.
pub fn wire_label(w: WireId, ctx: Option<usize>) -> (r: String)
    ensures
        r@ == cname(w, ctx),
{
    let mut s = w.to_display_string();
    let ghost head = s@;
    match ctx {
        Some(k) => {
            s.append("_c");
            push_decimal(&mut s, k as u128);
        },
        None => {},
    }
    proof {
        assert(s@ =~= cname(w, ctx));
    }
    s
}

/// The name of the subcomponent computing `out`.
pub fn comp_label(tag: &str, out: WireId, ctx: Option<usize>) -> (r: String)
    ensures
        r@ == comp_name(tag@, out, ctx),
{
    let mut s = tag.to_string();
    s.append("_");
    let w = wire_label(out, ctx);
    s.append(w.as_str());
    proof {
        assert(s@ =~= comp_name(tag@, out, ctx));
    }
    s
}

/// The signal width of wire `w`.
pub fn graph_width(graph: &HdlGraph, w: WireId) -> (r: u32)
    requires
        storage_fits(graph@),
    ensures
        r == cwidth(graph@, w),
{
    match graph.wire_ty(w.index()) {
        Some(t) => {
            proof {
                assert(ty_storage(graph@.wires[w.0 as int]) <= usize::MAX);
            }
            let n = t.storage_bits();
            if n <= u32::MAX as usize {
                n as u32
            } else {
                u32::MAX
            }
        },
        None => 0,
    }
}

fn mk_sub(a: Expr, b: Expr) -> (r: Expr)
    ensures
        r@ == ExprV::Sub(Box::new(a@), Box::new(b@)),
{
    Expr::Sub(Box::new(a), Box::new(b))
}

fn mk_add(a: Expr, b: Expr) -> (r: Expr)
    ensures
        r@ == ExprV::Add(Box::new(a@), Box::new(b@)),
{
    Expr::Add(Box::new(a), Box::new(b))
}

fn mk_mul(a: Expr, b: Expr) -> (r: Expr)
    ensures
        r@ == ExprV::Mul(Box::new(a@), Box::new(b@)),
{
    Expr::Mul(Box::new(a), Box::new(b))
}

fn mk_lit(b: bool) -> (r: Expr)
    ensures
        r@ == ExprV::BitLiteral(b),
{
    Expr::BitLiteral(b)
}

fn bit_ref(w: WireId, i: u32, ctx: Option<usize>) -> (r: Expr)
    ensures
        r@ == bit_v(w, i, ctx),
{
    Expr::Bit { sig: wire_label(w, ctx), index: i }
}

fn bits_to_num(w: WireId, width: u32, ctx: Option<usize>) -> (r: Expr)
    ensures
        r@ == b2n_v(w, width, ctx),
{
    let mut v: Vec<Expr> = Vec::new();
    let mut i: u32 = 0;
    let ghost target = Seq::new(width as nat, |k: int| bit_v(w, k as u32, ctx));
    while i < width
        invariant
            i <= width,
            target == Seq::new(width as nat, |k: int| bit_v(w, k as u32, ctx)),
            exprs_v(v@) == target.take(i as int),
        decreases width - i,
    {
        let e = bit_ref(w, i, ctx);
        proof {
            lemma_exprs_v_push(v@, e);
            assert(target.take(i as int).push(e@) =~= target.take(i + 1));
        }
        v.push(e);
        i = i + 1;
    }
    proof {
        assert(target.take(i as int) =~= target);
    }
    Expr::Bits2Num(v)
}

/// Append `out[i] <== (1 - a[i]);` for each bit.
fn push_not(v: &mut Vec<Stmt>, out: WireId, a: WireId, width: u32, ctx: Option<usize>)
    ensures
        stmts_v(final(v)@) == stmts_v(old(v)@) + not_seq(out, a, width, ctx),
{
    let ghost start = stmts_v(v@);
    let mut i: u32 = 0;
    while i < width
        invariant
            i <= width,
            stmts_v(v@) == start + not_seq(out, a, width, ctx).take(i as int),
        decreases width - i,
    {
        let ghost before = v@;
        let st = Stmt::Assign {
            lhs: wire_label(out, ctx),
            index: Some(i),
            rhs: mk_sub(mk_lit(true), bit_ref(a, i, ctx)),
        };
        v.push(st);
        proof {
            assert(stmts_v(v@) =~= stmts_v(before).push(st@));
            assert(not_seq(out, a, width, ctx).take(i + 1) =~= not_seq(out, a, width, ctx).take(i as int).push(st@));
        }
        i = i + 1;
    }
    proof {
        assert(not_seq(out, a, width, ctx).take(i as int) =~= not_seq(out, a, width, ctx));
    }
}

fn bitwise_expr(op: BitwiseOp, a: WireId, b: WireId, i: u32, ctx: Option<usize>) -> (r: Expr)
    ensures
        r@ == bitwise_v(op, a, b, i, ctx),
{
    match op {
        BitwiseOp::And => mk_mul(bit_ref(a, i, ctx), bit_ref(b, i, ctx)),
        BitwiseOp::Or => mk_sub(
            mk_add(bit_ref(a, i, ctx), bit_ref(b, i, ctx)),
            mk_mul(bit_ref(a, i, ctx), bit_ref(b, i, ctx)),
        ),
        BitwiseOp::Xor => mk_sub(
            mk_add(bit_ref(a, i, ctx), bit_ref(b, i, ctx)),
            mk_mul(Expr::FieldLiteral(2), mk_mul(bit_ref(a, i, ctx), bit_ref(b, i, ctx))),
        ),
    }
}

/// Append one assignment per bit of a bitwise gate.
fn push_bitwise(v: &mut Vec<Stmt>, out: WireId, a: WireId, b: WireId, width: u32, op: BitwiseOp, ctx: Option<usize>)
    ensures
        stmts_v(final(v)@) == stmts_v(old(v)@) + bitwise_seq(out, a, b, width, op, ctx),
{
    let ghost start = stmts_v(v@);
    let ghost target = bitwise_seq(out, a, b, width, op, ctx);
    let mut i: u32 = 0;
    while i < width
        invariant
            i <= width,
            target == bitwise_seq(out, a, b, width, op, ctx),
            stmts_v(v@) == start + target.take(i as int),
        decreases width - i,
    {
        let ghost before = v@;
        let st = Stmt::Assign { lhs: wire_label(out, ctx), index: Some(i), rhs: bitwise_expr(op, a, b, i, ctx) };
        v.push(st);
        proof {
            assert(stmts_v(v@) =~= stmts_v(before).push(st@));
            assert(target.take(i + 1) =~= target.take(i as int).push(st@));
        }
        i = i + 1;
    }
    proof {
        assert(target.take(i as int) =~= target);
    }
}

/// Append one multiplexer assignment per bit.
fn push_mux(v: &mut Vec<Stmt>, out: WireId, sel: WireId, f: WireId, t: WireId, width: u32, ctx: Option<usize>)
    ensures
        stmts_v(final(v)@) == stmts_v(old(v)@) + mux_seq(out, sel, f, t, width, ctx),
{
    let ghost start = stmts_v(v@);
    let ghost target = mux_seq(out, sel, f, t, width, ctx);
    let mut i: u32 = 0;
    while i < width
        invariant
            i <= width,
            target == mux_seq(out, sel, f, t, width, ctx),
            stmts_v(v@) == start + target.take(i as int),
        decreases width - i,
    {
        let ghost before = v@;
        let diff = mk_sub(bit_ref(t, i, ctx), bit_ref(f, i, ctx));
        let prod = mk_mul(bit_ref(sel, 0, ctx), diff);
        let st = Stmt::Assign { lhs: wire_label(out, ctx), index: Some(i), rhs: mk_add(prod, bit_ref(f, i, ctx)) };
        v.push(st);
        proof {
            assert(stmts_v(v@) =~= stmts_v(before).push(st@));
            assert(target.take(i + 1) =~= target.take(i as int).push(st@));
        }
        i = i + 1;
    }
    proof {
        assert(target.take(i as int) =~= target);
    }
}

/// Append `out[i] <== bit;` for each constant bit with a `u32` index.
fn push_consts(v: &mut Vec<Stmt>, out: WireId, bits: &[bool], ctx: Option<usize>)
    ensures
        stmts_v(final(v)@) == stmts_v(old(v)@) + const_seq(out, bits@, ctx),
{
    let ghost start = stmts_v(v@);
    let ghost target = const_seq(out, bits@, ctx);
    let mut i: usize = 0;
    while i < bits.len() && (i as u64) <= 0xffff_ffffu64
        invariant
            i <= u32_count(bits@.len()),
            target == const_seq(out, bits@, ctx),
            stmts_v(v@) == start + target.take(i as int),
        decreases bits@.len() - i,
    {
        let ghost before = v@;
        let st = Stmt::Assign { lhs: wire_label(out, ctx), index: Some(i as u32), rhs: Expr::BitLiteral(bits[i]) };
        v.push(st);
        proof {
            assert(stmts_v(v@) =~= stmts_v(before).push(st@));
            assert(target.take(i + 1) =~= target.take(i as int).push(st@));
        }
        i = i + 1;
    }
    proof {
        assert(target.take(i as int) =~= target);
    }
}

/// Append `out[out_off + i] <== src[src_off + i];` for `i < n`.
pub(crate) fn push_copy(
    v: &mut Vec<Stmt>,
    out: WireId,
    octx: Option<usize>,
    out_off: u32,
    src: WireId,
    sctx: Option<usize>,
    src_off: u32,
    n: u32,
)
    requires
        out_off + n <= 0x1_0000_0000,
        src_off + n <= 0x1_0000_0000,
    ensures
        stmts_v(final(v)@) == stmts_v(old(v)@) + copy_seq(out, octx, out_off, src, sctx, src_off, n),
{
    let ghost start = stmts_v(v@);
    let ghost target = copy_seq(out, octx, out_off, src, sctx, src_off, n);
    let mut i: u32 = 0;
    while i < n
        invariant
            i <= n,
            out_off + n <= 0x1_0000_0000,
            src_off + n <= 0x1_0000_0000,
            target == copy_seq(out, octx, out_off, src, sctx, src_off, n),
            stmts_v(v@) == start + target.take(i as int),
        decreases n - i,
    {
        let ghost before = v@;
        let st = Stmt::Assign {
            lhs: wire_label(out, octx),
            index: Some(out_off + i),
            rhs: bit_ref(src, src_off + i, sctx),
        };
        v.push(st);
        proof {
            assert(stmts_v(v@) =~= stmts_v(before).push(st@));
            assert(target.take(i + 1) =~= target.take(i as int).push(st@));
        }
        i = i + 1;
    }
    proof {
        assert(target.take(i as int) =~= target);
    }
}

/// Append `out[i] <== comp.out[i];` for `i < width`.
fn push_comp_bits(v: &mut Vec<Stmt>, out: WireId, comp: &str, width: u32, ctx: Option<usize>)
    ensures
        stmts_v(final(v)@) == stmts_v(old(v)@) + comp_bits_seq(out, comp@, width, ctx),
{
    proof {
        reveal_strlit("out");
    }
    let ghost start = stmts_v(v@);
    let ghost target = comp_bits_seq(out, comp@, width, ctx);
    let mut i: u32 = 0;
    while i < width
        invariant
            i <= width,
            target == comp_bits_seq(out, comp@, width, ctx),
            stmts_v(v@) == start + target.take(i as int),
        decreases width - i,
    {
        let ghost before = v@;
        let st = Stmt::Assign {
            lhs: wire_label(out, ctx),
            index: Some(i),
            rhs: Expr::CompOutBit { comp: comp.to_string(), port: "out".to_string(), index: i },
        };
        v.push(st);
        proof {
            assert(stmts_v(v@) =~= stmts_v(before).push(st@));
            assert(target.take(i + 1) =~= target.take(i as int).push(st@));
        }
        i = i + 1;
    }
    proof {
        assert(target.take(i as int) =~= target);
    }
}

/// Append boolean constraints on the first `width` bits of `w`.
pub(crate) fn push_constraints(v: &mut Vec<Stmt>, w: WireId, width: u32, ctx: Option<usize>)
    ensures
        stmts_v(final(v)@) == stmts_v(old(v)@) + constraints_seq(w, width, ctx),
{
    let ghost start = stmts_v(v@);
    let ghost target = constraints_seq(w, width, ctx);
    let mut i: u32 = 0;
    while i < width
        invariant
            i <= width,
            target == constraints_seq(w, width, ctx),
            stmts_v(v@) == start + target.take(i as int),
        decreases width - i,
    {
        let ghost before = v@;
        let st = Stmt::Constraint(mk_mul(bit_ref(w, i, ctx), mk_sub(bit_ref(w, i, ctx), mk_lit(true))));
        v.push(st);
        proof {
            assert(stmts_v(v@) =~= stmts_v(before).push(st@));
            assert(target.take(i + 1) =~= target.take(i as int).push(st@));
        }
        i = i + 1;
    }
    proof {
        assert(target.take(i as int) =~= target);
    }
}

/// `a * b` saturated to `u32`.
pub fn saturating_mul_u32(a: u32, b: u32) -> (r: u32)
    ensures
        r == sat_mul(a, b),
{
    proof {
        assert((a as int) * (b as int) <= 0xffff_ffffint * 0xffff_ffffint) by (nonlinear_arith)
            requires
                a <= 0xffff_ffffu32,
                b <= 0xffff_ffffu32,
        ;
    }
    let p: u64 = (a as u64) * (b as u64);
    if p <= u32::MAX as u64 {
        p as u32
    } else {
        u32::MAX
    }
}

/// `(depth - 1) * element_width`, each step saturating.
pub fn kept_bits(element_width: u32, depth: usize) -> (r: u32)
    ensures
        r == kept(element_width, depth),
{
    let d: usize = if depth >= 1 { depth - 1 } else { 0 };
    let dd: u32 = if d <= u32::MAX as usize { d as u32 } else { u32::MAX };
    saturating_mul_u32(dd, element_width)
}

/// Statements and includes produced by lowering, accumulated in order.
pub struct Lowered {
    /// The body statements, in order.
    pub stmts: Vec<Stmt>,
    /// The include paths, each once, in order of first use.
    pub includes: Vec<String>,
}

impl View for Lowered {
    type V = LoweredV;

    open spec fn view(&self) -> LoweredV {
        LoweredV { stmts: stmts_v(self.stmts@), includes: strings_v(self.includes@) }
    }
}

/// Whether `s` occurs in `v`.
fn string_in(v: &[String], s: &String) -> (r: bool)
    ensures
        r == strings_v(v@).contains(s@),
{
    let mut i: usize = 0;
    while i < v.len()
        invariant
            i <= v@.len(),
            forall|k: int| 0 <= k < i ==> v@[k]@ != s@,
        decreases v@.len() - i,
    {
        if v[i] == *s {
            proof {
                assert(strings_v(v@)[i as int] == s@);
            }
            return true;
        }
        i = i + 1;
    }
    proof {
        if strings_v(v@).contains(s@) {
            let k = choose|k: int| 0 <= k < strings_v(v@).len() && strings_v(v@)[k] == s@;
            assert(v@[k]@ == s@);
        }
    }
    false
}

impl Lowered {
    /// Nothing lowered yet.
    pub(crate) fn empty() -> (r: Lowered)
        ensures
            r@ == (LoweredV { stmts: Seq::empty(), includes: Seq::empty() }),
    {
        let r = Lowered { stmts: Vec::new(), includes: Vec::new() };
        proof {
            assert(stmts_v(r.stmts@) =~= Seq::<StmtV>::empty());
            assert(strings_v(r.includes@) =~= Seq::<Seq<char>>::empty());
        }
        r
    }

    /// Statements with no include.
    fn of_stmts(stmts: Vec<Stmt>) -> (r: Lowered)
        ensures
            r@ == of_stmts(stmts_v(stmts@)),
    {
        let r = Lowered { stmts, includes: Vec::new() };
        proof {
            assert(strings_v(r.includes@) =~= Seq::<Seq<char>>::empty());
        }
        r
    }

    /// `self` followed by `other`, includes merged without duplicates.
    pub(crate) fn extend(self, other: Lowered) -> (r: Lowered)
        ensures
            r@ == extend_v(self@, other@),
    {
        let Lowered { stmts: mut stmts, includes: mut includes } = self;
        let Lowered { stmts: mut more, includes: new } = other;
        let ghost s0 = stmts@;
        let ghost m0 = more@;
        stmts.append(&mut more);
        proof {
            assert(stmts_v(stmts@) =~= stmts_v(s0) + stmts_v(m0));
        }
        let ghost acc0 = strings_v(includes@);
        let ghost nv = strings_v(new@);
        let mut i: usize = 0;
        proof {
            assert(nv.take(0) =~= Seq::<Seq<char>>::empty());
        }
        while i < new.len()
            invariant
                i <= new@.len(),
                nv == strings_v(new@),
                strings_v(includes@) == merge_includes(acc0, nv.take(i as int)),
            decreases new@.len() - i,
        {
            proof {
                let t = nv.take(i + 1);
                assert(t.drop_last() =~= nv.take(i as int));
                assert(t.last() == new@[i as int]@);
            }
            if !string_in(includes.as_slice(), &new[i]) {
                let ghost before = includes@;
                includes.push(new[i].clone());
                proof {
                    assert(strings_v(includes@) =~= strings_v(before).push(new@[i as int]@));
                }
            }
            i = i + 1;
        }
        proof {
            assert(nv.take(i as int) =~= nv);
        }
        Lowered { stmts, includes }
    }
}

/// A `Num2Bits(n_bits)` gadget fed `rhs`, its low `out_width` bits
/// driving `out`.
fn num2bits_wrap(tag: &str, out: WireId, out_width: u32, n_bits: u32, rhs: Expr, ctx: Option<usize>) -> (r: Lowered)
    ensures
        r@ == num2bits_v(tag@, out, out_width, n_bits, rhs@, ctx),
{
    proof {
        reveal_strlit("Num2Bits");
        reveal_strlit("in");
        reveal_strlit("circomlib/circuits/bitify.circom");
    }
    let comp = comp_label(tag, out, ctx);
    let mut stmts: Vec<Stmt> = Vec::new();
    let args = vec![n_bits];
    let decl = Stmt::Component { name: comp.clone(), template: "Num2Bits".to_string(), args };
    let drive = Stmt::ComponentDrive { comp: comp.clone(), port: "in".to_string(), index: None, rhs };
    proof {
        assert(args@ =~= seq![n_bits]);
        assert(decl@ == StmtV::Component { name: comp_name(tag@, out, ctx), template: "Num2Bits"@, args: seq![n_bits] });
        assert(drive@ == StmtV::ComponentDrive { comp: comp_name(tag@, out, ctx), port: "in"@, index: None, rhs: rhs@ });
    }
    stmts.push(decl);
    stmts.push(drive);
    let ghost head = stmts@;
    proof {
        assert(stmts_v(head) =~= seq![decl@, drive@]);
    }
    push_comp_bits(&mut stmts, out, comp.as_str(), out_width, ctx);
    let includes = vec!["circomlib/circuits/bitify.circom".to_string()];
    let r = Lowered { stmts, includes };
    proof {
        assert(strings_v(r.includes@) =~= seq![bitify_path()]);
        assert(r@.stmts =~= num2bits_v(tag@, out, out_width, n_bits, rhs@, ctx).stmts);
    }
    r
}

/// A comparator gadget over the packed operands.
fn compare(
    tag: &str,
    template: &str,
    args: Vec<u32>,
    out: WireId,
    a: WireId,
    b: WireId,
    aw: u32,
    bw: u32,
    ctx: Option<usize>,
) -> (r: Lowered)
    ensures
        r@ == compare_v(tag@, template@, args@, out, a, b, aw, bw, ctx),
{
    proof {
        reveal_strlit("in");
        reveal_strlit("out");
        reveal_strlit("circomlib/circuits/comparators.circom");
    }
    let comp = comp_label(tag, out, ctx);
    let decl = Stmt::Component { name: comp.clone(), template: template.to_string(), args };
    let drive_a = Stmt::ComponentDrive {
        comp: comp.clone(),
        port: "in".to_string(),
        index: Some(0),
        rhs: bits_to_num(a, aw, ctx),
    };
    let drive_b = Stmt::ComponentDrive {
        comp: comp.clone(),
        port: "in".to_string(),
        index: Some(1),
        rhs: bits_to_num(b, bw, ctx),
    };
    let assign = Stmt::Assign {
        lhs: wire_label(out, ctx),
        index: Some(0),
        rhs: Expr::CompOutField { comp: comp.clone(), port: "out".to_string() },
    };
    let stmts = vec![decl, drive_a, drive_b, assign];
    let includes = vec!["circomlib/circuits/comparators.circom".to_string()];
    let r = Lowered { stmts, includes };
    proof {
        assert(strings_v(r.includes@) =~= seq![comparators_path()]);
        assert(r@.stmts =~= compare_v(tag@, template@, args@, out, a, b, aw, bw, ctx).stmts);
    }
    r
}

/// Lower an arithmetic op (`Add`, `Sub` or `Mul`).
fn lower_arith(graph: &HdlGraph, b: BinOp, out: WireId, x: WireId, y: WireId, ctx: Option<usize>) -> (r: Lowered)
    requires
        storage_fits(graph@),
        b == BinOp::Add || b == BinOp::Sub || b == BinOp::Mul,
    ensures
        r@ == arith_v(graph@, b, out, x, y, ctx),
{
    let width = graph_width(graph, out);
    if width == 1 {
        let mut v: Vec<Stmt> = Vec::new();
        let op = match b {
            BinOp::Mul => BitwiseOp::And,
            _ => BitwiseOp::Xor,
        };
        push_bitwise(&mut v, out, x, y, 1, op, ctx);
        proof {
            assert(stmts_v(Seq::<Stmt>::empty()) =~= Seq::<StmtV>::empty());
            assert(Seq::<StmtV>::empty() + bitwise_seq(out, x, y, 1, op, ctx) =~= bitwise_seq(out, x, y, 1, op, ctx));
        }
        Lowered::of_stmts(v)
    } else {
        let px = bits_to_num(x, width, ctx);
        let py = bits_to_num(y, width, ctx);
        match b {
            BinOp::Add => num2bits_wrap("add", out, width, width.saturating_add(1), mk_add(px, py), ctx),
            BinOp::Sub => {
                let bias: u128 = if width < 128 {
                    proof {
                        lemma_shl_one(width as u128);
                    }
                    1u128 << (width as u128)
                } else {
                    0
                };
                let e = mk_add(mk_sub(px, py), Expr::FieldLiteral(bias));
                num2bits_wrap("sub", out, width, width.saturating_add(1), e, ctx)
            },
            _ => num2bits_wrap("mul", out, width, saturating_mul_u32(width, 2), mk_mul(px, py), ctx),
        }
    }
}

/// Lower one instruction; a register has no lowering.
pub(crate) fn lower_instruction(instr: &Instruction, graph: &HdlGraph, ctx: Option<usize>) -> (r: Result<Lowered, Error>)
    requires
        storage_fits(graph@),
        op_fits(instr@.op),
    ensures
        r is Err <==> instr@.op is Reg,
        r matches Err(e) ==> e matches Error::UnsupportedInCircom(m) && m@ == reg_message(),
        r matches Ok(l) ==> l@ == lower_v(graph@, instr@, ctx),
{
    proof {
        reveal_strlit("eq");
        reveal_strlit("lt");
        reveal_strlit("IsEqual");
        reveal_strlit("LessThan");
        reveal_strlit("reg (cross-cycle stateful; not yet rewritten by the unrolled emitter)");
    }
    let out = instr.output();
    let ins = instr.inputs();
    let mut v: Vec<Stmt> = Vec::new();
    proof {
        assert(stmts_v(v@) =~= Seq::<StmtV>::empty());
    }
    match instr.op() {
        Op::Not => {
            push_not(&mut v, out, ins[0], graph_width(graph, out), ctx);
        },
        Op::Bin(b) => {
            match b {
                BinOp::And => push_bitwise(&mut v, out, ins[0], ins[1], graph_width(graph, out), BitwiseOp::And, ctx),
                BinOp::Or => push_bitwise(&mut v, out, ins[0], ins[1], graph_width(graph, out), BitwiseOp::Or, ctx),
                BinOp::Xor => push_bitwise(&mut v, out, ins[0], ins[1], graph_width(graph, out), BitwiseOp::Xor, ctx),
                BinOp::Eq => {
                    let aw = graph_width(graph, ins[0]);
                    let bw = graph_width(graph, ins[1]);
                    return Ok(compare("eq", "IsEqual", Vec::new(), out, ins[0], ins[1], aw, bw, ctx));
                },
                BinOp::Lt => {
                    let aw = graph_width(graph, ins[0]);
                    let bw = graph_width(graph, ins[1]);
                    let args = vec![aw];
                    proof {
                        assert(args@ =~= seq![aw]);
                    }
                    return Ok(compare("lt", "LessThan", args, out, ins[0], ins[1], aw, bw, ctx));
                },
                _ => {
                    return Ok(lower_arith(graph, *b, out, ins[0], ins[1], ctx));
                },
            }
        },
        Op::Mux => {
            push_mux(&mut v, out, ins[0], ins[1], ins[2], graph_width(graph, out), ctx);
        },
        Op::Const { bits, ty: _ } => {
            push_consts(&mut v, out, bits.as_slice(), ctx);
        },
        Op::Slice { lo, hi } => {
            let n: u32 = if *hi >= *lo { *hi - *lo } else { 0 };
            push_copy(&mut v, out, ctx, 0, ins[0], ctx, *lo, n);
        },
        Op::Concat { low_width, high_width } => {
            push_copy(&mut v, out, ctx, 0, ins[0], ctx, 0, *low_width);
            push_copy(&mut v, out, ctx, *low_width, ins[1], ctx, 0, *high_width);
        },
        Op::ArrayShiftIn { element_width, depth } => {
            let k = kept_bits(*element_width, *depth);
            push_copy(&mut v, out, ctx, 0, ins[1], ctx, 0, *element_width);
            push_copy(&mut v, out, ctx, *element_width, ins[0], ctx, 0, k);
        },
        Op::ArrayTail { element_width, depth } => {
            let k = kept_bits(*element_width, *depth);
            push_copy(&mut v, out, ctx, 0, ins[0], ctx, k, *element_width);
        },
        Op::Reg { init: _, ty: _ } => {
            return Err(Error::UnsupportedInCircom("reg (cross-cycle stateful; not yet rewritten by the unrolled emitter)"));
        },
    }
    proof {
        assert(stmts_v(v@) == lower_v(graph@, instr@, ctx).stmts);
    }
    Ok(Lowered::of_stmts(v))
}

/// Lower every instruction of `graph` in order onto `acc`; fails on
/// the first register.
pub(crate) fn lower_into(acc: Lowered, graph: &HdlGraph, ctx: Option<usize>) -> (r: Result<Lowered, Error>)
    requires
        circom_ready(graph@),
    ensures
        r is Ok <==> no_reg(graph@.instrs),
        r matches Err(e) ==> e matches Error::UnsupportedInCircom(m) && m@ == reg_message(),
        r matches Ok(l) ==> l@ == lower_from(graph@, acc@, graph@.instrs, ctx),
{
    let instrs = graph.instructions();
    let ghost a0 = acc@;
    let mut acc = acc;
    let mut j: usize = 0;
    proof {
        assert(graph@.instrs.take(0) =~= Seq::<InstrSpec>::empty());
    }
    while j < instrs.len()
        invariant
            j <= instrs@.len(),
            instrs@.len() == graph@.instrs.len(),
            forall|k: int| 0 <= k < instrs@.len() ==> #[trigger] instrs@[k]@ == graph@.instrs[k],
            circom_ready(graph@),
            no_reg(graph@.instrs.take(j as int)),
            acc@ == lower_from(graph@, a0, graph@.instrs.take(j as int), ctx),
        decreases instrs@.len() - j,
    {
        let instr = &instrs[j];
        proof {
            assert(instr@ == graph@.instrs[j as int]);
            assert(op_fits(graph@.instrs[j as int].op));
        }
        match lower_instruction(instr, graph, ctx) {
            Ok(d) => {
                proof {
                    let t = graph@.instrs.take(j + 1);
                    assert(t.drop_last() =~= graph@.instrs.take(j as int));
                    assert(t.last() == graph@.instrs[j as int]);
                    assert forall|k: int| 0 <= k < t.len() implies !(#[trigger] t[k].op is Reg) by {
                        if k < j {
                            assert(t[k] == graph@.instrs.take(j as int)[k]);
                        }
                    }
                }
                acc = acc.extend(d);
            },
            Err(e) => {
                proof {
                    assert(!no_reg(graph@.instrs)) by {
                        assert(graph@.instrs[j as int].op is Reg);
                    }
                }
                return Err(e);
            },
        }
        j = j + 1;
    }
    proof {
        assert(graph@.instrs.take(j as int) =~= graph@.instrs);
    }
    Ok(acc)
}

} // verus!
