//! Convert IR graphs and machines to Verilog [`Module`]s.

use vstd::prelude::*;

use comp_cat_rs::effect::io::Io;

use crate::arith::{bits_val, u128_of_bits, lemma_bits_val_bound, lemma_pow2_two_to_128};
use crate::bit_seq::BitSeq;
use crate::deferred::{deferred_module, yielded_module};
use crate::error::Error;
use crate::ir::graph::{GraphSpec, HdlGraph, instr_views};
use crate::ir::instr::{InstrSpec, Instruction};
use crate::ir::op::{BinOp, Op, OpSpec, arity};
use crate::ir::wire::{WireId, WireTy, wire_text, ty_width};
use crate::sim::testbench::{checked_total, chunks, nats, split_slice_head, total, widths, widths_of};
use crate::sync::compose::wire_width_in;
use crate::ty_desc::bit_length;
use crate::verilog::ast::{Expr, ExprV, Module, ModuleV, Port, PortDirection, PortV, Stmt, StmtV, ports_v, stmts_v};

verus! {

/// The Verilog name of wire `w`: `w<index>`.
pub open spec fn wname(w: WireId) -> Seq<char> {
    wire_text(w.0 as nat)
}

/// A wire reference expression.
pub open spec fn wire_ref(w: WireId) -> ExprV {
    ExprV::Wire(wname(w))
}

/// The declared width of wire `w` (0 when undeclared).
pub open spec fn wwidth(g: GraphSpec, w: WireId) -> u32 {
    if (w.0 as nat) < g.wires.len() {
        ty_width(g.wires[w.0 as int])
    } else {
        0
    }
}

/// The Verilog operator token of a binary op.
pub open spec fn binop_token(b: BinOp) -> Seq<char> {
    match b {
        BinOp::And => "&"@,
        BinOp::Or => "|"@,
        BinOp::Xor => "^"@,
        BinOp::Add => "+"@,
        BinOp::Sub => "-"@,
        BinOp::Mul => "*"@,
        BinOp::Eq => "=="@,
        BinOp::Lt => "<"@,
    }
}

/// The expression computing an op from its input wires.
pub open spec fn op_expr(g: GraphSpec, op: OpSpec, ins: Seq<WireId>) -> ExprV {
    match op {
        OpSpec::Not => ExprV::Not(Box::new(wire_ref(ins[0]))),
        OpSpec::Bin(b) => ExprV::Binary { op: binop_token(b), lhs: Box::new(wire_ref(ins[0])), rhs: Box::new(wire_ref(ins[1])) },
        OpSpec::Mux => ExprV::Mux {
            selector: Box::new(wire_ref(ins[0])),
            false_arm: Box::new(wire_ref(ins[1])),
            true_arm: Box::new(wire_ref(ins[2])),
        },
        OpSpec::Const { bits, ty } => ExprV::Literal { width: ty_width(ty), value: bits_val(bits) as u128 },
        OpSpec::Reg { init, ty } => wire_ref(ins[0]),
        OpSpec::Concat { low_width, high_width } => ExprV::Concat { high: Box::new(wire_ref(ins[1])), low: Box::new(wire_ref(ins[0])) },
        OpSpec::Slice { lo, hi } => {
            let sw = wwidth(g, ins[0]);
            if sw <= 1 && lo == 0 && hi == sw {
                wire_ref(ins[0])
            } else {
                ExprV::Slice { source: Box::new(wire_ref(ins[0])), lo, hi }
            }
        },
        _ => if ins.len() > 0 {
            wire_ref(ins[0])
        } else {
            ExprV::Literal { width: 0, value: 0 }
        },
    }
}

/// The continuous assignment of an instruction.
pub open spec fn instr_assign(g: GraphSpec, i: InstrSpec) -> StmtV {
    StmtV::Assign { lhs: wname(i.output), rhs: op_expr(g, i.op, i.inputs) }
}

/// Assignments for the instructions whose output is not in `skip`.
pub open spec fn assigns(g: GraphSpec, is: Seq<InstrSpec>, skip: Seq<WireId>) -> Seq<StmtV>
    decreases is.len(),
{
    if is.len() == 0 {
        Seq::empty()
    } else {
        let rest = assigns(g, is.drop_last(), skip);
        if skip.contains(is.last().output) {
            rest
        } else {
            rest.push(instr_assign(g, is.last()))
        }
    }
}

/// Wire declarations for the first `n` wires whose id is not in `skip`.
pub open spec fn wire_decls(ws: Seq<WireTy>, skip: Seq<WireId>) -> Seq<StmtV>
    decreases ws.len(),
{
    if ws.len() == 0 {
        Seq::empty()
    } else {
        let idx = (ws.len() - 1) as nat;
        let rest = wire_decls(ws.drop_last(), skip);
        if skip.contains(WireId(idx as usize)) {
            rest
        } else {
            rest.push(StmtV::WireDecl { name: wire_text(idx), width: ty_width(ws.last()) })
        }
    }
}

/// The port of wire `w` with direction `d`.
pub open spec fn wire_port(g: GraphSpec, w: WireId, d: PortDirection) -> PortV {
    PortV { name: wname(w), direction: d, width: wwidth(g, w) }
}

/// Ports for a list of wires, all with direction `d`.
pub open spec fn wire_ports(g: GraphSpec, ws: Seq<WireId>, d: PortDirection) -> Seq<PortV> {
    ws.map_values(|w: WireId| wire_port(g, w, d))
}

/// Every `Const` op of the graph has at most 128 bits.
pub open spec fn consts_fit(g: GraphSpec) -> bool {
    forall|j: int|
        0 <= j < g.instrs.len() ==> match #[trigger] g.instrs[j].op {
            OpSpec::Const { bits, ty } => bits.len() <= 128,
            _ => true,
        }
}

/// The combinational module of a graph: input and output ports, a
/// declaration per other wire, an assignment per instruction.
pub open spec fn module_spec(g: GraphSpec, name: Seq<char>, ins: Seq<WireId>, outs: Seq<WireId>) -> ModuleV {
    ModuleV {
        name,
        ports: wire_ports(g, ins, PortDirection::Input) + wire_ports(g, outs, PortDirection::Output),
        body: wire_decls(g.wires, ins + outs) + assigns(g, g.instrs, Seq::empty()),
    }
}

fn wire_name(w: WireId) -> (r: String)
    ensures
        r@ == wname(w),
{
    w.to_display_string()
}

fn wire_expr(w: WireId) -> (r: Expr)
    ensures
        r@ == wire_ref(w),
{
    Expr::Wire(wire_name(w))
}

fn wire_width(graph: &HdlGraph, w: WireId) -> (r: u32)
    ensures
        r == wwidth(graph@, w),
{
    match graph.wire_ty(w.index()) {
        Some(t) => t.width(),
        None => 0,
    }
}

fn binop_str(b: BinOp) -> (r: &'static str)
    ensures
        r@ == binop_token(b),
{
    match b {
        BinOp::And => "&",
        BinOp::Or => "|",
        BinOp::Xor => "^",
        BinOp::Add => "+",
        BinOp::Sub => "-",
        BinOp::Mul => "*",
        BinOp::Eq => "==",
        BinOp::Lt => "<",
    }
}

/// The value of a bit sequence of at most 128 bits.
fn bits_value(bits: &BitSeq) -> (r: u128)
    requires
        bits@.len() <= 128,
    ensures
        r == bits_val(bits@),
{
    proof {
        lemma_bits_val_bound(bits@);
        lemma_pow2_two_to_128();
        if bits@.len() < 128 {
            vstd::arithmetic::power2::lemma_pow2_strictly_increases(bits@.len(), 128);
        }
    }
    match u128_of_bits(bits.as_slice()) {
        Some(v) => v,
        None => 0,
    }
}

/// The expression of an op applied to its input wires.
fn op_to_expr(graph: &HdlGraph, op: &Op, inputs: &[WireId]) -> (r: Expr)
    requires
        inputs@.len() == arity(op@),
        op@ matches OpSpec::Const { bits, ty } ==> bits.len() <= 128,
    ensures
        r@ == op_expr(graph@, op@, inputs@),
{
    match op {
        Op::Not => Expr::Not(Box::new(wire_expr(inputs[0]))),
        Op::Bin(b) => Expr::Binary {
            op: binop_str(*b),
            lhs: Box::new(wire_expr(inputs[0])),
            rhs: Box::new(wire_expr(inputs[1])),
        },
        Op::Mux => Expr::Mux {
            selector: Box::new(wire_expr(inputs[0])),
            false_arm: Box::new(wire_expr(inputs[1])),
            true_arm: Box::new(wire_expr(inputs[2])),
        },
        Op::Const { bits, ty } => Expr::Literal { width: ty.width(), value: bits_value(bits) },
        Op::Reg { init: _, ty: _ } => wire_expr(inputs[0]),
        Op::Concat { low_width: _, high_width: _ } => Expr::Concat {
            high: Box::new(wire_expr(inputs[1])),
            low: Box::new(wire_expr(inputs[0])),
        },
        Op::Slice { lo, hi } => {
            let sw = wire_width(graph, inputs[0]);
            if sw <= 1 && *lo == 0 && *hi == sw {
                wire_expr(inputs[0])
            } else {
                Expr::Slice { source: Box::new(wire_expr(inputs[0])), lo: *lo, hi: *hi }
            }
        },
        _ => {
            if inputs.len() > 0 {
                wire_expr(inputs[0])
            } else {
                Expr::Literal { width: 0, value: 0 }
            }
        },
    }
}

/// Whether `w` occurs in `ws`.
pub(crate) fn wire_in(ws: &[WireId], w: WireId) -> (r: bool)
    ensures
        r == ws@.contains(w),
{
    let mut i: usize = 0;
    while i < ws.len()
        invariant
            i <= ws@.len(),
            forall|k: int| 0 <= k < i ==> ws@[k] != w,
        decreases ws@.len() - i,
    {
        if ws[i] == w {
            proof {
                assert(ws@[i as int] == w);
            }
            return true;
        }
        i = i + 1;
    }
    false
}

/// Append assignments for the instructions whose output is not in
/// `skip`.
fn push_assigns(body: &mut Vec<Stmt>, graph: &HdlGraph, skip: &[WireId])
    requires
        consts_fit(graph@),
    ensures
        stmts_v(final(body)@) == stmts_v(old(body)@) + assigns(graph@, graph@.instrs, skip@),
{
    let instrs = graph.instructions();
    let ghost start = stmts_v(body@);
    let mut j: usize = 0;
    proof {
        assert(graph@.instrs.take(0) =~= Seq::<InstrSpec>::empty());
        assert(stmts_v(body@) =~= start + assigns(graph@, graph@.instrs.take(0), skip@));
    }
    while j < instrs.len()
        invariant
            j <= instrs@.len(),
            instr_views(instrs@) == graph@.instrs,
            instrs@.len() == graph@.instrs.len(),
            consts_fit(graph@),
            stmts_v(body@) == start + assigns(graph@, graph@.instrs.take(j as int), skip@),
        decreases instrs@.len() - j,
    {
        let instr = &instrs[j];
        proof {
            assert(instr@ == graph@.instrs[j as int]);
            assert(graph@.instrs.take(j + 1).drop_last() =~= graph@.instrs.take(j as int));
            assert(graph@.instrs.take(j + 1).last() == graph@.instrs[j as int]);
        }
        if !wire_in(skip, instr.output()) {
            let ghost before = body@;
            let st = Stmt::Assign { lhs: wire_name(instr.output()), rhs: op_to_expr(graph, instr.op(), instr.inputs()) };
            body.push(st);
            proof {
                assert(stmts_v(body@) =~= stmts_v(before).push(st@));
            }
        }
        j = j + 1;
    }
    proof {
        assert(graph@.instrs.take(j as int) =~= graph@.instrs);
    }
}

/// Append a declaration for each wire not in `skip`.
fn push_wire_decls(body: &mut Vec<Stmt>, graph: &HdlGraph, skip: &[WireId])
    ensures
        stmts_v(final(body)@) == stmts_v(old(body)@) + wire_decls(graph@.wires, skip@),
{
    let ws = graph.wires();
    let ghost start = stmts_v(body@);
    let mut i: usize = 0;
    proof {
        assert(ws@.take(0) =~= Seq::<WireTy>::empty());
        assert(stmts_v(body@) =~= start + wire_decls(ws@.take(0), skip@));
    }
    while i < ws.len()
        invariant
            i <= ws@.len(),
            stmts_v(body@) == start + wire_decls(ws@.take(i as int), skip@),
        decreases ws@.len() - i,
    {
        proof {
            assert(ws@.take(i + 1).drop_last() =~= ws@.take(i as int));
            assert(ws@.take(i + 1).last() == ws@[i as int]);
        }
        let w = WireId::new(i);
        if !wire_in(skip, w) {
            let ghost before = body@;
            let st = Stmt::WireDecl { name: wire_name(w), width: ws[i].width() };
            body.push(st);
            proof {
                assert(stmts_v(body@) =~= stmts_v(before).push(st@));
            }
        }
        i = i + 1;
    }
    proof {
        assert(ws@.take(i as int) =~= ws@);
    }
}

/// Append a port per wire, all with direction `d`.
fn push_wire_ports(ports: &mut Vec<Port>, graph: &HdlGraph, ws: &[WireId], d: PortDirection)
    ensures
        ports_v(final(ports)@) == ports_v(old(ports)@) + wire_ports(graph@, ws@, d),
{
    let ghost start = ports_v(ports@);
    let mut i: usize = 0;
    while i < ws.len()
        invariant
            i <= ws@.len(),
            ports_v(ports@) == start + wire_ports(graph@, ws@.take(i as int), d),
        decreases ws@.len() - i,
    {
        let ghost before = ports@;
        let p = Port::from_string(wire_name(ws[i]), d, wire_width(graph, ws[i]));
        ports.push(p);
        proof {
            assert(ports_v(ports@) =~= ports_v(before).push(p@));
            assert(wire_ports(graph@, ws@.take(i + 1), d) =~= wire_ports(graph@, ws@.take(i as int), d).push(
                wire_port(graph@, ws@[i as int], d),
            ));
        }
        i = i + 1;
    }
    proof {
        assert(ws@.take(i as int) =~= ws@);
    }
}

fn concat_ids(a: &[WireId], b: &[WireId]) -> (r: Vec<WireId>)
    ensures
        r@ == a@ + b@,
{
    let mut v: Vec<WireId> = Vec::new();
    let mut i: usize = 0;
    while i < a.len()
        invariant
            i <= a@.len(),
            v@ == a@.take(i as int),
        decreases a@.len() - i,
    {
        v.push(a[i]);
        proof {
            assert(v@ =~= a@.take(i + 1));
        }
        i = i + 1;
    }
    let mut j: usize = 0;
    while j < b.len()
        invariant
            j <= b@.len(),
            v@ == a@ + b@.take(j as int),
        decreases b@.len() - j,
    {
        v.push(b[j]);
        proof {
            assert(v@ =~= a@ + b@.take(j + 1));
        }
        j = j + 1;
    }
    proof {
        assert(a@.take(a@.len() as int) =~= a@);
        assert(b@.take(b@.len() as int) =~= b@);
    }
    v
}

/// The combinational module of `graph`: `input_wires` become input
/// ports, `output_wires` output ports, every other wire a declaration,
/// every instruction an assignment.
pub fn build_module(graph: &HdlGraph, name: &str, inputs: &[WireId], outputs: &[WireId]) -> (r: Module)
    requires
        consts_fit(graph@),
    ensures
        r@ == module_spec(graph@, name@, inputs@, outputs@),
{
    let mut ports: Vec<Port> = Vec::new();
    proof {
        assert(ports_v(ports@) =~= Seq::<PortV>::empty());
    }
    push_wire_ports(&mut ports, graph, inputs, PortDirection::Input);
    push_wire_ports(&mut ports, graph, outputs, PortDirection::Output);
    let skip = concat_ids(inputs, outputs);
    let mut body: Vec<Stmt> = Vec::new();
    proof {
        assert(stmts_v(body@) =~= Seq::<StmtV>::empty());
    }
    push_wire_decls(&mut body, graph, skip.as_slice());
    let none: Vec<WireId> = Vec::new();
    push_assigns(&mut body, graph, none.as_slice());
    proof {
        assert(none@ =~= Seq::<WireId>::empty());
        assert(ports_v(ports@) =~= module_spec(graph@, name@, inputs@, outputs@).ports);
        assert(stmts_v(body@) =~= module_spec(graph@, name@, inputs@, outputs@).body);
    }
    Module::new(name, ports, body)
}

/// The combinational module of `graph`, as a suspended computation
/// yielding what [`build_module`] returns.
pub fn emit_graph(graph: &HdlGraph, name: &str, input_wires: &[WireId], output_wires: &[WireId]) -> (r: Io<Error, Module>)
    requires
        consts_fit(graph@),
    ensures
        yielded_module(r) matches Ok(m) && m@ == module_spec(graph@, name@, input_wires@, output_wires@),
{
    deferred_module(Ok(build_module(graph, name, input_wires, output_wires)))
}

/// Arrays deeper than this are emitted as circular buffers, others as
/// shift registers.
pub const CIRC_BUF_THRESHOLD: usize = 32;

/// How an array of state elements is emitted.
#[derive(Clone, Copy, Debug, PartialEq, Eq, Structural)]
pub enum ArrayStrategy {
    /// `arr[0] <= input; arr[i] <= arr[i-1]`.
    ShiftRegister,
    /// `arr[ptr] <= input; ptr <= ptr + 1 (mod depth)`, the oldest
    /// element read at `arr[ptr]`.
    CircularBuffer,
}

/// The pointer width for `depth` elements: enough bits for `depth - 1`
/// (at least one).
pub open spec fn ptr_w(depth: nat) -> u32 {
    if depth <= 1 {
        1
    } else {
        bit_length((depth - 1) as nat) as u32
    }
}

/// The number of binary digits of `x` is at most 64 for a `u64`-sized
/// value.
proof fn lemma_bit_length_le(x: nat, k: nat)
    requires
        x < vstd::arithmetic::power2::pow2(k),
    ensures
        bit_length(x) <= k,
    decreases x,
{
    if x > 0 {
        if k == 0 {
            vstd::arithmetic::power2::lemma2_to64();
        } else {
            vstd::arithmetic::power2::lemma_pow2_unfold(k);
            lemma_bit_length_le(x / 2, (k - 1) as nat);
        }
    }
}

/// The pointer register width for a circular buffer of `depth` elements.
fn ptr_width(depth: usize) -> (r: u32)
    ensures
        r == ptr_w(depth as nat),
{
    if depth <= 1 {
        return 1;
    }
    let mut x: usize = depth - 1;
    let mut c: u32 = 0;
    proof {
        vstd::arithmetic::power2::lemma2_to64();
        lemma_bit_length_le((depth - 1) as nat, 64);
    }
    while x > 0
        invariant
            c as nat + bit_length(x as nat) == bit_length((depth - 1) as nat),
            bit_length((depth - 1) as nat) <= 64,
        decreases x,
    {
        x = x / 2;
        c = c + 1;
    }
    c
}

/// A `width'dvalue` literal expression.
pub open spec fn lit(width: u32, bits: Seq<bool>) -> ExprV {
    ExprV::Literal { width, value: bits_val(bits) as u128 }
}

/// The name of a circular buffer's pointer register.
pub open spec fn ptr_name(array: Seq<char>) -> Seq<char> {
    array + "_ptr"@
}

/// The array block for `array` with the given parameters.
pub open spec fn array_block(array: Seq<char>, depth: usize, width: u32, reset: Seq<bool>, input: WireId, circ: bool) -> StmtV {
    if circ {
        StmtV::AlwaysArrayCircBuf {
            clock: "clk"@,
            reset: "rst"@,
            array,
            depth,
            width,
            ptr_name: ptr_name(array),
            ptr_width: ptr_w(depth as nat),
            reset_value: lit(width, reset),
            input: wire_ref(input),
        }
    } else {
        StmtV::AlwaysArrayShift {
            clock: "clk"@,
            reset: "rst"@,
            array,
            depth,
            width,
            reset_value: lit(width, reset),
            input: wire_ref(input),
        }
    }
}

/// The read of an array's oldest element: `array[depth-1]`, or
/// `array[array_ptr]` for a circular buffer.
pub open spec fn array_tail(array: Seq<char>, depth: usize, circ: bool) -> ExprV {
    if circ {
        ExprV::ArrayDynIndex { array, index: Box::new(ExprV::Wire(ptr_name(array))) }
    } else {
        ExprV::ArrayIndex { array, index: (depth - 1) as usize }
    }
}

/// A scalar register update: reset to `reset`, otherwise load `next`.
pub open spec fn reg_block(reg: WireId, width: u32, reset: Seq<bool>, next: WireId) -> StmtV {
    StmtV::AlwaysFf { clock: "clk"@, reset: Some("rst"@), reg: wname(reg), reset_value: lit(width, reset), next: wire_ref(next) }
}

/// The ports of a clocked module: `clk`, `rst`, the data inputs, the
/// data outputs (`output reg` when the output is also a state wire).
pub open spec fn sync_ports(g: GraphSpec, state_in: Seq<WireId>, data_in: Seq<WireId>, data_out: Seq<WireId>) -> Seq<PortV> {
    seq![
        PortV { name: "clk"@, direction: PortDirection::Input, width: 1 },
        PortV { name: "rst"@, direction: PortDirection::Input, width: 1 },
    ] + wire_ports(g, data_in, PortDirection::Input) + data_out.map_values(
        |w: WireId|
            wire_port(g, w, if state_in.contains(w) { PortDirection::OutputReg } else { PortDirection::Output }),
    )
}

/// Register declarations for the state wires whose index is not in
/// `arr` and that are not data outputs.
pub open spec fn state_reg_decls(g: GraphSpec, state_in: Seq<WireId>, arr: Seq<nat>, data_out: Seq<WireId>) -> Seq<StmtV>
    decreases state_in.len(),
{
    if state_in.len() == 0 {
        Seq::empty()
    } else {
        let i = (state_in.len() - 1) as nat;
        let w = state_in.last();
        let rest = state_reg_decls(g, state_in.drop_last(), arr, data_out);
        if !arr.contains(i) && !data_out.contains(w) {
            rest.push(StmtV::RegDecl { name: wname(w), width: wwidth(g, w) })
        } else {
            rest
        }
    }
}

/// Register update blocks for the state wires whose index is not in
/// `arr`.
pub open spec fn reg_blocks(g: GraphSpec, state_in: Seq<WireId>, next: Seq<WireId>, init: Seq<Seq<bool>>, arr: Seq<nat>) -> Seq<StmtV>
    decreases state_in.len(),
{
    if state_in.len() == 0 {
        Seq::empty()
    } else {
        let i = (state_in.len() - 1) as int;
        let rest = reg_blocks(g, state_in.drop_last(), next, init, arr);
        if !arr.contains(i as nat) {
            rest.push(reg_block(state_in[i], wwidth(g, state_in[i]), init[i], next[i]))
        } else {
            rest
        }
    }
}

fn lit_expr(width: u32, bits: &BitSeq) -> (r: Expr)
    requires
        bits@.len() <= 128,
    ensures
        r@ == lit(width, bits@),
{
    Expr::Literal { width, value: bits_value(bits) }
}

fn push_sync_ports(ports: &mut Vec<Port>, graph: &HdlGraph, state_in: &[WireId], data_in: &[WireId], data_out: &[WireId])
    ensures
        ports_v(final(ports)@) == ports_v(old(ports)@) + sync_ports(graph@, state_in@, data_in@, data_out@),
{
    let ghost start = ports_v(ports@);
    ports.push(Port::new("clk", PortDirection::Input, 1));
    ports.push(Port::new("rst", PortDirection::Input, 1));
    push_wire_ports(ports, graph, data_in, PortDirection::Input);
    let ghost mid = ports_v(ports@);
    let mut i: usize = 0;
    let ghost f = |w: WireId|
        wire_port(graph@, w, if state_in@.contains(w) { PortDirection::OutputReg } else { PortDirection::Output });
    while i < data_out.len()
        invariant
            i <= data_out@.len(),
            f == (|w: WireId|
                wire_port(graph@, w, if state_in@.contains(w) { PortDirection::OutputReg } else { PortDirection::Output })),
            ports_v(ports@) == mid + data_out@.take(i as int).map_values(f),
        decreases data_out@.len() - i,
    {
        let w = data_out[i];
        let d = if wire_in(state_in, w) { PortDirection::OutputReg } else { PortDirection::Output };
        let ghost before = ports@;
        let p = Port::from_string(wire_name(w), d, wire_width(graph, w));
        ports.push(p);
        proof {
            assert(ports_v(ports@) =~= ports_v(before).push(p@));
            assert(data_out@.take(i + 1).map_values(f) =~= data_out@.take(i as int).map_values(f).push(f(w)));
        }
        i = i + 1;
    }
    proof {
        assert(data_out@.take(i as int) =~= data_out@);
        assert(ports_v(ports@) =~= start + sync_ports(graph@, state_in@, data_in@, data_out@));
    }
}

fn index_in(ixs: &[usize], i: usize) -> (r: bool)
    ensures
        r == nats(ixs@).contains(i as nat),
{
    let mut k: usize = 0;
    while k < ixs.len()
        invariant
            k <= ixs@.len(),
            forall|j: int| 0 <= j < k ==> ixs@[j] != i,
        decreases ixs@.len() - k,
    {
        if ixs[k] == i {
            proof {
                assert(nats(ixs@)[k as int] == i as nat);
            }
            return true;
        }
        k = k + 1;
    }
    proof {
        if nats(ixs@).contains(i as nat) {
            let j = choose|j: int| 0 <= j < nats(ixs@).len() && nats(ixs@)[j] == i as nat;
            assert(ixs@[j] == i);
        }
    }
    false
}

fn push_state_reg_decls(body: &mut Vec<Stmt>, graph: &HdlGraph, state_in: &[WireId], arr: &[usize], data_out: &[WireId])
    ensures
        stmts_v(final(body)@) == stmts_v(old(body)@) + state_reg_decls(graph@, state_in@, nats(arr@), data_out@),
{
    let ghost start = stmts_v(body@);
    let mut i: usize = 0;
    proof {
        assert(state_in@.take(0) =~= Seq::<WireId>::empty());
        assert(stmts_v(body@) =~= start + state_reg_decls(graph@, state_in@.take(0), nats(arr@), data_out@));
    }
    while i < state_in.len()
        invariant
            i <= state_in@.len(),
            stmts_v(body@) == start + state_reg_decls(graph@, state_in@.take(i as int), nats(arr@), data_out@),
        decreases state_in@.len() - i,
    {
        proof {
            assert(state_in@.take(i + 1).drop_last() =~= state_in@.take(i as int));
            assert(state_in@.take(i + 1).last() == state_in@[i as int]);
        }
        let w = state_in[i];
        if !index_in(arr, i) && !wire_in(data_out, w) {
            let ghost before = body@;
            let st = Stmt::RegDecl { name: wire_name(w), width: wire_width(graph, w) };
            body.push(st);
            proof {
                assert(stmts_v(body@) =~= stmts_v(before).push(st@));
            }
        }
        i = i + 1;
    }
    proof {
        assert(state_in@.take(i as int) =~= state_in@);
    }
}

fn push_reg_blocks(body: &mut Vec<Stmt>, graph: &HdlGraph, state_in: &[WireId], next: &[WireId], init: &Vec<BitSeq>, arr: &[usize])
    requires
        next@.len() >= state_in@.len(),
        init@.len() >= state_in@.len(),
        forall|k: int| 0 <= k < state_in@.len() ==> (#[trigger] init@[k])@.len() <= 128,
    ensures
        stmts_v(final(body)@) == stmts_v(old(body)@) + reg_blocks(
            graph@,
            state_in@,
            next@,
            crate::sim::interp::seqs_view(init@),
            nats(arr@),
        ),
{
    let ghost start = stmts_v(body@);
    let ghost iv = crate::sim::interp::seqs_view(init@);
    let mut i: usize = 0;
    proof {
        assert(state_in@.take(0) =~= Seq::<WireId>::empty());
        assert(stmts_v(body@) =~= start + reg_blocks(graph@, state_in@.take(0), next@, iv, nats(arr@)));
    }
    while i < state_in.len()
        invariant
            i <= state_in@.len(),
            next@.len() >= state_in@.len(),
            init@.len() >= state_in@.len(),
            iv == crate::sim::interp::seqs_view(init@),
            forall|k: int| 0 <= k < state_in@.len() ==> (#[trigger] init@[k])@.len() <= 128,
            stmts_v(body@) == start + reg_blocks(graph@, state_in@.take(i as int), next@, iv, nats(arr@)),
        decreases state_in@.len() - i,
    {
        proof {
            assert(state_in@.take(i + 1).drop_last() =~= state_in@.take(i as int));
            assert(state_in@.take(i + 1)[i as int] == state_in@[i as int]);
            assert(iv[i as int] == init@[i as int]@);
        }
        if !index_in(arr, i) {
            let sw = state_in[i];
            let ghost before = body@;
            let st = Stmt::AlwaysFf {
                clock: "clk".to_string(),
                reset: Some("rst".to_string()),
                reg: wire_name(sw),
                reset_value: lit_expr(wire_width(graph, sw), &init[i]),
                next: wire_expr(next[i]),
            };
            body.push(st);
            proof {
                assert(stmts_v(body@) =~= stmts_v(before).push(st@));
            }
        }
        i = i + 1;
    }
    proof {
        assert(state_in@.take(i as int) =~= state_in@);
    }
}

/// An array-typed state wire found in a machine, with what its
/// emission needs.
pub ghost struct DetectedV {
    pub state_idx: nat,
    pub state_wire: WireId,
    pub ew: u32,
    pub depth: usize,
    pub input_wire: WireId,
    pub reset_bits: Seq<bool>,
    pub circ: bool,
}

/// The second input of the first `ArrayShiftIn` instruction writing
/// `w`.
pub open spec fn shift_in_source(is: Seq<InstrSpec>, w: WireId) -> Option<WireId>
    decreases is.len(),
{
    if is.len() == 0 {
        None
    } else if is[0].output == w && is[0].op is ArrayShiftIn {
        if is[0].inputs.len() > 1 {
            Some(is[0].inputs[1])
        } else {
            None
        }
    } else {
        shift_in_source(is.drop_first(), w)
    }
}

/// The array found at state index `i`, if its wire is array-typed and
/// its next-state wire is written by an `ArrayShiftIn`.
pub open spec fn detect_at(g: GraphSpec, state_in: Seq<WireId>, next: Seq<WireId>, ch: Seq<Seq<bool>>, i: int) -> Option<DetectedV> {
    let w = state_in[i];
    if (w.0 as nat) < g.wires.len() {
        match g.wires[w.0 as int] {
            WireTy::Array { element_width, depth } => match shift_in_source(g.instrs, next[i]) {
                Some(src) => Some(
                    DetectedV {
                        state_idx: i as nat,
                        state_wire: w,
                        ew: element_width,
                        depth,
                        input_wire: src,
                        reset_bits: ch[i],
                        circ: depth > CIRC_BUF_THRESHOLD,
                    },
                ),
                None => None,
            },
            _ => None,
        }
    } else {
        None
    }
}

/// The arrays found among the first `n` state wires, in order.
pub open spec fn detect(g: GraphSpec, state_in: Seq<WireId>, next: Seq<WireId>, ch: Seq<Seq<bool>>, n: nat) -> Seq<DetectedV>
    decreases n,
{
    if n == 0 {
        Seq::empty()
    } else {
        let rest = detect(g, state_in, next, ch, (n - 1) as nat);
        match detect_at(g, state_in, next, ch, n - 1) {
            Some(a) => rest.push(a),
            None => rest,
        }
    }
}

/// The register-array declarations of detected arrays.
pub open spec fn array_decls(arrs: Seq<DetectedV>) -> Seq<StmtV> {
    arrs.map_values(|a: DetectedV| StmtV::RegArrayDecl { name: wname(a.state_wire), width: a.ew, depth: a.depth })
}

/// The pointer declarations of the circular-buffer arrays.
pub open spec fn ptr_decls(arrs: Seq<DetectedV>) -> Seq<StmtV> {
    arrs.filter_map(
        |a: DetectedV|
            if a.circ {
                Some(StmtV::RegDecl { name: ptr_name(wname(a.state_wire)), width: ptr_w(a.depth as nat) })
            } else {
                None
            },
    )
}

/// The update blocks of detected arrays.
pub open spec fn array_blocks(arrs: Seq<DetectedV>) -> Seq<StmtV> {
    arrs.map_values(|a: DetectedV| array_block(wname(a.state_wire), a.depth, a.ew, a.reset_bits, a.input_wire, a.circ))
}

/// The first detected array whose state wire is `w`.
pub open spec fn array_of(arrs: Seq<DetectedV>, w: WireId) -> Option<DetectedV>
    decreases arrs.len(),
{
    if arrs.len() == 0 {
        None
    } else if arrs[0].state_wire == w {
        Some(arrs[0])
    } else {
        array_of(arrs.drop_first(), w)
    }
}

/// The array an `ArrayTail` instruction reads, if it reads a detected
/// array.
pub open spec fn tail_array(arrs: Seq<DetectedV>, i: InstrSpec) -> Option<DetectedV> {
    if i.op is ArrayTail && i.inputs.len() > 0 {
        array_of(arrs, i.inputs[0])
    } else {
        None
    }
}

/// Index assignments replacing `ArrayTail` instructions on detected
/// arrays.
pub open spec fn tail_assigns(arrs: Seq<DetectedV>, is: Seq<InstrSpec>) -> Seq<StmtV> {
    is.filter_map(
        |i: InstrSpec|
            match tail_array(arrs, i) {
                Some(a) => Some(
                    StmtV::Assign { lhs: wname(i.output), rhs: array_tail(wname(a.state_wire), a.depth, a.circ) },
                ),
                None => None,
            },
    )
}

/// The outputs of those `ArrayTail` instructions.
pub open spec fn tail_outputs(arrs: Seq<DetectedV>, is: Seq<InstrSpec>) -> Seq<WireId> {
    is.filter_map(
        |i: InstrSpec|
            match tail_array(arrs, i) {
                Some(a) => Some(i.output),
                None => None,
            },
    )
}

/// Whether state wire `w`, with next-state wire `next`, is an array the
/// clocked emitter detects (array-typed, its next state written by an
/// `ArrayShiftIn`) of no element.
pub open spec fn empty_detected(g: GraphSpec, w: WireId, next: WireId) -> bool {
    &&& (w.0 as nat) < g.wires.len()
    &&& g.wires[w.0 as int] matches WireTy::Array { depth, .. } && depth == 0
    &&& shift_in_source(g.instrs, next) is Some
}

/// Every array the clocked emitter detects among the first `sc` state
/// wires has at least one element.
pub open spec fn detected_nonempty(g: GraphSpec, sc: nat, ins: Seq<WireId>, outs: Seq<WireId>) -> bool {
    forall|i: int| 0 <= i < sc ==> !#[trigger] empty_detected(g, ins[i], outs[i])
}

/// An array-typed state wire found in a machine.
#[derive(Debug)]
struct DetectedArray {
    state_idx: usize,
    state_wire: WireId,
    element_width: u32,
    depth: usize,
    input_wire: WireId,
    reset_bits: BitSeq,
    strategy: ArrayStrategy,
}

impl View for DetectedArray {
    type V = DetectedV;

    closed spec fn view(&self) -> DetectedV {
        DetectedV {
            state_idx: self.state_idx as nat,
            state_wire: self.state_wire,
            ew: self.element_width,
            depth: self.depth,
            input_wire: self.input_wire,
            reset_bits: self.reset_bits@,
            circ: self.strategy == ArrayStrategy::CircularBuffer,
        }
    }
}

/// The views of detected arrays.
spec fn arrs_v(s: Seq<DetectedArray>) -> Seq<DetectedV> {
    s.map_values(|a: DetectedArray| a@)
}

fn find_shift_in(instrs: &[Instruction], w: WireId) -> (r: Option<WireId>)
    ensures
        r == shift_in_source(instr_views(instrs@), w),
{
    let ghost iv = instr_views(instrs@);
    let mut k: usize = 0;
    proof {
        assert(iv.skip(0) =~= iv);
    }
    while k < instrs.len()
        invariant
            k <= instrs@.len(),
            iv == instr_views(instrs@),
            shift_in_source(iv, w) == shift_in_source(iv.skip(k as int), w),
        decreases instrs@.len() - k,
    {
        let instr = &instrs[k];
        proof {
            assert(iv.skip(k as int)[0] == instr@);
        }
        let is_shift = match instr.op() {
            Op::ArrayShiftIn { .. } => true,
            _ => false,
        };
        if instr.output() == w && is_shift {
            let ins = instr.inputs();
            if ins.len() > 1 {
                return Some(ins[1]);
            } else {
                return None;
            }
        }
        proof {
            assert(iv.skip(k as int).drop_first() =~= iv.skip(k + 1));
        }
        k = k + 1;
    }
    None
}

fn detect_arrays(graph: &HdlGraph, state_in: &[WireId], next: &[WireId], ch: &Vec<BitSeq>) -> (r: Vec<DetectedArray>)
    requires
        next@.len() >= state_in@.len(),
        ch@.len() >= state_in@.len(),
    ensures
        arrs_v(r@) == detect(graph@, state_in@, next@, crate::sim::interp::seqs_view(ch@), state_in@.len()),
        forall|k: int| 0 <= k < r@.len() ==> (#[trigger] r@[k]).state_idx < state_in@.len(),
{
    let ghost cv = crate::sim::interp::seqs_view(ch@);
    let mut out: Vec<DetectedArray> = Vec::new();
    let mut i: usize = 0;
    proof {
        assert(arrs_v(out@) =~= Seq::<DetectedV>::empty());
    }
    while i < state_in.len()
        invariant
            i <= state_in@.len(),
            next@.len() >= state_in@.len(),
            ch@.len() >= state_in@.len(),
            cv == crate::sim::interp::seqs_view(ch@),
            arrs_v(out@) == detect(graph@, state_in@, next@, cv, i as nat),
            forall|k: int| 0 <= k < out@.len() ==> (#[trigger] out@[k]).state_idx < state_in@.len(),
        decreases state_in@.len() - i,
    {
        let w = state_in[i];
        proof {
            assert(cv[i as int] == ch@[i as int]@);
        }
        match graph.wire_ty(w.index()) {
            Some(WireTy::Array { element_width, depth }) => {
                match find_shift_in(graph.instructions(), next[i]) {
                    Some(src) => {
                        let strategy = if *depth > CIRC_BUF_THRESHOLD {
                            ArrayStrategy::CircularBuffer
                        } else {
                            ArrayStrategy::ShiftRegister
                        };
                        let a = DetectedArray {
                            state_idx: i,
                            state_wire: w,
                            element_width: *element_width,
                            depth: *depth,
                            input_wire: src,
                            reset_bits: ch[i].clone(),
                            strategy,
                        };
                        let ghost before = out@;
                        out.push(a);
                        proof {
                            assert(arrs_v(out@) =~= arrs_v(before).push(a@));
                        }
                    },
                    None => {},
                }
            },
            _ => {},
        }
        i = i + 1;
    }
    out
}

fn ptr_name_of(w: WireId) -> (r: String)
    ensures
        r@ == ptr_name(wname(w)),
{
    let mut s = wire_name(w);
    s.append("_ptr");
    s
}

/// The declarations, pointer registers, update blocks, tail
/// assignments and tail outputs of detected arrays.
fn emit_array_stmts(graph: &HdlGraph, arrays: &Vec<DetectedArray>) -> (r: (Vec<Stmt>, Vec<Stmt>, Vec<Stmt>, Vec<Stmt>, Vec<WireId>))
    requires
        forall|k: int| 0 <= k < arrays@.len() ==> (#[trigger] arrays@[k])@.reset_bits.len() <= 128,
        forall|k: int| 0 <= k < arrays@.len() ==> (#[trigger] arrays@[k])@.depth >= 1,
    ensures
        stmts_v(r.0@) == array_decls(arrs_v(arrays@)),
        stmts_v(r.1@) == ptr_decls(arrs_v(arrays@)),
        stmts_v(r.2@) == array_blocks(arrs_v(arrays@)),
        stmts_v(r.3@) == tail_assigns(arrs_v(arrays@), graph@.instrs),
        r.4@ == tail_outputs(arrs_v(arrays@), graph@.instrs),
{
    let ghost av = arrs_v(arrays@);
    let mut decls: Vec<Stmt> = Vec::new();
    let mut ptrs: Vec<Stmt> = Vec::new();
    let mut blocks: Vec<Stmt> = Vec::new();
    let mut k: usize = 0;
    proof {
        assert(stmts_v(decls@) =~= array_decls(av.take(0)));
        assert(stmts_v(ptrs@) =~= ptr_decls(av.take(0)));
        assert(stmts_v(blocks@) =~= array_blocks(av.take(0)));
    }
    while k < arrays.len()
        invariant
            k <= arrays@.len(),
            av == arrs_v(arrays@),
            forall|j: int| 0 <= j < arrays@.len() ==> (#[trigger] arrays@[j])@.reset_bits.len() <= 128,
            stmts_v(decls@) == array_decls(av.take(k as int)),
            stmts_v(ptrs@) == ptr_decls(av.take(k as int)),
            stmts_v(blocks@) == array_blocks(av.take(k as int)),
        decreases arrays@.len() - k,
    {
        let a = &arrays[k];
        proof {
            assert(av[k as int] == a@);
            assert(av.take(k + 1).drop_last() =~= av.take(k as int));
            assert(av.take(k + 1).last() == a@);
            av.lemma_filter_map_take_succ(
                |a: DetectedV|
                    if a.circ {
                        Some(StmtV::RegDecl { name: ptr_name(wname(a.state_wire)), width: ptr_w(a.depth as nat) })
                    } else {
                        None
                    },
                k as int,
            );
        }
        let ghost d0 = decls@;
        let d = Stmt::RegArrayDecl { name: wire_name(a.state_wire), width: a.element_width, depth: a.depth };
        decls.push(d);
        proof {
            assert(stmts_v(decls@) =~= stmts_v(d0).push(d@));
            assert(array_decls(av.take(k + 1)) =~= array_decls(av.take(k as int)).push(d@));
        }
        let reset = lit_expr(a.element_width, &a.reset_bits);
        let input = wire_expr(a.input_wire);
        let ghost b0 = blocks@;
        let blk = match a.strategy {
            ArrayStrategy::ShiftRegister => Stmt::AlwaysArrayShift {
                clock: "clk".to_string(),
                reset: "rst".to_string(),
                array: wire_name(a.state_wire),
                depth: a.depth,
                width: a.element_width,
                reset_value: reset,
                input,
            },
            ArrayStrategy::CircularBuffer => {
                let ghost p0 = ptrs@;
                let pd = Stmt::RegDecl { name: ptr_name_of(a.state_wire), width: ptr_width(a.depth) };
                ptrs.push(pd);
                proof {
                    assert(stmts_v(ptrs@) =~= stmts_v(p0).push(pd@));
                }
                Stmt::AlwaysArrayCircBuf {
                    clock: "clk".to_string(),
                    reset: "rst".to_string(),
                    array: wire_name(a.state_wire),
                    depth: a.depth,
                    width: a.element_width,
                    ptr_name: ptr_name_of(a.state_wire),
                    ptr_width: ptr_width(a.depth),
                    reset_value: reset,
                    input,
                }
            },
        };
        blocks.push(blk);
        proof {
            assert(stmts_v(blocks@) =~= stmts_v(b0).push(blk@));
            assert(array_blocks(av.take(k + 1)) =~= array_blocks(av.take(k as int)).push(blk@));
        }
        k = k + 1;
    }
    proof {
        assert(av.take(k as int) =~= av);
    }
    let (tails, outs) = tail_stmts(graph, arrays);
    (decls, ptrs, blocks, tails, outs)
}

fn find_array(arrays: &Vec<DetectedArray>, w: WireId) -> (r: Option<usize>)
    ensures
        match array_of(arrs_v(arrays@), w) {
            Some(a) => r matches Some(k) && k < arrays@.len() && arrays@[k as int]@ == a,
            None => r is None,
        },
{
    let ghost av = arrs_v(arrays@);
    let mut k: usize = 0;
    proof {
        assert(av.skip(0) =~= av);
    }
    while k < arrays.len()
        invariant
            k <= arrays@.len(),
            av == arrs_v(arrays@),
            array_of(av, w) == array_of(av.skip(k as int), w),
        decreases arrays@.len() - k,
    {
        proof {
            assert(av.skip(k as int)[0] == arrays@[k as int]@);
        }
        if arrays[k].state_wire == w {
            return Some(k);
        }
        proof {
            assert(av.skip(k as int).drop_first() =~= av.skip(k + 1));
        }
        k = k + 1;
    }
    None
}

fn tail_stmts(graph: &HdlGraph, arrays: &Vec<DetectedArray>) -> (r: (Vec<Stmt>, Vec<WireId>))
    requires
        forall|k: int| 0 <= k < arrays@.len() ==> (#[trigger] arrays@[k])@.depth >= 1,
    ensures
        stmts_v(r.0@) == tail_assigns(arrs_v(arrays@), graph@.instrs),
        r.1@ == tail_outputs(arrs_v(arrays@), graph@.instrs),
{
    let ghost av = arrs_v(arrays@);
    let instrs = graph.instructions();
    let ghost iv = graph@.instrs;
    let mut tails: Vec<Stmt> = Vec::new();
    let mut outs: Vec<WireId> = Vec::new();
    let mut j: usize = 0;
    proof {
        assert(stmts_v(tails@) =~= tail_assigns(av, iv.take(0)));
        assert(outs@ =~= tail_outputs(av, iv.take(0)));
    }
    while j < instrs.len()
        invariant
            j <= instrs@.len(),
            av == arrs_v(arrays@),
            iv == graph@.instrs,
            instr_views(instrs@) == iv,
            instrs@.len() == iv.len(),
            forall|k: int| 0 <= k < arrays@.len() ==> (#[trigger] arrays@[k])@.depth >= 1,
            stmts_v(tails@) == tail_assigns(av, iv.take(j as int)),
            outs@ == tail_outputs(av, iv.take(j as int)),
        decreases instrs@.len() - j,
    {
        let instr = &instrs[j];
        proof {
            assert(iv[j as int] == instr@);
            iv.lemma_filter_map_take_succ(
                |i: InstrSpec|
                    match tail_array(av, i) {
                        Some(a) => Some(
                            StmtV::Assign { lhs: wname(i.output), rhs: array_tail(wname(a.state_wire), a.depth, a.circ) },
                        ),
                        None => None,
                    },
                j as int,
            );
            iv.lemma_filter_map_take_succ(
                |i: InstrSpec|
                    match tail_array(av, i) {
                        Some(a) => Some(i.output),
                        None => None,
                    },
                j as int,
            );
        }
        let is_tail = match instr.op() {
            Op::ArrayTail { .. } => true,
            _ => false,
        };
        let ins = instr.inputs();
        if is_tail && ins.len() > 0 {
            match find_array(arrays, ins[0]) {
                Some(k) => {
                    let a = &arrays[k];
                    let name = wire_name(a.state_wire);
                    let ghost nv = name@;
                    let rhs = match a.strategy {
                        ArrayStrategy::ShiftRegister => Expr::ArrayIndex { array: name, index: a.depth - 1 },
                        ArrayStrategy::CircularBuffer => {
                            let idx = Expr::Wire(ptr_name_of(a.state_wire));
                            proof {
                                assert(idx@ == ExprV::Wire(ptr_name(wname(a@.state_wire))));
                            }
                            Expr::ArrayDynIndex { array: name, index: Box::new(idx) }
                        },
                    };
                    proof {
                        assert(nv == wname(a@.state_wire));
                        assert(rhs@ == array_tail(nv, a@.depth, a@.circ));
                    }
                    let st = Stmt::Assign { lhs: wire_name(instr.output()), rhs };
                    let ghost t0 = tails@;
                    tails.push(st);
                    outs.push(instr.output());
                    proof {
                        assert(instr@.inputs == ins@);
                        assert(tail_array(av, iv[j as int]) == Some(arrays@[k as int]@));
                        assert(st@ == StmtV::Assign {
                            lhs: wname(iv[j as int].output),
                            rhs: array_tail(wname(arrays@[k as int]@.state_wire), arrays@[k as int]@.depth, arrays@[k as int]@.circ),
                        });
                        assert(stmts_v(tails@) =~= stmts_v(t0).push(st@));
                    }
                },
                None => {},
            }
        }
        j = j + 1;
    }
    proof {
        assert(iv.take(j as int) =~= iv);
    }
    (tails, outs)
}

/// What each detected array records: a state index below `n`, the
/// reset chunk at that index, and the depth of its array-typed wire.
pub proof fn lemma_detect_props(g: GraphSpec, state_in: Seq<WireId>, next: Seq<WireId>, ch: Seq<Seq<bool>>, n: nat)
    ensures
        forall|k: int|
            0 <= k < detect(g, state_in, next, ch, n).len() ==> {
                let a = #[trigger] detect(g, state_in, next, ch, n)[k];
                &&& a.state_idx < n
                &&& a.reset_bits == ch[a.state_idx as int]
                &&& a.state_wire == state_in[a.state_idx as int]
                &&& (a.state_wire.0 as nat) < g.wires.len()
                &&& g.wires[a.state_wire.0 as int] == (WireTy::Array { element_width: a.ew, depth: a.depth })
                &&& shift_in_source(g.instrs, next[a.state_idx as int]) is Some
            },
    decreases n,
{
    if n > 0 {
        lemma_detect_props(g, state_in, next, ch, (n - 1) as nat);
    }
}

/// The clocked module of a machine graph with array-typed state wires
/// detected and emitted as register arrays.
pub open spec fn sync_module_spec(g: GraphSpec, name: Seq<char>, sc: nat, ins: Seq<WireId>, outs: Seq<WireId>, init: Seq<bool>) -> ModuleV {
    let state_in = ins.take(sc as int);
    let data_in = ins.skip(sc as int);
    let next = outs.take(sc as int);
    let data_out = outs.skip(sc as int);
    let ch = chunks(init, widths_of(g, state_in));
    let arrs = detect(g, state_in, next, ch, state_in.len());
    let idxs = arrs.map_values(|a: DetectedV| a.state_idx);
    let sup = arrs.map_values(|a: DetectedV| next[a.state_idx as int]);
    ModuleV {
        name,
        ports: sync_ports(g, state_in, data_in, data_out),
        body: state_reg_decls(g, state_in, idxs, data_out) + ptr_decls(arrs) + array_decls(arrs) + wire_decls(
            g.wires,
            state_in + (data_in + data_out) + sup,
        ) + assigns(g, g.instrs, sup + tail_outputs(arrs, g.instrs)) + tail_assigns(arrs, g.instrs) + reg_blocks(
            g,
            state_in,
            next,
            ch,
            idxs,
        ) + array_blocks(arrs),
    }
}

/// What the clocked emitters need: the state wires split off both port
/// lists, `Const` values and state values within 128 bits, detected
/// arrays non-empty, the state width total within `usize`.
pub open spec fn sync_emittable(g: GraphSpec, sc: nat, ins: Seq<WireId>, outs: Seq<WireId>, init: Seq<bool>) -> bool {
    &&& sync_ports_ok(g, sc, ins, outs)
    &&& detected_nonempty(g, sc, ins, outs)
}

/// The state wires split off both port lists, `Const` values and state
/// values within 128 bits, the state width total within `usize`.
pub open spec fn sync_ports_ok(g: GraphSpec, sc: nat, ins: Seq<WireId>, outs: Seq<WireId>) -> bool {
    &&& sc <= ins.len()
    &&& sc <= outs.len()
    &&& consts_fit(g)
    &&& total(widths_of(g, ins.take(sc as int))) <= usize::MAX
    &&& forall|k: int| 0 <= k < sc ==> wire_width_in(g, #[trigger] ins[k]) <= 128
}

fn push_stmts(body: &mut Vec<Stmt>, more: Vec<Stmt>)
    ensures
        stmts_v(final(body)@) == stmts_v(old(body)@) + stmts_v(more@),
{
    let ghost b0 = body@;
    let mut m = more;
    body.append(&mut m);
    proof {
        assert(stmts_v(body@) =~= stmts_v(b0) + stmts_v(more@));
    }
}

/// The clocked module of a machine graph: `clk` and `rst` ports, the
/// data ports, a register per scalar state wire with a reset from the
/// initial state, register arrays (shift register or circular buffer)
/// for array-typed state wires, declarations and assignments for the
/// rest.  Fails with a width mismatch when the initial state's length
/// is not the state wires' total width.
pub fn build_sync_module(
    graph: &HdlGraph,
    name: &str,
    state_wire_count: usize,
    input_wires: &[WireId],
    output_wires: &[WireId],
    initial_state: &BitSeq,
) -> (r: Result<Module, Error>)
    requires
        sync_emittable(graph@, state_wire_count as nat, input_wires@, output_wires@, initial_state@),
    ensures
        ({
            let t = total(widths_of(graph@, input_wires@.take(state_wire_count as int)));
            &&& r is Ok <==> initial_state@.len() == t
            &&& r matches Ok(m) ==> m@ == sync_module_spec(
                graph@,
                name@,
                state_wire_count as nat,
                input_wires@,
                output_wires@,
                initial_state@,
            )
            &&& r matches Err(e) ==> e.is_width_mismatch(t, initial_state@.len())
        }),
{
    let sc = state_wire_count;
    let state_in = crate::sim::testbench::split_slice_head(input_wires, sc);
    let data_in = crate::sim::testbench::split_slice_tail(input_wires, sc);
    let next = crate::sim::testbench::split_slice_head(output_wires, sc);
    let data_out = crate::sim::testbench::split_slice_tail(output_wires, sc);
    let ws = crate::sim::testbench::widths(graph, state_in.as_slice());
    let t = crate::sim::testbench::total_of(&ws);
    if initial_state.len() != t {
        return Err(Error::width_mismatch(t, initial_state.len()));
    }
    let ch = match crate::sim::testbench::split_by_widths(initial_state, &ws) {
        Ok(c) => c,
        Err(_) => {
            proof {
                assert(false);
            }
            Vec::new()
        },
    };
    let ghost cv = crate::sim::interp::seqs_view(ch@);
    proof {
        assert(cv == chunks(initial_state@, widths_of(graph@, state_in@)));
        assert forall|k: int| 0 <= k < state_in@.len() implies (#[trigger] ch@[k])@.len() <= 128 by {
            assert(cv[k] == ch@[k]@);
            crate::sim::testbench::lemma_total_prefix(nats(ws@), k + 1);
            assert(nats(ws@).take(k + 1).drop_last() =~= nats(ws@).take(k));
            assert(nats(ws@)[k] == wire_width_in(graph@, state_in@[k]));
            assert(state_in@[k] == input_wires@[k]);
        }
    }
    let arrays = detect_arrays(graph, state_in.as_slice(), next.as_slice(), &ch);
    proof {
        lemma_detect_props(graph@, state_in@, next@, cv, state_in@.len());
        assert forall|k: int| 0 <= k < arrays@.len() implies (#[trigger] arrays@[k])@.reset_bits.len() <= 128
            && arrays@[k]@.depth >= 1 by {
            assert(arrs_v(arrays@)[k] == arrays@[k]@);
            let a = arrays@[k]@;
            assert(cv[a.state_idx as int] == ch@[a.state_idx as int]@);
            let i = a.state_idx as int;
            assert(state_in@[i] == input_wires@[i]);
            assert(next@[i] == output_wires@[i]);
            assert(!empty_detected(graph@, input_wires@[i], output_wires@[i]));
        }
    }
    let ghost av = arrs_v(arrays@);
    let mut idxs: Vec<usize> = Vec::new();
    let mut sup: Vec<WireId> = Vec::new();
    let mut k: usize = 0;
    while k < arrays.len()
        invariant
            k <= arrays@.len(),
            av == arrs_v(arrays@),
            next@.len() == state_in@.len(),
            forall|j: int| 0 <= j < arrays@.len() ==> (#[trigger] arrays@[j]).state_idx < state_in@.len(),
            nats(idxs@) == av.take(k as int).map_values(|a: DetectedV| a.state_idx),
            sup@ == av.take(k as int).map_values(|a: DetectedV| next@[a.state_idx as int]),
        decreases arrays@.len() - k,
    {
        let i = arrays[k].state_idx;
        let ghost pi = idxs@;
        let ghost ps = sup@;
        idxs.push(i);
        sup.push(next[i]);
        proof {
            assert(av[k as int] == arrays@[k as int]@);
            assert(nats(idxs@) =~= nats(pi).push(i as nat));
            assert(av.take(k + 1).map_values(|a: DetectedV| a.state_idx) =~= av.take(k as int).map_values(
                |a: DetectedV| a.state_idx,
            ).push(av[k as int].state_idx));
            assert(av.take(k + 1).map_values(|a: DetectedV| next@[a.state_idx as int]) =~= av.take(k as int).map_values(
                |a: DetectedV| next@[a.state_idx as int],
            ).push(next@[av[k as int].state_idx as int]));
            assert(nats(idxs@) =~= av.take(k + 1).map_values(|a: DetectedV| a.state_idx));
            assert(sup@ =~= av.take(k + 1).map_values(|a: DetectedV| next@[a.state_idx as int]));
        }
        k = k + 1;
    }
    proof {
        assert(av.take(k as int) =~= av);
    }
    let (arr_decls, arr_ptrs, arr_blocks, arr_tails, arr_tail_outs) = emit_array_stmts(graph, &arrays);
    let mut ports: Vec<Port> = Vec::new();
    proof {
        assert(ports_v(ports@) =~= Seq::<PortV>::empty());
    }
    push_sync_ports(&mut ports, graph, state_in.as_slice(), data_in.as_slice(), data_out.as_slice());
    let port_ids = concat_ids(data_in.as_slice(), data_out.as_slice());
    let skip0 = concat_ids(state_in.as_slice(), port_ids.as_slice());
    let decl_skip = concat_ids(skip0.as_slice(), sup.as_slice());
    let assign_skip = concat_ids(sup.as_slice(), arr_tail_outs.as_slice());
    let mut body: Vec<Stmt> = Vec::new();
    proof {
        assert(stmts_v(body@) =~= Seq::<StmtV>::empty());
    }
    push_state_reg_decls(&mut body, graph, state_in.as_slice(), idxs.as_slice(), data_out.as_slice());
    push_stmts(&mut body, arr_ptrs);
    push_stmts(&mut body, arr_decls);
    push_wire_decls(&mut body, graph, decl_skip.as_slice());
    push_assigns(&mut body, graph, assign_skip.as_slice());
    push_stmts(&mut body, arr_tails);
    push_reg_blocks(&mut body, graph, state_in.as_slice(), next.as_slice(), &ch, idxs.as_slice());
    push_stmts(&mut body, arr_blocks);
    proof {
        let spec = sync_module_spec(graph@, name@, sc as nat, input_wires@, output_wires@, initial_state@);
        assert(stmts_v(body@) =~= spec.body);
    }
    Ok(Module::new(name, ports, body))
}

/// The clocked module of a machine graph, as a suspended computation
/// yielding what [`build_sync_module`] returns.
pub fn emit_sync_graph(
    graph: &HdlGraph,
    name: &str,
    state_wire_count: usize,
    input_wires: &[WireId],
    output_wires: &[WireId],
    initial_state: &BitSeq,
) -> (r: Io<Error, Module>)
    requires
        sync_emittable(graph@, state_wire_count as nat, input_wires@, output_wires@, initial_state@),
    ensures
        ({
            let t = total(widths_of(graph@, input_wires@.take(state_wire_count as int)));
            &&& yielded_module(r) is Ok <==> initial_state@.len() == t
            &&& yielded_module(r) matches Ok(m) ==> m@ == sync_module_spec(
                graph@,
                name@,
                state_wire_count as nat,
                input_wires@,
                output_wires@,
                initial_state@,
            )
            &&& yielded_module(r) matches Err(e) ==> e.is_width_mismatch(t, initial_state@.len())
        }),
{
    deferred_module(build_sync_module(graph, name, state_wire_count, input_wires, output_wires, initial_state))
}

/// The mathematical content of a [`StateArraySpec`].
pub ghost struct ArraySpecV {
    pub name: Seq<char>,
    pub start: nat,
    pub depth: nat,
    pub width: u32,
    pub input_next_wire: WireId,
    pub reset_bits: Seq<bool>,
    pub circ: bool,
}

/// A run of state wires `start .. start + depth` to emit as one
/// register array named `name` of `width`-bit elements, fed each cycle
/// from `input_next_wire` and reset to `reset_bits`.
#[derive(Clone, Debug)]
pub struct StateArraySpec {
    name: String,
    start: usize,
    depth: usize,
    width: u32,
    input_next_wire: WireId,
    reset_bits: BitSeq,
    strategy: ArrayStrategy,
}

impl View for StateArraySpec {
    type V = ArraySpecV;

    closed spec fn view(&self) -> ArraySpecV {
        ArraySpecV {
            name: self.name@,
            start: self.start as nat,
            depth: self.depth as nat,
            width: self.width,
            input_next_wire: self.input_next_wire,
            reset_bits: self.reset_bits@,
            circ: self.strategy == ArrayStrategy::CircularBuffer,
        }
    }
}

impl StateArraySpec {
    /// A shift-register array description.
    pub fn new(name: &str, start: usize, depth: usize, width: u32, input_next_wire: WireId, reset_bits: BitSeq) -> (r: Self)
        ensures
            r@ == (ArraySpecV {
                name: name@,
                start: start as nat,
                depth: depth as nat,
                width,
                input_next_wire,
                reset_bits: reset_bits@,
                circ: false,
            }),
    {
        StateArraySpec {
            name: name.to_string(),
            start,
            depth,
            width,
            input_next_wire,
            reset_bits,
            strategy: ArrayStrategy::ShiftRegister,
        }
    }

    /// The same description with another strategy.
    pub fn with_strategy(self, strategy: ArrayStrategy) -> (r: Self)
        ensures
            r@ == (ArraySpecV { circ: strategy == ArrayStrategy::CircularBuffer, ..self@ }),
    {
        StateArraySpec { strategy, ..self }
    }

    /// The array's name.
    pub fn name(&self) -> (r: &str)
        ensures
            r@ == self@.name,
    {
        self.name.as_str()
    }

    /// The index of its first state wire.
    pub fn start(&self) -> (r: usize)
        ensures
            r == self@.start,
    {
        self.start
    }

    /// The number of elements.
    pub fn depth(&self) -> (r: usize)
        ensures
            r == self@.depth,
    {
        self.depth
    }

    /// The element width.
    pub fn width(&self) -> (r: u32)
        ensures
            r == self@.width,
    {
        self.width
    }

    /// The emission strategy.
    pub fn strategy(&self) -> (r: ArrayStrategy)
        ensures
            r == (if self@.circ { ArrayStrategy::CircularBuffer } else { ArrayStrategy::ShiftRegister }),
    {
        self.strategy
    }
}

/// The views of array descriptions.
pub open spec fn specs_v(s: Seq<StateArraySpec>) -> Seq<ArraySpecV> {
    s.map_values(|a: StateArraySpec| a@)
}

/// The state indices the arrays cover.
pub open spec fn covered(arrs: Seq<ArraySpecV>) -> Seq<nat>
    decreases arrs.len(),
{
    if arrs.len() == 0 {
        Seq::empty()
    } else {
        let a = arrs.last();
        covered(arrs.drop_last()) + Seq::new(a.depth, |i: int| (a.start + i) as nat)
    }
}

/// The next-state wires of array elements `1..depth`, which the array
/// block replaces.
pub open spec fn shifted_next(arrs: Seq<ArraySpecV>, next: Seq<WireId>) -> Seq<WireId>
    decreases arrs.len(),
{
    if arrs.len() == 0 {
        Seq::empty()
    } else {
        let a = arrs.last();
        shifted_next(arrs.drop_last(), next) + Seq::new((a.depth - 1) as nat, |i: int| next[a.start + 1 + i])
    }
}

/// The clocked module with the described state runs collapsed into
/// register arrays.
pub open spec fn arrays_module_spec(
    g: GraphSpec,
    name: Seq<char>,
    sc: nat,
    ins: Seq<WireId>,
    outs: Seq<WireId>,
    init: Seq<bool>,
    arrs: Seq<ArraySpecV>,
) -> ModuleV {
    let state_in = ins.take(sc as int);
    let data_in = ins.skip(sc as int);
    let next = outs.take(sc as int);
    let data_out = outs.skip(sc as int);
    let ch = chunks(init, widths_of(g, state_in));
    let idxs = covered(arrs);
    let skip = shifted_next(arrs, next);
    ModuleV {
        name,
        ports: sync_ports(g, state_in, data_in, data_out),
        body: state_reg_decls(g, state_in, idxs, data_out) + arrs.filter_map(
            |a: ArraySpecV|
                if a.circ {
                    Some(StmtV::RegDecl { name: ptr_name(a.name), width: ptr_w(a.depth) })
                } else {
                    None
                },
        ) + arrs.map_values(|a: ArraySpecV| StmtV::RegArrayDecl { name: a.name, width: a.width, depth: a.depth as usize })
            + wire_decls(g.wires, state_in + (data_in + data_out) + skip) + assigns(g, g.instrs, skip) + arrs.map_values(
            |a: ArraySpecV|
                StmtV::Assign {
                    lhs: wname(state_in[a.start + a.depth - 1]),
                    rhs: array_tail(a.name, a.depth as usize, a.circ),
                },
        ) + reg_blocks(g, state_in, next, ch, idxs) + arrs.map_values(
            |a: ArraySpecV| array_block(a.name, a.depth as usize, a.width, a.reset_bits, a.input_next_wire, a.circ),
        ),
    }
}

/// Every described run is non-empty, lies within the state wires, and
/// has a reset value within 128 bits.
pub open spec fn arrays_fit(arrs: Seq<ArraySpecV>, sc: nat) -> bool {
    forall|k: int|
        0 <= k < arrs.len() ==> {
            let a = #[trigger] arrs[k];
            &&& a.depth >= 1
            &&& a.start + a.depth <= sc
            &&& a.reset_bits.len() <= 128
        }
}

/// The clocked module of a machine graph with the described runs of
/// state wires emitted as register arrays and every other state wire as
/// its own register.  Fails with a width mismatch when the initial
/// state's length is not the state wires' total width.
pub fn build_sync_module_with_arrays(
    graph: &HdlGraph,
    name: &str,
    state_wire_count: usize,
    input_wires: &[WireId],
    output_wires: &[WireId],
    initial_state: &BitSeq,
    arrays: &[StateArraySpec],
) -> (r: Result<Module, Error>)
    requires
        sync_ports_ok(graph@, state_wire_count as nat, input_wires@, output_wires@),
        arrays_fit(specs_v(arrays@), state_wire_count as nat),
    ensures
        ({
            let t = total(widths_of(graph@, input_wires@.take(state_wire_count as int)));
            &&& r is Ok <==> initial_state@.len() == t
            &&& r matches Ok(m) ==> m@ == arrays_module_spec(
                graph@,
                name@,
                state_wire_count as nat,
                input_wires@,
                output_wires@,
                initial_state@,
                specs_v(arrays@),
            )
            &&& r matches Err(e) ==> e.is_width_mismatch(t, initial_state@.len())
        }),
{
    let sc = state_wire_count;
    let ghost av = specs_v(arrays@);
    let state_in = crate::sim::testbench::split_slice_head(input_wires, sc);
    let data_in = crate::sim::testbench::split_slice_tail(input_wires, sc);
    let next = crate::sim::testbench::split_slice_head(output_wires, sc);
    let data_out = crate::sim::testbench::split_slice_tail(output_wires, sc);
    let ws = crate::sim::testbench::widths(graph, state_in.as_slice());
    let t = crate::sim::testbench::total_of(&ws);
    if initial_state.len() != t {
        return Err(Error::width_mismatch(t, initial_state.len()));
    }
    let ch = match crate::sim::testbench::split_by_widths(initial_state, &ws) {
        Ok(c) => c,
        Err(_) => {
            proof {
                assert(false);
            }
            Vec::new()
        },
    };
    let ghost cv = crate::sim::interp::seqs_view(ch@);
    proof {
        assert(cv == chunks(initial_state@, widths_of(graph@, state_in@)));
        assert forall|k: int| 0 <= k < state_in@.len() implies (#[trigger] ch@[k])@.len() <= 128 by {
            assert(cv[k] == ch@[k]@);
            crate::sim::testbench::lemma_total_prefix(nats(ws@), k + 1);
            assert(nats(ws@).take(k + 1).drop_last() =~= nats(ws@).take(k));
            assert(nats(ws@)[k] == wire_width_in(graph@, state_in@[k]));
            assert(state_in@[k] == input_wires@[k]);
        }
    }
    let mut idxs: Vec<usize> = Vec::new();
    let mut skip: Vec<WireId> = Vec::new();
    let mut ptrs: Vec<Stmt> = Vec::new();
    let mut decls: Vec<Stmt> = Vec::new();
    let mut tails: Vec<Stmt> = Vec::new();
    let mut blocks: Vec<Stmt> = Vec::new();
    let ghost fp = |a: ArraySpecV|
        if a.circ {
            Some(StmtV::RegDecl { name: ptr_name(a.name), width: ptr_w(a.depth) })
        } else {
            None
        };
    let ghost fd = |a: ArraySpecV| StmtV::RegArrayDecl { name: a.name, width: a.width, depth: a.depth as usize };
    let ghost ft = |a: ArraySpecV|
        StmtV::Assign { lhs: wname(state_in@[a.start + a.depth - 1]), rhs: array_tail(a.name, a.depth as usize, a.circ) };
    let ghost fb = |a: ArraySpecV| array_block(a.name, a.depth as usize, a.width, a.reset_bits, a.input_next_wire, a.circ);
    let mut k: usize = 0;
    proof {
        assert(nats(idxs@) =~= covered(av.take(0)));
        assert(skip@ =~= shifted_next(av.take(0), next@));
        assert(stmts_v(ptrs@) =~= av.take(0).filter_map(fp));
        assert(stmts_v(decls@) =~= av.take(0).map_values(fd));
        assert(stmts_v(tails@) =~= av.take(0).map_values(ft));
        assert(stmts_v(blocks@) =~= av.take(0).map_values(fb));
    }
    while k < arrays.len()
        invariant
            k <= arrays@.len(),
            av == specs_v(arrays@),
            arrays_fit(av, sc as nat),
            state_in@.len() == sc,
            next@.len() == sc,
            fp == (|a: ArraySpecV|
                if a.circ {
                    Some(StmtV::RegDecl { name: ptr_name(a.name), width: ptr_w(a.depth) })
                } else {
                    None
                }),
            fd == (|a: ArraySpecV| StmtV::RegArrayDecl { name: a.name, width: a.width, depth: a.depth as usize }),
            ft == (|a: ArraySpecV|
                StmtV::Assign {
                    lhs: wname(state_in@[a.start + a.depth - 1]),
                    rhs: array_tail(a.name, a.depth as usize, a.circ),
                }),
            fb == (|a: ArraySpecV| array_block(a.name, a.depth as usize, a.width, a.reset_bits, a.input_next_wire, a.circ)),
            nats(idxs@) == covered(av.take(k as int)),
            skip@ == shifted_next(av.take(k as int), next@),
            stmts_v(ptrs@) == av.take(k as int).filter_map(fp),
            stmts_v(decls@) == av.take(k as int).map_values(fd),
            stmts_v(tails@) == av.take(k as int).map_values(ft),
            stmts_v(blocks@) == av.take(k as int).map_values(fb),
        decreases arrays@.len() - k,
    {
        let a = &arrays[k];
        proof {
            assert(av[k as int] == a@);
            assert(av.take(k + 1).drop_last() =~= av.take(k as int));
            assert(av.take(k + 1).last() == a@);
            av.lemma_filter_map_take_succ(fp, k as int);
            assert(a@.depth >= 1 && a@.start + a@.depth <= sc && a@.reset_bits.len() <= 128);
        }
        let ghost i0 = idxs@;
        let mut i: usize = 0;
        while i < a.depth
            invariant
                i <= a.depth,
                a.start + a.depth <= sc,
                nats(idxs@) == nats(i0) + Seq::new(i as nat, |j: int| (a@.start + j) as nat),
            decreases a.depth - i,
        {
            let ghost before = idxs@;
            idxs.push(a.start + i);
            proof {
                assert(nats(idxs@) =~= nats(before).push((a.start + i) as nat));
                assert(nats(i0) + Seq::new((i + 1) as nat, |j: int| (a@.start + j) as nat) =~= nats(i0) + Seq::new(
                    i as nat,
                    |j: int| (a@.start + j) as nat,
                ).push((a.start + i) as nat));
            }
            i = i + 1;
        }
        let ghost s0 = skip@;
        let mut i2: usize = 1;
        while i2 < a.depth
            invariant
                1 <= i2 <= a.depth,
                a.start + a.depth <= sc,
                next@.len() == sc,
                skip@ == s0 + Seq::new((i2 - 1) as nat, |j: int| next@[a@.start + 1 + j]),
            decreases a.depth - i2,
        {
            let ghost before = skip@;
            skip.push(next[a.start + i2]);
            proof {
                assert(skip@ =~= s0 + Seq::new(i2 as nat, |j: int| next@[a@.start + 1 + j]));
            }
            i2 = i2 + 1;
        }
        let d = Stmt::RegArrayDecl { name: a.name.clone(), width: a.width, depth: a.depth };
        let ghost d0 = decls@;
        decls.push(d);
        let reset = lit_expr(a.width, &a.reset_bits);
        let input = wire_expr(a.input_next_wire);
        let tail_wire = state_in[a.start + a.depth - 1];
        let ghost b0 = blocks@;
        let ghost t0 = tails@;
        let (blk, rhs) = match a.strategy {
            ArrayStrategy::ShiftRegister => (
                Stmt::AlwaysArrayShift {
                    clock: "clk".to_string(),
                    reset: "rst".to_string(),
                    array: a.name.clone(),
                    depth: a.depth,
                    width: a.width,
                    reset_value: reset,
                    input,
                },
                Expr::ArrayIndex { array: a.name.clone(), index: a.depth - 1 },
            ),
            ArrayStrategy::CircularBuffer => {
                let mut pn = a.name.clone();
                pn.append("_ptr");
                let ghost p0 = ptrs@;
                let pd = Stmt::RegDecl { name: pn.clone(), width: ptr_width(a.depth) };
                ptrs.push(pd);
                proof {
                    assert(stmts_v(ptrs@) =~= stmts_v(p0).push(pd@));
                }
                let idx = Expr::Wire(pn.clone());
                proof {
                    assert(idx@ == ExprV::Wire(ptr_name(a@.name)));
                }
                (
                    Stmt::AlwaysArrayCircBuf {
                        clock: "clk".to_string(),
                        reset: "rst".to_string(),
                        array: a.name.clone(),
                        depth: a.depth,
                        width: a.width,
                        ptr_name: pn,
                        ptr_width: ptr_width(a.depth),
                        reset_value: reset,
                        input,
                    },
                    Expr::ArrayDynIndex { array: a.name.clone(), index: Box::new(idx) },
                )
            },
        };
        blocks.push(blk);
        let tl = Stmt::Assign { lhs: wire_name(tail_wire), rhs };
        tails.push(tl);
        proof {
            assert(stmts_v(decls@) =~= stmts_v(d0).push(d@));
            assert(av.take(k + 1).map_values(fd) =~= av.take(k as int).map_values(fd).push(fd(a@)));
            assert(stmts_v(blocks@) =~= stmts_v(b0).push(blk@));
            assert(av.take(k + 1).map_values(fb) =~= av.take(k as int).map_values(fb).push(fb(a@)));
            assert(stmts_v(tails@) =~= stmts_v(t0).push(tl@));
            assert(av.take(k + 1).map_values(ft) =~= av.take(k as int).map_values(ft).push(ft(a@)));
        }
        k = k + 1;
    }
    proof {
        assert(av.take(k as int) =~= av);
    }
    let mut ports: Vec<Port> = Vec::new();
    proof {
        assert(ports_v(ports@) =~= Seq::<PortV>::empty());
    }
    push_sync_ports(&mut ports, graph, state_in.as_slice(), data_in.as_slice(), data_out.as_slice());
    let port_ids = concat_ids(data_in.as_slice(), data_out.as_slice());
    let skip0 = concat_ids(state_in.as_slice(), port_ids.as_slice());
    let decl_skip = concat_ids(skip0.as_slice(), skip.as_slice());
    let mut body: Vec<Stmt> = Vec::new();
    proof {
        assert(stmts_v(body@) =~= Seq::<StmtV>::empty());
    }
    push_state_reg_decls(&mut body, graph, state_in.as_slice(), idxs.as_slice(), data_out.as_slice());
    push_stmts(&mut body, ptrs);
    push_stmts(&mut body, decls);
    push_wire_decls(&mut body, graph, decl_skip.as_slice());
    push_assigns(&mut body, graph, skip.as_slice());
    push_stmts(&mut body, tails);
    push_reg_blocks(&mut body, graph, state_in.as_slice(), next.as_slice(), &ch, idxs.as_slice());
    push_stmts(&mut body, blocks);
    proof {
        let spec = arrays_module_spec(graph@, name@, sc as nat, input_wires@, output_wires@, initial_state@, av);
        assert(stmts_v(body@) =~= spec.body);
    }
    Ok(Module::new(name, ports, body))
}

/// The clocked module with register arrays, as a suspended computation
/// yielding what [`build_sync_module_with_arrays`] returns.
pub fn emit_sync_graph_with_arrays(
    graph: &HdlGraph,
    name: &str,
    state_wire_count: usize,
    input_wires: &[WireId],
    output_wires: &[WireId],
    initial_state: &BitSeq,
    arrays: &[StateArraySpec],
) -> (r: Io<Error, Module>)
    requires
        sync_ports_ok(graph@, state_wire_count as nat, input_wires@, output_wires@),
        arrays_fit(specs_v(arrays@), state_wire_count as nat),
    ensures
        ({
            let t = total(widths_of(graph@, input_wires@.take(state_wire_count as int)));
            &&& yielded_module(r) is Ok <==> initial_state@.len() == t
            &&& yielded_module(r) matches Ok(m) ==> m@ == arrays_module_spec(
                graph@,
                name@,
                state_wire_count as nat,
                input_wires@,
                output_wires@,
                initial_state@,
                specs_v(arrays@),
            )
            &&& yielded_module(r) matches Err(e) ==> e.is_width_mismatch(t, initial_state@.len())
        }),
{
    deferred_module(build_sync_module_with_arrays(graph, name, state_wire_count, input_wires, output_wires, initial_state, arrays))
}

/// Whether every `Const` of `graph` holds at most 128 bits (see
/// [`consts_fit`]), as the emitters ask.
pub fn consts_checked(graph: &HdlGraph) -> (r: bool)
    ensures
        r == consts_fit(graph@),
{
    let instrs = graph.instructions();
    let mut j: usize = 0;
    while j < instrs.len()
        invariant
            j <= instrs@.len(),
            instrs@.len() == graph@.instrs.len(),
            instr_views(instrs@) == graph@.instrs,
            forall|k: int|
                0 <= k < j ==> match #[trigger] graph@.instrs[k].op {
                    OpSpec::Const { bits, ty } => bits.len() <= 128,
                    _ => true,
                },
        decreases instrs@.len() - j,
    {
        proof {
            assert(graph@.instrs[j as int] == instrs@[j as int]@);
        }
        if let Op::Const { bits, ty: _ } = instrs[j].op() {
            if bits.len() > 128 {
                return false;
            }
        }
        j = j + 1;
    }
    true
}

/// Whether every array detected among the first `sc` state wires has
/// depth at least one (see [`detected_nonempty`]).
fn detected_checked(graph: &HdlGraph, sc: usize, ins: &[WireId], outs: &[WireId]) -> (r: bool)
    requires
        sc <= ins@.len(),
        sc <= outs@.len(),
    ensures
        r == detected_nonempty(graph@, sc as nat, ins@, outs@),
{
    let mut k: usize = 0;
    while k < sc
        invariant
            k <= sc,
            sc <= ins@.len(),
            sc <= outs@.len(),
            forall|i: int| 0 <= i < k ==> !#[trigger] empty_detected(graph@, ins@[i], outs@[i]),
        decreases sc - k,
    {
        let w = ins[k];
        if let Some(WireTy::Array { element_width: _, depth }) = graph.wire_ty(w.index()) {
            if *depth == 0 {
                if find_shift_in(graph.instructions(), outs[k]).is_some() {
                    proof {
                        assert(empty_detected(graph@, ins@[k as int], outs@[k as int]));
                    }
                    return false;
                }
            }
        }
        k = k + 1;
    }
    true
}

/// Whether [`emit_sync_graph`] accepts these arguments (see
/// [`sync_emittable`]): the state wires split off both port lists,
/// every `Const` within 128 bits, each state wire at most 128 bits wide
/// and their widths summing within a `usize`, and no detected array
/// empty.
pub fn is_sync_emittable(
    graph: &HdlGraph,
    state_wire_count: usize,
    input_wires: &[WireId],
    output_wires: &[WireId],
    initial_state: &BitSeq,
) -> (r: bool)
    ensures
        r == sync_emittable(graph@, state_wire_count as nat, input_wires@, output_wires@, initial_state@),
{
    let sc = state_wire_count;
    if sc > input_wires.len() || sc > output_wires.len() {
        return false;
    }
    if !consts_checked(graph) || !detected_checked(graph, sc, input_wires, output_wires) {
        return false;
    }
    let state_ins = split_slice_head(input_wires, sc);
    let ws = widths(graph, state_ins.as_slice());
    if checked_total(&ws).is_none() {
        return false;
    }
    let ghost wv = widths_of(graph@, input_wires@.take(sc as int));
    let mut k: usize = 0;
    while k < ws.len()
        invariant
            k <= ws@.len(),
            ws@.len() == sc,
            sc == state_wire_count,
            sc <= input_wires@.len(),
            nats(ws@) == wv,
            wv == widths_of(graph@, input_wires@.take(sc as int)),
            forall|i: int| 0 <= i < k ==> wire_width_in(graph@, #[trigger] input_wires@[i]) <= 128,
        decreases ws@.len() - k,
    {
        proof {
            assert(nats(ws@)[k as int] == ws@[k as int] as nat);
            assert(wv[k as int] == wire_width_in(graph@, input_wires@[k as int]));
        }
        if ws[k] > 128 {
            proof {
                assert(!(wire_width_in(graph@, input_wires@[k as int]) <= 128));
                assert(!sync_ports_ok(graph@, sc as nat, input_wires@, output_wires@));
            }
            return false;
        }
        k = k + 1;
    }
    true
}

} // verus!
