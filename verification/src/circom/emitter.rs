//! Convert an IR graph to a Circom [`Template`]: combinational and
//! bit-level, either as one template or time-unrolled over the cycles
//! of a Mealy machine.

use vstd::prelude::*;

use comp_cat_rs::effect::io::Io;

use crate::bit_seq::BitSeq;
use crate::circom::ast::{
    Expr, ExprV, Field, Signal, SignalDir, SignalV, Stmt, StmtV, Template, TemplateV, signals_v, stmts_v, strings_v,
};
use crate::circom::lower::{
    LoweredV, Lowered, circom_ready, cname, constraints_seq, copy_seq, cwidth, graph_width, lower_from, lower_into,
    no_reg, push_constraints, push_copy, reg_message, storage_fits, u32_count, assign_v, bit_v, wire_label,
};
use crate::deferred::{deferred_template, yielded_template};
use crate::error::{Error, SignalName, saturating_u32};
use crate::ir::graph::{GraphSpec, HdlGraph};
use crate::ir::wire::{WireId, WireTy, ty_storage, ty_width};
use crate::verilog::emitter::wire_in;
use crate::sim::testbench::{chunks, expand, lemma_total_prefix, repeat, total, widths_of};
use crate::sync::compose::wire_width_in;

verus! {

/// One port signal per wire, all with direction `dir`.
pub open spec fn port_sigs(g: GraphSpec, ws: Seq<WireId>, dir: SignalDir, ctx: Option<usize>) -> Seq<SignalV> {
    ws.map_values(|w: WireId| SignalV { name: cname(w, ctx), dir, width: cwidth(g, w) })
}

/// One intermediate signal per wire of `ws` (the first wires of the
/// graph) whose id is not in `skip`.
pub open spec fn inter_sigs(ws: Seq<WireTy>, skip: Seq<WireId>, ctx: Option<usize>) -> Seq<SignalV>
    decreases ws.len(),
{
    if ws.len() == 0 {
        Seq::empty()
    } else {
        let w = WireId((ws.len() - 1) as usize);
        let rest = inter_sigs(ws.drop_last(), skip, ctx);
        if skip.contains(w) {
            rest
        } else {
            rest.push(
                SignalV { name: cname(w, ctx), dir: SignalDir::Intermediate, width: saturating_u32(ty_storage(ws.last())) },
            )
        }
    }
}

/// Boolean constraints on every bit of every wire of `ws`.
pub open spec fn input_constraints(g: GraphSpec, ws: Seq<WireId>, ctx: Option<usize>) -> Seq<StmtV>
    decreases ws.len(),
{
    if ws.len() == 0 {
        Seq::empty()
    } else {
        input_constraints(g, ws.drop_last(), ctx) + constraints_seq(ws.last(), cwidth(g, ws.last()), ctx)
    }
}

/// Every public wire is an input.
pub open spec fn publics_ok(ins: Seq<WireId>, pubs: Seq<WireId>) -> bool {
    forall|k: int| 0 <= k < pubs.len() ==> ins.contains(#[trigger] pubs[k])
}

/// The first public wire that is not an input.
pub open spec fn first_missing(ins: Seq<WireId>, pubs: Seq<WireId>) -> WireId
    decreases pubs.len(),
{
    if pubs.len() == 0 {
        WireId(0)
    } else if !ins.contains(pubs[0]) {
        pubs[0]
    } else {
        first_missing(ins, pubs.drop_first())
    }
}

/// The name of the error for a public wire that is not an input.
pub open spec fn public_message(w: WireId) -> Seq<char> {
    "public input "@ + cname(w, None) + " not in input list"@
}

/// Nothing lowered.
pub open spec fn no_lowering() -> LoweredV {
    LoweredV { stmts: Seq::empty(), includes: Seq::empty() }
}

/// The combinational template of a graph: input and output ports, an
/// intermediate per other wire, boolean constraints on the inputs, the
/// lowering of every instruction, and the public input names.
pub open spec fn template_v(g: GraphSpec, name: Seq<char>, ins: Seq<WireId>, outs: Seq<WireId>, pubs: Seq<WireId>) -> TemplateV {
    let l = lower_from(g, no_lowering(), g.instrs, None);
    TemplateV {
        field: Field::Bn254,
        name,
        includes: l.includes,
        ports: port_sigs(g, ins, SignalDir::Input, None) + port_sigs(g, outs, SignalDir::Output, None),
        intermediates: inter_sigs(g.wires, ins + outs, None),
        body: input_constraints(g, ins, None) + l.stmts,
        public_inputs: pubs.map_values(|w: WireId| cname(w, None)),
    }
}

/// Port signals of `ws` for each of `n` cycles.
pub open spec fn cycle_ports(g: GraphSpec, ws: Seq<WireId>, dir: SignalDir, n: nat) -> Seq<SignalV>
    decreases n,
{
    if n == 0 {
        Seq::empty()
    } else {
        cycle_ports(g, ws, dir, (n - 1) as nat) + port_sigs(g, ws, dir, Some((n - 1) as usize))
    }
}

/// Intermediate signals for each of `n` cycles.
pub open spec fn cycle_inters(g: GraphSpec, skip: Seq<WireId>, n: nat) -> Seq<SignalV>
    decreases n,
{
    if n == 0 {
        Seq::empty()
    } else {
        cycle_inters(g, skip, (n - 1) as nat) + inter_sigs(g.wires, skip, Some((n - 1) as usize))
    }
}

/// Boolean constraints on the data inputs of each of `n` cycles.
pub open spec fn cycle_constraints(g: GraphSpec, ws: Seq<WireId>, n: nat) -> Seq<StmtV>
    decreases n,
{
    if n == 0 {
        Seq::empty()
    } else {
        cycle_constraints(g, ws, (n - 1) as nat) + input_constraints(g, ws, Some((n - 1) as usize))
    }
}

/// The lowering of every instruction, cycle after cycle.
pub open spec fn lower_cycles(g: GraphSpec, n: nat) -> LoweredV
    decreases n,
{
    if n == 0 {
        no_lowering()
    } else {
        lower_from(g, lower_cycles(g, (n - 1) as nat), g.instrs, Some((n - 1) as usize))
    }
}

/// The element width of wire `w` (0 when undeclared).
pub open spec fn elem_width(g: GraphSpec, w: WireId) -> u32 {
    if (w.0 as nat) < g.wires.len() {
        ty_width(g.wires[w.0 as int])
    } else {
        0
    }
}

/// The storage bits of wire `w` (0 when undeclared).
pub open spec fn storage(g: GraphSpec, w: WireId) -> nat {
    if (w.0 as nat) < g.wires.len() {
        ty_storage(g.wires[w.0 as int])
    } else {
        0
    }
}

/// The sum of the element widths of `ws`.
pub open spec fn elem_width_sum(g: GraphSpec, ws: Seq<WireId>) -> nat
    decreases ws.len(),
{
    if ws.len() == 0 {
        0
    } else {
        elem_width_sum(g, ws.drop_last()) + elem_width(g, ws.last()) as nat
    }
}

/// Bit `i` of `bits`, or `false` past its end.
pub open spec fn bit_or_false(bits: Seq<bool>, i: nat) -> bool {
    if i < bits.len() {
        bits[i as int]
    } else {
        false
    }
}

/// The cycle-0 assignments of a state wire with `storage` bits and
/// element width `ew`, read from the compact initial state at `off`:
/// the element slice repeats across the storage.
pub open spec fn wire_init(w: WireId, off: nat, storage: nat, ew: u32, bits: Seq<bool>) -> Seq<StmtV> {
    let m: nat = if ew >= 1 {
        ew as nat
    } else {
        1
    };
    Seq::new(
        u32_count(storage),
        |p: int| assign_v(w, Some(0), p as u32, ExprV::BitLiteral(bit_or_false(bits, off + (p as nat) % m))),
    )
}

/// The cycle-0 assignments of every state wire, the compact initial
/// state holding one element slice per wire in order.
pub open spec fn init_assigns(g: GraphSpec, st: Seq<WireId>, bits: Seq<bool>) -> Seq<StmtV>
    decreases st.len(),
{
    if st.len() == 0 {
        Seq::empty()
    } else {
        init_assigns(g, st.drop_last(), bits) + wire_init(
            st.last(),
            elem_width_sum(g, st.drop_last()),
            storage(g, st.last()),
            elem_width(g, st.last()),
            bits,
        )
    }
}

/// In cycle `k`, each state wire copies the previous cycle's next
/// state, bit by bit.
pub open spec fn plumb_cycle(g: GraphSpec, st: Seq<WireId>, ns: Seq<WireId>, k: usize) -> Seq<StmtV>
    decreases st.len(),
{
    if st.len() == 0 {
        Seq::empty()
    } else {
        plumb_cycle(g, st.drop_last(), ns, k) + copy_seq(
            st.last(),
            Some(k),
            0,
            ns[st.len() - 1],
            Some((k - 1) as usize),
            0,
            cwidth(g, st.last()),
        )
    }
}

/// The state plumbing of cycles `1..n`.
pub open spec fn plumbing(g: GraphSpec, st: Seq<WireId>, ns: Seq<WireId>, n: nat) -> Seq<StmtV>
    decreases n,
{
    if n <= 1 {
        Seq::empty()
    } else {
        plumbing(g, st, ns, (n - 1) as nat) + plumb_cycle(g, st, ns, (n - 1) as usize)
    }
}

/// The time-unrolled template of a machine's combinational graph:
/// `n` renamed copies of the graph, cycle-0 state from the initial
/// value, each later cycle's state from the previous next state.
pub open spec fn unrolled_v(
    g: GraphSpec,
    name: Seq<char>,
    ins: Seq<WireId>,
    outs: Seq<WireId>,
    s: nat,
    bits: Seq<bool>,
    n: nat,
) -> TemplateV {
    let st = ins.take(s as int);
    let di = ins.skip(s as int);
    let ns = outs.take(s as int);
    let dout = outs.skip(s as int);
    let l = lower_cycles(g, n);
    TemplateV {
        field: Field::Bn254,
        name,
        includes: l.includes,
        ports: cycle_ports(g, di, SignalDir::Input, n) + cycle_ports(g, dout, SignalDir::Output, n),
        intermediates: cycle_inters(g, di + dout, n),
        body: init_assigns(g, st, bits) + plumbing(g, st, ns, n) + cycle_constraints(g, di, n) + l.stmts,
        public_inputs: Seq::empty(),
    }
}

/// The message for a state count beyond the input list.
pub open spec fn inputs_message() -> Seq<char> {
    "state_wire_count exceeds input_wires length"@
}

/// The message for a state count beyond the output list.
pub open spec fn outputs_message() -> Seq<char> {
    "state_wire_count exceeds output_wires length"@
}

/// The message for an unrolling of zero cycles.
pub open spec fn cycles_message() -> Seq<char> {
    "unrolled template requires at least one cycle"@
}

proof fn lemma_first_missing(ins: Seq<WireId>, pubs: Seq<WireId>, k: int)
    requires
        0 <= k < pubs.len(),
        forall|j: int| 0 <= j < k ==> ins.contains(#[trigger] pubs[j]),
        !ins.contains(pubs[k]),
    ensures
        first_missing(ins, pubs) == pubs[k],
    decreases k,
{
    if k > 0 {
        assert(ins.contains(pubs[0]));
        let t = pubs.drop_first();
        assert forall|j: int| 0 <= j < k - 1 implies ins.contains(#[trigger] t[j]) by {
            assert(t[j] == pubs[j + 1]);
        }
        lemma_first_missing(ins, t, k - 1);
    }
}

/// Append one port signal per wire of `ws`.
fn push_port_sigs(v: &mut Vec<Signal>, graph: &HdlGraph, ws: &[WireId], dir: SignalDir, ctx: Option<usize>)
    requires
        storage_fits(graph@),
    ensures
        signals_v(final(v)@) == signals_v(old(v)@) + port_sigs(graph@, ws@, dir, ctx),
{
    let ghost start = signals_v(v@);
    let mut i: usize = 0;
    while i < ws.len()
        invariant
            i <= ws@.len(),
            storage_fits(graph@),
            signals_v(v@) == start + port_sigs(graph@, ws@.take(i as int), dir, ctx),
        decreases ws@.len() - i,
    {
        let ghost before = v@;
        let sig = Signal::from_string(wire_label(ws[i], ctx), dir, graph_width(graph, ws[i]));
        v.push(sig);
        proof {
            assert(signals_v(v@) =~= signals_v(before).push(sig@));
            assert(port_sigs(graph@, ws@.take(i + 1), dir, ctx) =~= port_sigs(graph@, ws@.take(i as int), dir, ctx).push(
                sig@,
            ));
        }
        i = i + 1;
    }
    proof {
        assert(ws@.take(i as int) =~= ws@);
    }
}

/// Append an intermediate signal per graph wire not in `skip`.
fn push_inter_sigs(v: &mut Vec<Signal>, graph: &HdlGraph, skip: &[WireId], ctx: Option<usize>)
    requires
        storage_fits(graph@),
    ensures
        signals_v(final(v)@) == signals_v(old(v)@) + inter_sigs(graph@.wires, skip@, ctx),
{
    let ws = graph.wires();
    let ghost start = signals_v(v@);
    let mut i: usize = 0;
    proof {
        assert(ws@.take(0) =~= Seq::<WireTy>::empty());
    }
    while i < ws.len()
        invariant
            i <= ws@.len(),
            ws@ == graph@.wires,
            storage_fits(graph@),
            signals_v(v@) == start + inter_sigs(ws@.take(i as int), skip@, ctx),
        decreases ws@.len() - i,
    {
        proof {
            assert(ws@.take(i + 1).drop_last() =~= ws@.take(i as int));
            assert(ws@.take(i + 1).last() == ws@[i as int]);
            assert(ty_storage(graph@.wires[i as int]) <= usize::MAX);
        }
        let w = WireId::new(i);
        if !wire_in(skip, w) {
            let ghost before = v@;
            let n = ws[i].storage_bits();
            let width: u32 = if n <= u32::MAX as usize { n as u32 } else { u32::MAX };
            let sig = Signal::from_string(wire_label(w, ctx), SignalDir::Intermediate, width);
            v.push(sig);
            proof {
                assert(signals_v(v@) =~= signals_v(before).push(sig@));
            }
        }
        i = i + 1;
    }
    proof {
        assert(ws@.take(i as int) =~= ws@);
    }
}

/// Append boolean constraints on every bit of every wire of `ws`.
fn push_input_constraints(v: &mut Vec<Stmt>, graph: &HdlGraph, ws: &[WireId], ctx: Option<usize>)
    requires
        storage_fits(graph@),
    ensures
        stmts_v(final(v)@) == stmts_v(old(v)@) + input_constraints(graph@, ws@, ctx),
{
    let ghost start = stmts_v(v@);
    let mut i: usize = 0;
    proof {
        assert(ws@.take(0) =~= Seq::<WireId>::empty());
    }
    while i < ws.len()
        invariant
            i <= ws@.len(),
            storage_fits(graph@),
            stmts_v(v@) == start + input_constraints(graph@, ws@.take(i as int), ctx),
        decreases ws@.len() - i,
    {
        proof {
            assert(ws@.take(i + 1).drop_last() =~= ws@.take(i as int));
            assert(ws@.take(i + 1).last() == ws@[i as int]);
        }
        let ghost before = stmts_v(v@);
        push_constraints(v, ws[i], graph_width(graph, ws[i]), ctx);
        proof {
            assert(stmts_v(v@) =~= start + input_constraints(graph@, ws@.take(i + 1), ctx));
        }
        i = i + 1;
    }
    proof {
        assert(ws@.take(i as int) =~= ws@);
    }
}

/// The names of the public inputs, or the error for the first public
/// wire that is not an input.
fn public_names(inputs: &[WireId], publics: &[WireId]) -> (r: Result<Vec<String>, Error>)
    ensures
        r is Ok <==> publics_ok(inputs@, publics@),
        r matches Ok(ns) ==> strings_v(ns@) == publics@.map_values(|w: WireId| cname(w, None)),
        r matches Err(e) ==> e matches Error::UndefinedSignal { name } && name@ == public_message(
            first_missing(inputs@, publics@),
        ),
{
    proof {
        reveal_strlit("public input ");
        reveal_strlit(" not in input list");
    }
    let mut names: Vec<String> = Vec::new();
    let mut k: usize = 0;
    while k < publics.len()
        invariant
            k <= publics@.len(),
            forall|j: int| 0 <= j < k ==> inputs@.contains(#[trigger] publics@[j]),
            strings_v(names@) == publics@.take(k as int).map_values(|w: WireId| cname(w, None)),
        decreases publics@.len() - k,
    {
        let w = publics[k];
        if !wire_in(inputs, w) {
            proof {
                lemma_first_missing(inputs@, publics@, k as int);
            }
            let mut msg = "public input ".to_string();
            let label = wire_label(w, None);
            msg.append(label.as_str());
            msg.append(" not in input list");
            proof {
                assert(msg@ =~= public_message(w));
            }
            return Err(Error::UndefinedSignal { name: SignalName::from_string(msg) });
        }
        let ghost before = names@;
        let label = wire_label(w, None);
        names.push(label);
        proof {
            assert(strings_v(names@) =~= strings_v(before).push(cname(w, None)));
            assert(publics@.take(k + 1).map_values(|w: WireId| cname(w, None)) =~= publics@.take(k as int).map_values(
                |w: WireId| cname(w, None),
            ).push(cname(w, None)));
        }
        k = k + 1;
    }
    proof {
        assert(publics@.take(k as int) =~= publics@);
    }
    Ok(names)
}

fn concat_wires(a: &[WireId], b: &[WireId]) -> (r: Vec<WireId>)
    ensures
        r@ == a@ + b@,
{
    let mut v: Vec<WireId> = Vec::new();
    let mut i: usize = 0;
    while i < a.len()
        invariant
            i <= a@.len(),
            v@ == a@.take(i as int),
        decreases a@.len() - i,
    {
        v.push(a[i]);
        proof {
            assert(v@ =~= a@.take(i + 1));
        }
        i = i + 1;
    }
    let mut j: usize = 0;
    while j < b.len()
        invariant
            j <= b@.len(),
            v@ == a@ + b@.take(j as int),
        decreases b@.len() - j,
    {
        v.push(b[j]);
        proof {
            assert(v@ =~= a@ + b@.take(j + 1));
        }
        j = j + 1;
    }
    proof {
        assert(a@.take(a@.len() as int) =~= a@);
        assert(b@.take(j as int) =~= b@);
    }
    v
}

/// The combinational Circom template of `graph`: `inputs` become
/// `signal input` ports with per-bit boolean constraints, `outputs`
/// become `signal output` ports, every other wire a local signal, and
/// each instruction its bit-level lowering.  `publics` names the
/// inputs declared public on `component main`.
///
/// Fails with `UndefinedSignal` for the first public wire that is not
/// an input, then with `UnsupportedInCircom` when the graph holds a
/// register.
pub fn build_template(
    graph: &HdlGraph,
    name: &str,
    inputs: &[WireId],
    outputs: &[WireId],
    publics: &[WireId],
) -> (r: Result<Template, Error>)
    requires
        circom_ready(graph@),
    ensures
        r is Ok <==> publics_ok(inputs@, publics@) && no_reg(graph@.instrs),
        !publics_ok(inputs@, publics@) ==> (r matches Err(e) && e matches Error::UndefinedSignal { name }
            && name@ == public_message(first_missing(inputs@, publics@))),
        publics_ok(inputs@, publics@) && !no_reg(graph@.instrs) ==> (r matches Err(e)
            && e matches Error::UnsupportedInCircom(m) && m@ == reg_message()),
        r matches Ok(t) ==> t@ == template_v(graph@, name@, inputs@, outputs@, publics@),
{
    let pubs = public_names(inputs, publics)?;
    let mut ports: Vec<Signal> = Vec::new();
    proof {
        assert(signals_v(ports@) =~= Seq::<SignalV>::empty());
    }
    push_port_sigs(&mut ports, graph, inputs, SignalDir::Input, None);
    push_port_sigs(&mut ports, graph, outputs, SignalDir::Output, None);
    let skip = concat_wires(inputs, outputs);
    let mut inters: Vec<Signal> = Vec::new();
    proof {
        assert(signals_v(inters@) =~= Seq::<SignalV>::empty());
    }
    push_inter_sigs(&mut inters, graph, skip.as_slice(), None);
    let mut body: Vec<Stmt> = Vec::new();
    proof {
        assert(stmts_v(body@) =~= Seq::<StmtV>::empty());
    }
    push_input_constraints(&mut body, graph, inputs, None);
    let lowered = lower_into(Lowered::empty(), graph, None)?;
    let Lowered { stmts: mut stmts, includes } = lowered;
    let ghost b0 = body@;
    let ghost l0 = stmts@;
    body.append(&mut stmts);
    proof {
        assert(stmts_v(body@) =~= stmts_v(b0) + stmts_v(l0));
        assert(signals_v(ports@) =~= port_sigs(graph@, inputs@, SignalDir::Input, None) + port_sigs(
            graph@,
            outputs@,
            SignalDir::Output,
            None,
        ));
    }
    Ok(Template::new(Field::Bn254, name, includes, ports, inters, body, pubs))
}

/// The combinational Circom template of `graph`, as a suspended
/// computation (see [`build_template`]).
pub fn emit_template(
    graph: &HdlGraph,
    name: &str,
    input_wires: &[WireId],
    output_wires: &[WireId],
    public_inputs: &[WireId],
) -> (r: Io<Error, Template>)
    requires
        circom_ready(graph@),
    ensures
        yielded_template(r) is Ok <==> publics_ok(input_wires@, public_inputs@) && no_reg(graph@.instrs),
        !publics_ok(input_wires@, public_inputs@) ==> (yielded_template(r) matches Err(e)
            && e matches Error::UndefinedSignal { name } && name@ == public_message(
            first_missing(input_wires@, public_inputs@),
        )),
        publics_ok(input_wires@, public_inputs@) && !no_reg(graph@.instrs) ==> (yielded_template(r) matches Err(e)
            && e matches Error::UnsupportedInCircom(m) && m@ == reg_message()),
        yielded_template(r) matches Ok(t) ==> t@ == template_v(graph@, name@, input_wires@, output_wires@, public_inputs@),
{
    deferred_template(build_template(graph, name, input_wires, output_wires, public_inputs))
}

/// The sum of element widths of a prefix is at most that of the whole.
proof fn lemma_elem_width_sum_prefix(g: GraphSpec, ws: Seq<WireId>, i: int)
    requires
        0 <= i <= ws.len(),
    ensures
        elem_width_sum(g, ws.take(i)) <= elem_width_sum(g, ws),
    decreases ws.len(),
{
    if i < ws.len() {
        assert(ws.drop_last().take(i) =~= ws.take(i));
        lemma_elem_width_sum_prefix(g, ws.drop_last(), i);
    } else {
        assert(ws.take(i) =~= ws);
    }
}

/// Append the cycle-0 assignments of one state wire.
fn push_wire_init(v: &mut Vec<Stmt>, w: WireId, off: usize, storage: usize, ew: u32, bits: &[bool])
    requires
        off + ew <= usize::MAX,
    ensures
        stmts_v(final(v)@) == stmts_v(old(v)@) + wire_init(w, off as nat, storage as nat, ew, bits@),
{
    let ghost start = stmts_v(v@);
    let ghost target = wire_init(w, off as nat, storage as nat, ew, bits@);
    let m: usize = if ew >= 1 { ew as usize } else { 1 };
    let mut p: usize = 0;
    while p < storage && (p as u64) <= 0xffff_ffffu64
        invariant
            p <= u32_count(storage as nat),
            off + ew <= usize::MAX,
            m == (if ew >= 1 { ew as nat } else { 1 }),
            target == wire_init(w, off as nat, storage as nat, ew, bits@),
            stmts_v(v@) == start + target.take(p as int),
        decreases storage - p,
    {
        let idx: usize = off + p % m;
        let value: bool = if idx < bits.len() { bits[idx] } else { false };
        let ghost before = v@;
        let st = Stmt::Assign { lhs: wire_label(w, Some(0)), index: Some(p as u32), rhs: Expr::BitLiteral(value) };
        v.push(st);
        proof {
            assert(stmts_v(v@) =~= stmts_v(before).push(st@));
            assert(target.take(p + 1) =~= target.take(p as int).push(st@));
        }
        p = p + 1;
    }
    proof {
        assert(target.take(p as int) =~= target);
    }
}

/// Append the cycle-0 assignments of every state wire.
fn push_init_assigns(v: &mut Vec<Stmt>, graph: &HdlGraph, st: &[WireId], bits: &[bool])
    requires
        storage_fits(graph@),
        elem_width_sum(graph@, st@) <= usize::MAX,
    ensures
        stmts_v(final(v)@) == stmts_v(old(v)@) + init_assigns(graph@, st@, bits@),
{
    let ghost start = stmts_v(v@);
    let mut off: usize = 0;
    let mut i: usize = 0;
    proof {
        assert(st@.take(0) =~= Seq::<WireId>::empty());
    }
    while i < st.len()
        invariant
            i <= st@.len(),
            storage_fits(graph@),
            elem_width_sum(graph@, st@) <= usize::MAX,
            off == elem_width_sum(graph@, st@.take(i as int)),
            stmts_v(v@) == start + init_assigns(graph@, st@.take(i as int), bits@),
        decreases st@.len() - i,
    {
        let w = st[i];
        let (ew, storage): (u32, usize) = match graph.wire_ty(w.index()) {
            Some(t) => {
                proof {
                    assert(ty_storage(graph@.wires[w.0 as int]) <= usize::MAX);
                }
                (t.width(), t.storage_bits())
            },
            None => (0, 0),
        };
        proof {
            let t = st@.take(i + 1);
            assert(t.drop_last() =~= st@.take(i as int));
            assert(t.last() == w);
            lemma_elem_width_sum_prefix(graph@, st@, i + 1);
        }
        push_wire_init(v, w, off, storage, ew, bits);
        proof {
            assert(stmts_v(v@) =~= start + init_assigns(graph@, st@.take(i + 1), bits@));
        }
        off = off + ew as usize;
        i = i + 1;
    }
    proof {
        assert(st@.take(i as int) =~= st@);
    }
}

/// Append cycle `k`'s copies of the previous next state into the state
/// wires.
fn push_plumb_cycle(v: &mut Vec<Stmt>, graph: &HdlGraph, st: &[WireId], ns: &[WireId], k: usize)
    requires
        storage_fits(graph@),
        k >= 1,
        st@.len() <= ns@.len(),
    ensures
        stmts_v(final(v)@) == stmts_v(old(v)@) + plumb_cycle(graph@, st@, ns@, k),
{
    let ghost start = stmts_v(v@);
    let mut j: usize = 0;
    proof {
        assert(st@.take(0) =~= Seq::<WireId>::empty());
    }
    while j < st.len()
        invariant
            j <= st@.len(),
            st@.len() <= ns@.len(),
            k >= 1,
            storage_fits(graph@),
            stmts_v(v@) == start + plumb_cycle(graph@, st@.take(j as int), ns@, k),
        decreases st@.len() - j,
    {
        proof {
            let t = st@.take(j + 1);
            assert(t.drop_last() =~= st@.take(j as int));
            assert(t.last() == st@[j as int]);
        }
        let width = graph_width(graph, st[j]);
        push_copy(v, st[j], Some(k), 0, ns[j], Some(k - 1), 0, width);
        proof {
            assert(stmts_v(v@) =~= start + plumb_cycle(graph@, st@.take(j + 1), ns@, k));
        }
        j = j + 1;
    }
    proof {
        assert(st@.take(j as int) =~= st@);
    }
}

/// The time-unrolled Circom template of a Mealy machine's
/// combinational graph over `num_cycles` cycles.  The first
/// `state_wire_count` input and output wires carry the state and next
/// state; the rest are data.  Per-cycle data inputs and outputs become
/// ports; cycle-0 state is pinned to `initial_state` (one element slice
/// per state wire, repeated across array storage), and each later
/// cycle's state copies the previous cycle's next state.
///
/// Fails with `UnsupportedInCircom` when the state count exceeds the
/// input list, then the output list, when `num_cycles` is 0, and when
/// the graph holds a register.
pub fn build_unrolled_template(
    graph: &HdlGraph,
    name: &str,
    input_wires: &[WireId],
    output_wires: &[WireId],
    state_wire_count: usize,
    initial_state: &BitSeq,
    num_cycles: usize,
) -> (r: Result<Template, Error>)
    requires
        circom_ready(graph@),
        state_wire_count <= input_wires@.len() ==> elem_width_sum(
            graph@,
            input_wires@.take(state_wire_count as int),
        ) <= usize::MAX,
    ensures
        r is Ok <==> state_wire_count <= input_wires@.len() && state_wire_count <= output_wires@.len() && num_cycles
            > 0 && no_reg(graph@.instrs),
        state_wire_count > input_wires@.len() ==> (r matches Err(e) && e matches Error::UnsupportedInCircom(m)
            && m@ == inputs_message()),
        state_wire_count <= input_wires@.len() && state_wire_count > output_wires@.len() ==> (r matches Err(e)
            && e matches Error::UnsupportedInCircom(m) && m@ == outputs_message()),
        state_wire_count <= input_wires@.len() && state_wire_count <= output_wires@.len() && num_cycles == 0 ==> (
        r matches Err(e) && e matches Error::UnsupportedInCircom(m) && m@ == cycles_message()),
        state_wire_count <= input_wires@.len() && state_wire_count <= output_wires@.len() && num_cycles > 0
            && !no_reg(graph@.instrs) ==> (r matches Err(e) && e matches Error::UnsupportedInCircom(m) && m@
            == reg_message()),
        r matches Ok(t) ==> t@ == unrolled_v(
            graph@,
            name@,
            input_wires@,
            output_wires@,
            state_wire_count as nat,
            initial_state@,
            num_cycles as nat,
        ),
{
    proof {
        reveal_strlit("state_wire_count exceeds input_wires length");
        reveal_strlit("state_wire_count exceeds output_wires length");
        reveal_strlit("unrolled template requires at least one cycle");
    }
    if state_wire_count > input_wires.len() {
        return Err(Error::UnsupportedInCircom("state_wire_count exceeds input_wires length"));
    }
    if state_wire_count > output_wires.len() {
        return Err(Error::UnsupportedInCircom("state_wire_count exceeds output_wires length"));
    }
    if num_cycles == 0 {
        return Err(Error::UnsupportedInCircom("unrolled template requires at least one cycle"));
    }
    let (st, di) = input_wires.split_at(state_wire_count);
    let (ns, dout) = output_wires.split_at(state_wire_count);
    proof {
        assert(st@ =~= input_wires@.take(state_wire_count as int));
        assert(di@ =~= input_wires@.skip(state_wire_count as int));
        assert(ns@ =~= output_wires@.take(state_wire_count as int));
        assert(dout@ =~= output_wires@.skip(state_wire_count as int));
    }
    let mut ports: Vec<Signal> = Vec::new();
    let mut k: usize = 0;
    proof {
        assert(signals_v(ports@) =~= Seq::<SignalV>::empty());
    }
    while k < num_cycles
        invariant
            k <= num_cycles,
            storage_fits(graph@),
            signals_v(ports@) == cycle_ports(graph@, di@, SignalDir::Input, k as nat),
        decreases num_cycles - k,
    {
        push_port_sigs(&mut ports, graph, di, SignalDir::Input, Some(k));
        k = k + 1;
    }
    let ghost in_ports = signals_v(ports@);
    k = 0;
    proof {
        assert(in_ports + cycle_ports(graph@, dout@, SignalDir::Output, 0) =~= in_ports);
    }
    while k < num_cycles
        invariant
            k <= num_cycles,
            storage_fits(graph@),
            signals_v(ports@) == in_ports + cycle_ports(graph@, dout@, SignalDir::Output, k as nat),
        decreases num_cycles - k,
    {
        push_port_sigs(&mut ports, graph, dout, SignalDir::Output, Some(k));
        proof {
            assert(signals_v(ports@) =~= in_ports + cycle_ports(graph@, dout@, SignalDir::Output, (k + 1) as nat));
        }
        k = k + 1;
    }
    let skip = concat_wires(di, dout);
    let mut inters: Vec<Signal> = Vec::new();
    k = 0;
    proof {
        assert(signals_v(inters@) =~= Seq::<SignalV>::empty());
    }
    while k < num_cycles
        invariant
            k <= num_cycles,
            storage_fits(graph@),
            signals_v(inters@) == cycle_inters(graph@, skip@, k as nat),
        decreases num_cycles - k,
    {
        push_inter_sigs(&mut inters, graph, skip.as_slice(), Some(k));
        k = k + 1;
    }
    let mut body: Vec<Stmt> = Vec::new();
    proof {
        assert(stmts_v(body@) =~= Seq::<StmtV>::empty());
    }
    push_init_assigns(&mut body, graph, st, initial_state.as_slice());
    let ghost b0 = stmts_v(body@);
    k = 1;
    proof {
        assert(b0 + plumbing(graph@, st@, ns@, 1) =~= b0);
    }
    while k < num_cycles
        invariant
            1 <= k <= num_cycles,
            storage_fits(graph@),
            st@.len() == ns@.len(),
            stmts_v(body@) == b0 + plumbing(graph@, st@, ns@, k as nat),
        decreases num_cycles - k,
    {
        push_plumb_cycle(&mut body, graph, st, ns, k);
        proof {
            assert(stmts_v(body@) =~= b0 + plumbing(graph@, st@, ns@, (k + 1) as nat));
        }
        k = k + 1;
    }
    let ghost b1 = stmts_v(body@);
    k = 0;
    proof {
        assert(b1 + cycle_constraints(graph@, di@, 0) =~= b1);
    }
    while k < num_cycles
        invariant
            k <= num_cycles,
            storage_fits(graph@),
            stmts_v(body@) == b1 + cycle_constraints(graph@, di@, k as nat),
        decreases num_cycles - k,
    {
        push_input_constraints(&mut body, graph, di, Some(k));
        proof {
            assert(stmts_v(body@) =~= b1 + cycle_constraints(graph@, di@, (k + 1) as nat));
        }
        k = k + 1;
    }
    let mut acc = Lowered::empty();
    k = 0;
    while k < num_cycles
        invariant
            k <= num_cycles,
            circom_ready(graph@),
            state_wire_count <= input_wires@.len(),
            state_wire_count <= output_wires@.len(),
            k > 0 ==> no_reg(graph@.instrs),
            acc@ == lower_cycles(graph@, k as nat),
        decreases num_cycles - k,
    {
        acc = lower_into(acc, graph, Some(k))?;
        k = k + 1;
    }
    let Lowered { stmts: mut stmts, includes } = acc;
    let ghost b2 = body@;
    let ghost l0 = stmts@;
    body.append(&mut stmts);
    proof {
        assert(stmts_v(body@) =~= stmts_v(b2) + stmts_v(l0));
    }
    let pubs: Vec<String> = Vec::new();
    proof {
        assert(strings_v(pubs@) =~= Seq::<Seq<char>>::empty());
    }
    Ok(Template::new(Field::Bn254, name, includes, ports, inters, body, pubs))
}

/// The time-unrolled Circom template, as a suspended computation (see
/// [`build_unrolled_template`]).
pub fn emit_unrolled_template(
    graph: &HdlGraph,
    name: &str,
    input_wires: &[WireId],
    output_wires: &[WireId],
    state_wire_count: usize,
    initial_state: &BitSeq,
    num_cycles: usize,
) -> (r: Io<Error, Template>)
    requires
        circom_ready(graph@),
        state_wire_count <= input_wires@.len() ==> elem_width_sum(
            graph@,
            input_wires@.take(state_wire_count as int),
        ) <= usize::MAX,
    ensures
        yielded_template(r) is Ok <==> state_wire_count <= input_wires@.len() && state_wire_count
            <= output_wires@.len() && num_cycles > 0 && no_reg(graph@.instrs),
        state_wire_count > input_wires@.len() ==> (yielded_template(r) matches Err(e)
            && e matches Error::UnsupportedInCircom(m) && m@ == inputs_message()),
        state_wire_count <= input_wires@.len() && state_wire_count > output_wires@.len() ==> (yielded_template(r) matches Err(
            e,
        ) && e matches Error::UnsupportedInCircom(m) && m@ == outputs_message()),
        state_wire_count <= input_wires@.len() && state_wire_count <= output_wires@.len() && num_cycles == 0 ==> (
        yielded_template(r) matches Err(e) && e matches Error::UnsupportedInCircom(m) && m@ == cycles_message()),
        state_wire_count <= input_wires@.len() && state_wire_count <= output_wires@.len() && num_cycles > 0
            && !no_reg(graph@.instrs) ==> (yielded_template(r) matches Err(e) && e matches Error::UnsupportedInCircom(m)
            && m@ == reg_message()),
        yielded_template(r) matches Ok(t) ==> t@ == unrolled_v(
            graph@,
            name@,
            input_wires@,
            output_wires@,
            state_wire_count as nat,
            initial_state@,
            num_cycles as nat,
        ),
{
    deferred_template(
        build_unrolled_template(
            graph,
            name,
            input_wires,
            output_wires,
            state_wire_count,
            initial_state,
            num_cycles,
        ),
    )
}

/// The number of cycle-0 assignments of the state wires `st`.
pub open spec fn init_count(g: GraphSpec, st: Seq<WireId>) -> nat
    decreases st.len(),
{
    if st.len() == 0 {
        0
    } else {
        init_count(g, st.drop_last()) + u32_count(storage(g, st.last()))
    }
}

/// A prefix of the state wires has no more cycle-0 assignments than
/// the whole.
proof fn lemma_init_count_prefix(g: GraphSpec, st: Seq<WireId>, j: int)
    requires
        0 <= j <= st.len(),
    ensures
        init_count(g, st.take(j)) <= init_count(g, st),
    decreases st.len() - j,
{
    if j < st.len() {
        assert(st.take(j + 1).drop_last() =~= st.take(j));
        lemma_init_count_prefix(g, st, j + 1);
    } else {
        assert(st.take(j) =~= st);
    }
}

/// The element widths of wires summed are their total width.
proof fn lemma_elem_width_sum_total(g: GraphSpec, ws: Seq<WireId>)
    ensures
        elem_width_sum(g, ws) == total(widths_of(g, ws)),
    decreases ws.len(),
{
    if ws.len() > 0 {
        lemma_elem_width_sum_total(g, ws.drop_last());
        assert(widths_of(g, ws).drop_last() =~= widths_of(g, ws.drop_last()));
    }
}

/// `d` copies of a non-empty `v` hold at `p` the bit `p mod |v|` of `v`.
proof fn lemma_repeat_at(v: Seq<bool>, d: nat, p: int)
    requires
        v.len() > 0,
        0 <= p < v.len() * d,
    ensures
        repeat(v, d).len() == v.len() * d,
        repeat(v, d)[p] == v[p % (v.len() as int)],
    decreases d,
{
    let n = v.len() as int;
    assert(d > 0) by (nonlinear_arith)
        requires
            0 <= p < v.len() * d,
    ;
    let d1 = (d - 1) as nat;
    assert(n * d == n * d1 + n) by (nonlinear_arith)
        requires
            d1 == d - 1,
    ;
    if p < n * d1 {
        lemma_repeat_at(v, d1, p);
    } else {
        if d1 > 0 {
            lemma_repeat_len(v, d1);
        }
        assert(repeat(v, d1).len() == n * d1) by {
            lemma_repeat_len(v, d1);
        }
        let r = p - n * d1;
        vstd::arithmetic::div_mod::lemma_mod_multiples_vanish(d1 as int, r, n);
        vstd::arithmetic::div_mod::lemma_small_mod(r as nat, n as nat);
        assert(n * d1 == d1 * n) by (nonlinear_arith);
    }
    lemma_repeat_len(v, d);
}

proof fn lemma_repeat_len(v: Seq<bool>, d: nat)
    ensures
        repeat(v, d).len() == v.len() * d,
    decreases d,
{
    if d > 0 {
        lemma_repeat_len(v, (d - 1) as nat);
        assert(v.len() * d == v.len() * ((d - 1) as nat) + v.len()) by (nonlinear_arith)
            requires
                d > 0,
        ;
    } else {
        assert(v.len() * d == 0) by (nonlinear_arith)
            requires
                d == 0,
        ;
    }
}

/// Cycle 0 of a time-unrolled template starts in the state the
/// testbench starts from: among the cycle-0 assignments of the state
/// wires `st`, bit `p` of the `k`-th wire's cycle-0 signal is assigned
/// bit `p` of what the testbench stores for that wire, the `k`-th chunk
/// of the compact initial state `bits` (cut at the wires' element
/// widths, in order) repeated across an array's depth.  It holds when
/// `bits` covers the state wires' total width and each wire's storage
/// has `u32` bit indices.
pub proof fn lemma_unrolled_start_state(g: GraphSpec, st: Seq<WireId>, bits: Seq<bool>)
    requires
        total(widths_of(g, st)) <= bits.len(),
        forall|k: int| 0 <= k < st.len() ==> storage(g, #[trigger] st[k]) <= u32::MAX,
    ensures
        init_assigns(g, st, bits).len() == init_count(g, st),
        forall|k: int, p: int|
            0 <= k < st.len() && 0 <= p < storage(g, st[k]) ==> #[trigger] init_assigns(g, st, bits)[init_count(
                g,
                st.take(k),
            ) + p] == assign_v(
                st[k],
                Some(0),
                p as u32,
                ExprV::BitLiteral(#[trigger] expand(g, st[k], chunks(bits, widths_of(g, st))[k])[p]),
            ),
    decreases st.len(),
{
    if st.len() > 0 {
        let n = st.len() as int;
        let sp = st.drop_last();
        let ws = widths_of(g, st);
        let wp = widths_of(g, sp);
        assert(ws.drop_last() =~= wp);
        lemma_total_prefix(ws, n - 1);
        assert(ws.take(n - 1) =~= wp);
        assert(ws.take(n) =~= ws);
        assert forall|k: int| 0 <= k < sp.len() implies storage(g, #[trigger] sp[k]) <= u32::MAX by {
            assert(sp[k] == st[k]);
        }
        lemma_unrolled_start_state(g, sp, bits);
        let a = init_assigns(g, sp, bits);
        let w = st.last();
        let off = elem_width_sum(g, sp);
        let sto = storage(g, w);
        let ew = elem_width(g, w);
        lemma_elem_width_sum_total(g, sp);
        assert(storage(g, st[n - 1]) <= u32::MAX);
        let b = wire_init(w, off, sto, ew, bits);
        assert(init_assigns(g, st, bits) == a + b);
        assert forall|k: int, p: int|
            0 <= k < st.len() && 0 <= p < storage(g, st[k]) implies #[trigger] init_assigns(g, st, bits)[init_count(
            g,
            st.take(k),
        ) + p] == assign_v(
            st[k],
            Some(0),
            p as u32,
            ExprV::BitLiteral(#[trigger] expand(g, st[k], chunks(bits, widths_of(g, st))[k])[p]),
        ) by {
            if k < n - 1 {
                assert(st.take(k) =~= sp.take(k));
                assert(sp[k] == st[k]);
                assert(st.take(k + 1) =~= sp.take(k + 1));
                assert(sp.take(k + 1).drop_last() =~= sp.take(k));
                lemma_init_count_prefix(g, sp, k + 1);
                assert(ws.take(k) =~= wp.take(k));
                assert(ws.take(k + 1) =~= wp.take(k + 1));
                assert(chunks(bits, ws)[k] == chunks(bits, wp)[k]);
            } else {
                assert(st.take(k) =~= sp);
                let chunk = chunks(bits, ws)[k];
                assert(chunk == bits.subrange(off as int, (off + wire_width_in(g, w)) as int));
                assert(wire_width_in(g, w) == ew as nat);
                let m: nat = if ew >= 1 { ew as nat } else { 1 };
                assert(b[p] == assign_v(w, Some(0), p as u32, ExprV::BitLiteral(bit_or_false(bits, off + (p as nat) % m))));
                match g.wires[w.0 as int] {
                    WireTy::Array { element_width, depth } => {
                        assert(sto == element_width * depth);
                        assert(element_width >= 1) by (nonlinear_arith)
                            requires
                                0 <= p < element_width * depth,
                        ;
                        lemma_repeat_at(chunk, depth as nat, p);
                        vstd::arithmetic::div_mod::lemma_mod_bound(p, ew as int);
                    },
                    _ => {
                        vstd::arithmetic::div_mod::lemma_small_mod(p as nat, m);
                    },
                }
            }
        }
    }
}

/// The number of bit copies from one cycle to the next for the state
/// wires `st`.
pub open spec fn plumb_count(g: GraphSpec, st: Seq<WireId>) -> nat
    decreases st.len(),
{
    if st.len() == 0 {
        0
    } else {
        plumb_count(g, st.drop_last()) + cwidth(g, st.last()) as nat
    }
}

proof fn lemma_plumb_count_prefix(g: GraphSpec, st: Seq<WireId>, j: int)
    requires
        0 <= j <= st.len(),
    ensures
        plumb_count(g, st.take(j)) <= plumb_count(g, st),
    decreases st.len() - j,
{
    if j < st.len() {
        assert(st.take(j + 1).drop_last() =~= st.take(j));
        lemma_plumb_count_prefix(g, st, j + 1);
    } else {
        assert(st.take(j) =~= st);
    }
}

/// Each cycle of a time-unrolled template starts from the previous
/// cycle's next state: among cycle `k`'s plumbing statements, bit `p`
/// of the `i`-th state wire's cycle-`k` signal is assigned bit `p` of
/// the `i`-th next-state wire's cycle-`(k - 1)` signal, for every bit of
/// the state wire.
pub proof fn lemma_plumb_copies_next_state(g: GraphSpec, st: Seq<WireId>, ns: Seq<WireId>, k: usize)
    requires
        st.len() <= ns.len(),
    ensures
        plumb_cycle(g, st, ns, k).len() == plumb_count(g, st),
        forall|i: int, p: int|
            0 <= i < st.len() && 0 <= p < cwidth(g, st[i]) ==> #[trigger] plumb_cycle(g, st, ns, k)[plumb_count(
                g,
                st.take(i),
            ) + p] == assign_v(st[i], Some(k), p as u32, bit_v(ns[i], p as u32, Some((k - 1) as usize))),
    decreases st.len(),
{
    if st.len() > 0 {
        let n = st.len() as int;
        let sp = st.drop_last();
        lemma_plumb_copies_next_state(g, sp, ns, k);
        assert forall|i: int, p: int|
            0 <= i < st.len() && 0 <= p < cwidth(g, st[i]) implies #[trigger] plumb_cycle(g, st, ns, k)[plumb_count(
            g,
            st.take(i),
        ) + p] == assign_v(st[i], Some(k), p as u32, bit_v(ns[i], p as u32, Some((k - 1) as usize))) by {
            if i < n - 1 {
                assert(st.take(i) =~= sp.take(i));
                assert(sp[i] == st[i]);
                assert(sp.take(i + 1).drop_last() =~= sp.take(i));
                lemma_plumb_count_prefix(g, sp, i + 1);
            } else {
                assert(st.take(i) =~= sp);
            }
        }
    }
}

} // verus!
