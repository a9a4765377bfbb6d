//! Sequential, parallel and feedback composition of [`Sync`] machines.

use vstd::prelude::*;

use crate::bit_seq::BitSeq;
use crate::circuit::arrow::{push_remapped, refs_below, remap_instrs, remap_list, remap_wires, shift_room};
use crate::circuit::object::CircuitTensor;
use crate::error::Error;
use crate::ir::graph::{GraphSpec, HdlGraph, instr_views};
use crate::ir::wire::{WireId, ty_width};
use crate::sync::machine::{Sync, SyncSpec, from_raw, port_view, state_split_ok};

verus! {

/// Wires `ws` shifted past `off` wires.
pub open spec fn shifted(ws: Seq<WireId>, off: nat) -> Seq<WireId> {
    remap_wires(ws, Seq::empty(), Seq::empty(), off)
}

/// The machine [`compose_sync`] builds: `g`'s graph after `f`'s, `g`'s
/// data inputs joined to `f`'s data outputs; state `f`'s then `g`'s.
pub open spec fn compose_sync_spec(f: SyncSpec, g: SyncSpec) -> SyncSpec {
    let off = f.graph.wires.len();
    let fsc = f.state_count as int;
    let gsc = g.state_count as int;
    let gdi = g.inputs.skip(gsc);
    let fdo = f.outputs.skip(fsc);
    SyncSpec {
        graph: GraphSpec {
            wires: f.graph.wires + g.graph.wires,
            instrs: f.graph.instrs + remap_instrs(g.graph.instrs, gdi, fdo, off),
        },
        inputs: f.inputs.take(fsc) + shifted(g.inputs.take(gsc), off) + f.inputs.skip(fsc),
        outputs: f.outputs.take(fsc) + shifted(g.outputs.take(gsc), off) + shifted(g.outputs.skip(gsc), off),
        init: f.init + g.init,
        state_count: f.state_count + g.state_count,
    }
}

/// The machine [`par_sync`] builds: both graphs side by side, `g`'s
/// shifted; ports ordered state-f, state-g, data-f, data-g.
pub open spec fn par_sync_spec(f: SyncSpec, g: SyncSpec) -> SyncSpec {
    let off = f.graph.wires.len();
    let fsc = f.state_count as int;
    let gsc = g.state_count as int;
    SyncSpec {
        graph: GraphSpec {
            wires: f.graph.wires + g.graph.wires,
            instrs: f.graph.instrs + remap_instrs(g.graph.instrs, Seq::empty(), Seq::empty(), off),
        },
        inputs: f.inputs.take(fsc) + shifted(g.inputs.take(gsc), off) + f.inputs.skip(fsc) + shifted(g.inputs.skip(gsc), off),
        outputs: f.outputs.take(fsc) + shifted(g.outputs.take(gsc), off) + f.outputs.skip(fsc) + shifted(g.outputs.skip(gsc), off),
        init: f.init + g.init,
        state_count: f.state_count + g.state_count,
    }
}

/// Split a wire list at `at`.
fn split_ids(ws: &[WireId], at: usize) -> (r: (Vec<WireId>, Vec<WireId>))
    requires
        at <= ws@.len(),
    ensures
        r.0@ == ws@.take(at as int),
        r.1@ == ws@.skip(at as int),
{
    let mut a: Vec<WireId> = Vec::new();
    let mut b: Vec<WireId> = Vec::new();
    let mut i: usize = 0;
    while i < ws.len()
        invariant
            i <= ws@.len(),
            at <= ws@.len(),
            a@ == ws@.take(if i < at { i as int } else { at as int }),
            b@ == (if i <= at { Seq::<WireId>::empty() } else { ws@.subrange(at as int, i as int) }),
        decreases ws@.len() - i,
    {
        if i < at {
            a.push(ws[i]);
            proof {
                assert(a@ =~= ws@.take(i + 1));
            }
        } else {
            b.push(ws[i]);
            proof {
                assert(b@ =~= ws@.subrange(at as int, i + 1));
            }
        }
        i = i + 1;
    }
    proof {
        assert(b@ =~= ws@.skip(at as int));
    }
    (a, b)
}

/// Sequentially compose two machines: each cycle `f` runs on its state
/// and the input, `g` on its state and `f`'s data output; the state is
/// the pair of states and the output is `g`'s.
pub fn compose_sync<S1, S2, I, M, O>(f: Sync<S1, I, M>, g: Sync<S2, M, O>) -> (r: Sync<CircuitTensor<S1, S2>, I, O>)
    requires
        state_split_ok(f@),
        state_split_ok(g@),
        refs_below(port_view(g@), shift_room(f@.graph.wires.len())),
        f@.state_count + g@.state_count <= usize::MAX,
    ensures
        r@ == compose_sync_spec(f@, g@),
{
    let ghost gs = g@;
    let (f_graph, f_inputs, f_outputs, f_init, f_sc) = f.into_parts();
    let (g_graph, g_inputs, g_outputs, g_init, g_sc) = g.into_parts();
    let (mut wires, mut instrs) = f_graph.into_parts();
    let off = wires.len();
    let (mut g_wires, g_instrs) = g_graph.into_parts();
    wires.append(&mut g_wires);
    let (fsi, fdi) = split_ids(f_inputs.as_slice(), f_sc);
    let (fso, fdo) = split_ids(f_outputs.as_slice(), f_sc);
    let (gsi, gdi) = split_ids(g_inputs.as_slice(), g_sc);
    let (gso, gdo) = split_ids(g_outputs.as_slice(), g_sc);
    let none: Vec<WireId> = Vec::new();
    proof {
        assert(none@ =~= Seq::<WireId>::empty());
        assert forall|j: int| 0 <= j < g_instrs@.len() implies crate::circuit::arrow::instr_refs_below(
            #[trigger] g_instrs@[j]@,
            shift_room(off as nat),
        ) by {
            assert(instr_views(g_instrs@)[j] == g_instrs@[j]@);
            assert(crate::circuit::arrow::instr_refs_below(port_view(gs).graph.instrs[j], shift_room(off as nat)));
        }
        assert(crate::circuit::arrow::ids_below(gsi@, shift_room(off as nat)));
        assert(crate::circuit::arrow::ids_below(gso@, shift_room(off as nat)));
        assert(crate::circuit::arrow::ids_below(gdo@, shift_room(off as nat)));
    }
    push_remapped(&mut instrs, g_instrs.as_slice(), gdi.as_slice(), fdo.as_slice(), off);
    let mut inputs = fsi;
    let mut gsi_s = remap_list(none.as_slice(), none.as_slice(), off, gsi.as_slice());
    let mut fdi_m = fdi;
    inputs.append(&mut gsi_s);
    inputs.append(&mut fdi_m);
    let mut outputs = fso;
    let mut gso_s = remap_list(none.as_slice(), none.as_slice(), off, gso.as_slice());
    let mut gdo_r = remap_list(none.as_slice(), none.as_slice(), off, gdo.as_slice());
    outputs.append(&mut gso_s);
    outputs.append(&mut gdo_r);
    let graph = HdlGraph::from_parts(wires, instrs);
    let init = f_init.concat(g_init);
    from_raw(graph, inputs, outputs, init, f_sc + g_sc)
}

/// Run two machines side by side: state, input and output are the
/// pairs of theirs; no wire is shared.
pub fn par_sync<S1, S2, I1, I2, O1, O2>(f: Sync<S1, I1, O1>, g: Sync<S2, I2, O2>) -> (r: Sync<
    CircuitTensor<S1, S2>,
    CircuitTensor<I1, I2>,
    CircuitTensor<O1, O2>,
>)
    requires
        state_split_ok(f@),
        state_split_ok(g@),
        refs_below(port_view(g@), shift_room(f@.graph.wires.len())),
        f@.state_count + g@.state_count <= usize::MAX,
    ensures
        r@ == par_sync_spec(f@, g@),
{
    let ghost gs = g@;
    let (f_graph, f_inputs, f_outputs, f_init, f_sc) = f.into_parts();
    let (g_graph, g_inputs, g_outputs, g_init, g_sc) = g.into_parts();
    let (mut wires, mut instrs) = f_graph.into_parts();
    let off = wires.len();
    let (mut g_wires, g_instrs) = g_graph.into_parts();
    wires.append(&mut g_wires);
    let (fsi, fdi) = split_ids(f_inputs.as_slice(), f_sc);
    let (fso, fdo) = split_ids(f_outputs.as_slice(), f_sc);
    let (gsi, gdi) = split_ids(g_inputs.as_slice(), g_sc);
    let (gso, gdo) = split_ids(g_outputs.as_slice(), g_sc);
    let none: Vec<WireId> = Vec::new();
    proof {
        assert(none@ =~= Seq::<WireId>::empty());
        assert forall|j: int| 0 <= j < g_instrs@.len() implies crate::circuit::arrow::instr_refs_below(
            #[trigger] g_instrs@[j]@,
            shift_room(off as nat),
        ) by {
            assert(instr_views(g_instrs@)[j] == g_instrs@[j]@);
            assert(crate::circuit::arrow::instr_refs_below(port_view(gs).graph.instrs[j], shift_room(off as nat)));
        }
        assert(crate::circuit::arrow::ids_below(gsi@, shift_room(off as nat)));
        assert(crate::circuit::arrow::ids_below(gdi@, shift_room(off as nat)));
        assert(crate::circuit::arrow::ids_below(gso@, shift_room(off as nat)));
        assert(crate::circuit::arrow::ids_below(gdo@, shift_room(off as nat)));
    }
    push_remapped(&mut instrs, g_instrs.as_slice(), none.as_slice(), none.as_slice(), off);
    let mut inputs = fsi;
    let mut a = remap_list(none.as_slice(), none.as_slice(), off, gsi.as_slice());
    let mut b = fdi;
    let mut c = remap_list(none.as_slice(), none.as_slice(), off, gdi.as_slice());
    inputs.append(&mut a);
    inputs.append(&mut b);
    inputs.append(&mut c);
    let mut outputs = fso;
    let mut d = remap_list(none.as_slice(), none.as_slice(), off, gso.as_slice());
    let mut e = fdo;
    let mut h = remap_list(none.as_slice(), none.as_slice(), off, gdo.as_slice());
    outputs.append(&mut d);
    outputs.append(&mut e);
    outputs.append(&mut h);
    let graph = HdlGraph::from_parts(wires, instrs);
    let init = f_init.concat(g_init);
    from_raw(graph, inputs, outputs, init, f_sc + g_sc)
}

/// The bit width of wire `w` in `g` (0 when it is not declared).
pub open spec fn wire_width_in(g: GraphSpec, w: WireId) -> nat {
    if (w.0 as nat) < g.wires.len() {
        ty_width(g.wires[w.0 as int]) as nat
    } else {
        0
    }
}

/// The summed widths of a list of wires in `g`.
pub open spec fn wires_width_in(g: GraphSpec, ws: Seq<WireId>) -> nat
    decreases ws.len(),
{
    if ws.len() == 0 {
        0
    } else {
        wires_width_in(g, ws.drop_last()) + wire_width_in(g, ws.last())
    }
}

/// The number of fed-back output wires of a machine: its data outputs.
pub open spec fn feedback_count(f: SyncSpec) -> nat {
    (f.outputs.len() - f.state_count) as nat
}

/// The number of external input wires once the fed-back ones are
/// removed (clamped at zero).
pub open spec fn external_count(f: SyncSpec) -> nat {
    let rest = f.inputs.len() - f.state_count;
    if rest >= feedback_count(f) {
        (rest - feedback_count(f)) as nat
    } else {
        0
    }
}

/// The fed-back input wires: what follows the state and external
/// inputs.
pub open spec fn feedback_inputs(f: SyncSpec) -> Seq<WireId> {
    f.inputs.skip((f.state_count + external_count(f)) as int)
}

/// The machine [`feedback_sync`] builds: inputs state, fed-back, then
/// external; outputs next state, then the data outputs twice (as next
/// fed-back state and as output).
pub open spec fn feedback_spec(f: SyncSpec, initial_feedback: Seq<bool>) -> SyncSpec {
    let sc = f.state_count as int;
    let ext = external_count(f) as int;
    SyncSpec {
        graph: f.graph,
        inputs: f.inputs.take(sc) + feedback_inputs(f) + f.inputs.subrange(sc, sc + ext),
        outputs: f.outputs.take(sc) + f.outputs.skip(sc) + f.outputs.skip(sc),
        init: f.init + initial_feedback,
        state_count: f.state_count + feedback_count(f),
    }
}

fn wire_width(graph: &HdlGraph, w: WireId) -> (r: usize)
    ensures
        r == wire_width_in(graph@, w),
{
    match graph.wire_ty(w.index()) {
        Some(t) => t.width() as usize,
        None => 0,
    }
}

/// Close a one-cycle feedback loop: the data output of `f`, fed back as
/// the last part of its input, is kept in new state wires initialised
/// from `initial_feedback`.  Fails with a width mismatch when
/// `initial_feedback`'s length is not the fed-back wires' total width.
pub fn feedback_sync<S, I, O>(f: Sync<S, CircuitTensor<I, O>, O>, initial_feedback: BitSeq) -> (r: Result<
    Sync<CircuitTensor<S, O>, I, O>,
    Error,
>)
    requires
        state_split_ok(f@),
        wires_width_in(f@.graph, feedback_inputs(f@)) <= usize::MAX,
    ensures
        r is Ok <==> initial_feedback@.len() == wires_width_in(f@.graph, feedback_inputs(f@)),
        r matches Ok(m) ==> m@ == feedback_spec(f@, initial_feedback@),
        r matches Err(e) ==> e.is_width_mismatch(wires_width_in(f@.graph, feedback_inputs(f@)), initial_feedback@.len() as nat),
{
    let ghost fs = f@;
    let (f_graph, f_inputs, f_outputs, f_init, f_sc) = f.into_parts();
    let total_inputs = f_inputs.len();
    let total_outputs = f_outputs.len();
    let o_count = total_outputs - f_sc;
    let rest_count = total_inputs - f_sc;
    let i_count = if rest_count >= o_count { rest_count - o_count } else { 0 };
    let (state_pre, rest) = split_ids(f_inputs.as_slice(), f_sc);
    let (i_wires, o_feedback) = split_ids(rest.as_slice(), i_count);
    let (state_post, data_out) = split_ids(f_outputs.as_slice(), f_sc);
    proof {
        assert(o_feedback@ =~= feedback_inputs(fs));
        assert(i_wires@ =~= fs.inputs.subrange(f_sc as int, f_sc + i_count));
    }
    let mut expected: usize = 0;
    let mut k: usize = 0;
    while k < o_feedback.len()
        invariant
            k <= o_feedback@.len(),
            o_feedback@ == feedback_inputs(fs),
            f_graph@ == fs.graph,
            wires_width_in(fs.graph, o_feedback@) <= usize::MAX,
            expected == wires_width_in(fs.graph, o_feedback@.take(k as int)),
        decreases o_feedback@.len() - k,
    {
        proof {
            assert(o_feedback@.take(k + 1).drop_last() =~= o_feedback@.take(k as int));
            lemma_wires_width_prefix(fs.graph, o_feedback@, k + 1);
        }
        expected = expected + wire_width(&f_graph, o_feedback[k]);
        k = k + 1;
    }
    proof {
        assert(o_feedback@.take(k as int) =~= o_feedback@);
    }
    if initial_feedback.len() != expected {
        return Err(Error::width_mismatch(expected, initial_feedback.len()));
    }
    let mut inputs = state_pre;
    let mut fb = o_feedback;
    let mut iw = i_wires;
    inputs.append(&mut fb);
    inputs.append(&mut iw);
    let mut outputs = state_post;
    let mut d1 = data_out.clone();
    let mut d2 = data_out;
    outputs.append(&mut d1);
    outputs.append(&mut d2);
    let init = f_init.concat(initial_feedback);
    Ok(from_raw(f_graph, inputs, outputs, init, f_sc + o_count))
}

/// A prefix's summed width is bounded by the whole list's.
pub proof fn lemma_wires_width_prefix(g: GraphSpec, ws: Seq<WireId>, n: int)
    requires
        0 <= n <= ws.len(),
    ensures
        wires_width_in(g, ws.take(n)) <= wires_width_in(g, ws),
    decreases ws.len(),
{
    if n < ws.len() {
        assert(ws.drop_last().take(n) =~= ws.take(n));
        lemma_wires_width_prefix(g, ws.drop_last(), n);
    } else {
        assert(ws.take(n) =~= ws);
    }
}

} // verus!
