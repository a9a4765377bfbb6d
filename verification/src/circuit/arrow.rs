//! Morphisms of the circuit category: an IR graph with designated
//! input and output wires.

use vstd::prelude::*;
use core::marker::PhantomData;

use crate::error::Error;
use crate::ir::builder::{HdlGraphBuilder, inputs_text};
use crate::ir::graph::{GraphSpec, HdlGraph, instr_views};
use crate::ir::instr::{InstrSpec, Instruction};
use crate::ir::op::{Op, arity};
use crate::ir::wire::{WireId, WireTy};
use crate::circuit::object::{CircuitTensor, Object};

verus! {

/// The mathematical content of a [`CircuitArrow`].
pub ghost struct ArrowSpec {
    pub graph: GraphSpec,
    pub inputs: Seq<WireId>,
    pub outputs: Seq<WireId>,
}

/// A circuit from object `A` to object `B`: an IR graph whose input
/// wires carry `A`'s layout and whose output wires carry `B`'s.
#[derive(Debug)]
pub struct CircuitArrow<A, B> {
    graph: HdlGraph,
    inputs: Vec<WireId>,
    outputs: Vec<WireId>,
    _phantom: PhantomData<(A, B)>,
}

impl<A, B> View for CircuitArrow<A, B> {
    type V = ArrowSpec;

    closed spec fn view(&self) -> ArrowSpec {
        ArrowSpec { graph: self.graph@, inputs: self.inputs@, outputs: self.outputs@ }
    }
}

/// The wire ids `start, start + 1, ..., start + n - 1`.
pub open spec fn wire_ids(start: nat, n: nat) -> Seq<WireId> {
    Seq::new(n, |i: int| WireId((start + i) as usize))
}

/// Where composition sends wire `w` of the second circuit: to the
/// first circuit's output paired with the first of the second
/// circuit's inputs equal to `w`, else to `w` shifted past the first
/// circuit's `off` wires.
pub open spec fn subst_wire(gin: Seq<WireId>, fout: Seq<WireId>, off: nat, w: WireId) -> WireId
    decreases gin.len(),
{
    if gin.len() == 0 || fout.len() == 0 {
        WireId((w.0 + off) as usize)
    } else if gin[0] == w {
        fout[0]
    } else {
        subst_wire(gin.drop_first(), fout.drop_first(), off, w)
    }
}

/// An instruction with every wire sent through [`subst_wire`].
pub open spec fn remap_instr(i: InstrSpec, gin: Seq<WireId>, fout: Seq<WireId>, off: nat) -> InstrSpec {
    InstrSpec {
        op: i.op,
        inputs: i.inputs.map_values(|x: WireId| subst_wire(gin, fout, off, x)),
        output: subst_wire(gin, fout, off, i.output),
    }
}

/// Every instruction sent through [`remap_instr`].
pub open spec fn remap_instrs(is: Seq<InstrSpec>, gin: Seq<WireId>, fout: Seq<WireId>, off: nat) -> Seq<InstrSpec> {
    is.map_values(|i: InstrSpec| remap_instr(i, gin, fout, off))
}

/// Every wire of a list sent through [`subst_wire`].
pub open spec fn remap_wires(ws: Seq<WireId>, gin: Seq<WireId>, fout: Seq<WireId>, off: nat) -> Seq<WireId> {
    ws.map_values(|x: WireId| subst_wire(gin, fout, off, x))
}

/// Every wire an instruction reads or writes is below `bound`.
pub open spec fn instr_refs_below(i: InstrSpec, bound: nat) -> bool {
    &&& (i.output.0 as nat) < bound
    &&& forall|k: int| 0 <= k < i.inputs.len() ==> (#[trigger] i.inputs[k].0 as nat) < bound
}

/// Every wire id in a list is below `bound`.
pub open spec fn ids_below(ws: Seq<WireId>, bound: nat) -> bool {
    forall|k: int| 0 <= k < ws.len() ==> (#[trigger] ws[k].0 as nat) < bound
}

/// Every wire an arrow mentions (ports and instructions) is below `bound`.
pub open spec fn refs_below(a: ArrowSpec, bound: nat) -> bool {
    &&& ids_below(a.inputs, bound)
    &&& ids_below(a.outputs, bound)
    &&& forall|j: int| 0 <= j < a.graph.instrs.len() ==> instr_refs_below(#[trigger] a.graph.instrs[j], bound)
}

/// Every wire an arrow mentions is one of its graph's wires.
pub open spec fn well_wired(a: ArrowSpec) -> bool {
    refs_below(a, a.graph.wires.len())
}

/// Sequential composition: `g`'s graph appended after `f`'s, `g`'s
/// inputs joined to `f`'s outputs.
pub open spec fn compose_spec(f: ArrowSpec, g: ArrowSpec) -> ArrowSpec {
    let off = f.graph.wires.len();
    ArrowSpec {
        graph: GraphSpec {
            wires: f.graph.wires + g.graph.wires,
            instrs: f.graph.instrs + remap_instrs(g.graph.instrs, g.inputs, f.outputs, off),
        },
        inputs: f.inputs,
        outputs: remap_wires(g.outputs, g.inputs, f.outputs, off),
    }
}

/// Parallel composition: `g`'s graph appended after `f`'s with its
/// wires shifted, ports concatenated.
pub open spec fn tensor_spec(f: ArrowSpec, g: ArrowSpec) -> ArrowSpec {
    let off = f.graph.wires.len();
    let e = Seq::<WireId>::empty();
    ArrowSpec {
        graph: GraphSpec {
            wires: f.graph.wires + g.graph.wires,
            instrs: f.graph.instrs + remap_instrs(g.graph.instrs, e, e, off),
        },
        inputs: f.inputs + remap_wires(g.inputs, e, e, off),
        outputs: f.outputs + remap_wires(g.outputs, e, e, off),
    }
}

/// The largest id bound under which `g` may be shifted by `off`
/// without overflowing a `usize`.
pub open spec fn shift_room(off: nat) -> nat {
    (usize::MAX + 1 - off) as nat
}

impl<A, B> CircuitArrow<A, B> {
    /// The underlying IR graph.
    pub fn graph(&self) -> (r: &HdlGraph)
        ensures
            r@ == self@.graph,
    {
        &self.graph
    }

    /// The input wires, in order.
    pub fn inputs(&self) -> (r: &[WireId])
        ensures
            r@ == self@.inputs,
    {
        self.inputs.as_slice()
    }

    /// The output wires, in order.
    pub fn outputs(&self) -> (r: &[WireId])
        ensures
            r@ == self@.outputs,
    {
        self.outputs.as_slice()
    }

    /// Take the arrow apart into graph, inputs and outputs.
    pub fn into_raw_parts(self) -> (r: (HdlGraph, Vec<WireId>, Vec<WireId>))
        ensures
            r.0@ == self@.graph,
            r.1@ == self@.inputs,
            r.2@ == self@.outputs,
    {
        (self.graph, self.inputs, self.outputs)
    }

    /// Assemble an arrow from a graph and its port wires.
    pub fn from_raw_parts(graph: HdlGraph, inputs: Vec<WireId>, outputs: Vec<WireId>) -> (r: Self)
        ensures
            r@ == (ArrowSpec { graph: graph@, inputs: inputs@, outputs: outputs@ }),
    {
        CircuitArrow { graph, inputs, outputs, _phantom: PhantomData }
    }
}

impl<A, B> Clone for CircuitArrow<A, B> {
    fn clone(&self) -> (r: Self)
        ensures
            r@ == self@,
    {
        CircuitArrow {
            graph: self.graph.clone(),
            inputs: self.inputs.clone(),
            outputs: self.outputs.clone(),
            _phantom: PhantomData,
        }
    }
}

/// Declare one wire per type, in order, returning the graph and the
/// new wire ids `0..tys.len()`.
pub fn declare_wires(tys: Vec<WireTy>) -> (r: (HdlGraph, Vec<WireId>))
    ensures
        r.0@.wires == tys@,
        r.0@.instrs.len() == 0,
        r.1@ == wire_ids(0, tys@.len()),
{
    let mut ids: Vec<WireId> = Vec::new();
    let mut i: usize = 0;
    while i < tys.len()
        invariant
            i <= tys@.len(),
            ids@ == wire_ids(0, i as nat),
        decreases tys@.len() - i,
    {
        ids.push(WireId::new(i));
        proof {
            assert(ids@ =~= wire_ids(0, (i + 1) as nat));
        }
        i = i + 1;
    }
    let instrs: Vec<Instruction> = Vec::new();
    let g = HdlGraph::from_parts(tys, instrs);
    proof {
        assert(instr_views(instrs@) =~= Seq::<InstrSpec>::empty());
    }
    (g, ids)
}

/// The wired identity on `A`: one wire per element of `A`'s layout,
/// each both input and output, no instructions.
pub fn identity_arrow<A: Object>() -> (r: CircuitArrow<A, A>)
    ensures
        r@.graph.wires == A::layout(),
        r@.graph.instrs.len() == 0,
        r@.inputs == wire_ids(0, A::layout().len()),
        r@.outputs == r@.inputs,
{
    let (graph, wires) = declare_wires(A::wire_layout());
    let outputs = wires.clone();
    CircuitArrow { graph, inputs: wires, outputs, _phantom: PhantomData }
}

/// The image of `w` under [`subst_wire`].
fn remap_wire(gin: &[WireId], fout: &[WireId], off: usize, w: WireId) -> (r: WireId)
    requires
        w.0 + off <= usize::MAX,
    ensures
        r == subst_wire(gin@, fout@, off as nat, w),
{
    let n = if gin.len() < fout.len() { gin.len() } else { fout.len() };
    let mut i: usize = 0;
    proof {
        assert(gin@.skip(0) =~= gin@);
        assert(fout@.skip(0) =~= fout@);
    }
    while i < n
        invariant
            i <= n,
            n <= gin@.len(),
            n <= fout@.len(),
            n == gin@.len() || n == fout@.len(),
            subst_wire(gin@, fout@, off as nat, w) == subst_wire(gin@.skip(i as int), fout@.skip(i as int), off as nat, w),
        decreases n - i,
    {
        if gin[i] == w {
            return fout[i];
        }
        proof {
            assert(gin@.skip(i as int).drop_first() =~= gin@.skip(i + 1));
            assert(fout@.skip(i as int).drop_first() =~= fout@.skip(i + 1));
        }
        i = i + 1;
    }
    WireId::new(w.0 + off)
}

/// The images of a list of wires under [`subst_wire`].
pub(crate) fn remap_list(gin: &[WireId], fout: &[WireId], off: usize, ws: &[WireId]) -> (r: Vec<WireId>)
    requires
        ids_below(ws@, shift_room(off as nat)),
    ensures
        r@ == remap_wires(ws@, gin@, fout@, off as nat),
{
    let mut out: Vec<WireId> = Vec::new();
    let mut i: usize = 0;
    while i < ws.len()
        invariant
            i <= ws@.len(),
            ids_below(ws@, shift_room(off as nat)),
            out@ == remap_wires(ws@.take(i as int), gin@, fout@, off as nat),
        decreases ws@.len() - i,
    {
        let w = remap_wire(gin, fout, off, ws[i]);
        out.push(w);
        proof {
            assert(remap_wires(ws@.take(i + 1), gin@, fout@, off as nat) =~= remap_wires(
                ws@.take(i as int),
                gin@,
                fout@,
                off as nat,
            ).push(w));
        }
        i = i + 1;
    }
    proof {
        assert(ws@.take(ws@.len() as int) =~= ws@);
    }
    out
}

/// Append `src`'s instructions to `dst`, each sent through
/// [`remap_instr`].
pub(crate) fn push_remapped(dst: &mut Vec<Instruction>, src: &[Instruction], gin: &[WireId], fout: &[WireId], off: usize)
    requires
        forall|j: int| 0 <= j < src@.len() ==> instr_refs_below(#[trigger] src@[j]@, shift_room(off as nat)),
    ensures
        instr_views(final(dst)@) == instr_views(old(dst)@) + remap_instrs(instr_views(src@), gin@, fout@, off as nat),
{
    let ghost start = instr_views(dst@);
    let mut j: usize = 0;
    while j < src.len()
        invariant
            j <= src@.len(),
            forall|k: int| 0 <= k < src@.len() ==> instr_refs_below(#[trigger] src@[k]@, shift_room(off as nat)),
            instr_views(dst@) == start + remap_instrs(instr_views(src@.take(j as int)), gin@, fout@, off as nat),
        decreases src@.len() - j,
    {
        let instr = &src[j];
        let ins = instr.inputs();
        proof {
            assert(instr_refs_below(src@[j as int]@, shift_room(off as nat)));
            assert(ids_below(ins@, shift_room(off as nat)));
        }
        let new_inputs = remap_list(gin, fout, off, ins);
        let new_output = remap_wire(gin, fout, off, instr.output());
        let op = instr.op().clone();
        let ghost before = dst@;
        match Instruction::new(op, new_inputs, new_output) {
            Some(ni) => {
                dst.push(ni);
                proof {
                    let t = instr_views(src@.take(j + 1));
                    assert(t =~= instr_views(src@.take(j as int)).push(src@[j as int]@));
                    assert(ni@ == remap_instr(src@[j as int]@, gin@, fout@, off as nat));
                    assert(remap_instrs(t, gin@, fout@, off as nat) =~= remap_instrs(
                        instr_views(src@.take(j as int)),
                        gin@,
                        fout@,
                        off as nat,
                    ).push(ni@));
                    assert(instr_views(dst@) =~= instr_views(before).push(ni@));
                }
            },
            None => {
                proof {
                    assert(false);
                }
            },
        }
        j = j + 1;
    }
    proof {
        assert(src@.take(src@.len() as int) =~= src@);
    }
}

/// Sequential composition `f ; g`: `g`'s inputs are joined to `f`'s
/// outputs (pairwise, as far as both go) and its remaining wires are
/// shifted past `f`'s.
pub fn compose_arrows<A, B, C>(f: CircuitArrow<A, B>, g: CircuitArrow<B, C>) -> (r: CircuitArrow<A, C>)
    requires
        refs_below(g@, shift_room(f@.graph.wires.len())),
    ensures
        r@ == compose_spec(f@, g@),
{
    let (f_graph, f_inputs, f_outputs) = f.into_raw_parts();
    let (g_graph, g_inputs, g_outputs) = g.into_raw_parts();
    let (mut wires, mut instrs) = f_graph.into_parts();
    let offset = wires.len();
    let (mut g_wires, g_instrs) = g_graph.into_parts();
    wires.append(&mut g_wires);
    proof {
        assert forall|j: int| 0 <= j < g_instrs@.len() implies instr_refs_below(
            #[trigger] g_instrs@[j]@,
            shift_room(offset as nat),
        ) by {
            assert(instr_views(g_instrs@)[j] == g_instrs@[j]@);
        }
    }
    push_remapped(&mut instrs, g_instrs.as_slice(), g_inputs.as_slice(), f_outputs.as_slice(), offset);
    let outputs = remap_list(g_inputs.as_slice(), f_outputs.as_slice(), offset, g_outputs.as_slice());
    let graph = HdlGraph::from_parts(wires, instrs);
    CircuitArrow { graph, inputs: f_inputs, outputs, _phantom: PhantomData }
}

/// Parallel composition `f ⊗ g`: the two circuits side by side, `g`'s
/// wires shifted past `f`'s.
pub fn tensor_arrows<A, B, C, D>(f: CircuitArrow<A, B>, g: CircuitArrow<C, D>) -> (r: CircuitArrow<
    CircuitTensor<A, C>,
    CircuitTensor<B, D>,
>)
    requires
        refs_below(g@, shift_room(f@.graph.wires.len())),
    ensures
        r@ == tensor_spec(f@, g@),
{
    let (f_graph, mut f_inputs, mut f_outputs) = f.into_raw_parts();
    let (g_graph, g_inputs, g_outputs) = g.into_raw_parts();
    let (mut wires, mut instrs) = f_graph.into_parts();
    let offset = wires.len();
    let (mut g_wires, g_instrs) = g_graph.into_parts();
    wires.append(&mut g_wires);
    let none: Vec<WireId> = Vec::new();
    proof {
        assert(none@ =~= Seq::<WireId>::empty());
        assert forall|j: int| 0 <= j < g_instrs@.len() implies instr_refs_below(
            #[trigger] g_instrs@[j]@,
            shift_room(offset as nat),
        ) by {
            assert(instr_views(g_instrs@)[j] == g_instrs@[j]@);
        }
    }
    push_remapped(&mut instrs, g_instrs.as_slice(), none.as_slice(), none.as_slice(), offset);
    let mut ins = remap_list(none.as_slice(), none.as_slice(), offset, g_inputs.as_slice());
    let mut outs = remap_list(none.as_slice(), none.as_slice(), offset, g_outputs.as_slice());
    f_inputs.append(&mut ins);
    f_outputs.append(&mut outs);
    let graph = HdlGraph::from_parts(wires, instrs);
    CircuitArrow { graph, inputs: f_inputs, outputs: f_outputs, _phantom: PhantomData }
}

/// A single gate as an arrow: one input wire per type in `input_tys`
/// (ids `0..n`), one output wire of type `output_ty` (id `n`), and the
/// instruction `op` between them.  Fails, as the graph builder does,
/// when `op`'s arity differs from the number of inputs.
pub fn primitive_arrow<A: Object, B: Object>(input_tys: Vec<WireTy>, op: Op, output_ty: WireTy) -> (r: Result<
    CircuitArrow<A, B>,
    Error,
>)
    ensures
        r is Ok <==> input_tys@.len() == arity(op@),
        r matches Ok(a) ==> a@ == primitive_spec(input_tys@, op@, output_ty),
        r matches Err(e) ==> e matches Error::TypeMismatch { expected, actual } && expected@ == inputs_text(
            arity(op@),
        ) && actual@ == inputs_text(input_tys@.len()),
{
    let mut bld = HdlGraphBuilder::new();
    let mut inputs: Vec<WireId> = Vec::new();
    let mut i: usize = 0;
    proof {
        assert(bld@.wires =~= input_tys@.take(0));
    }
    while i < input_tys.len()
        invariant
            i <= input_tys@.len(),
            bld@.wires == input_tys@.take(i as int),
            bld@.instrs.len() == 0,
            inputs@ == wire_ids(0, i as nat),
        decreases input_tys@.len() - i,
    {
        let (b2, id) = bld.with_wire(input_tys[i]);
        bld = b2;
        inputs.push(id);
        proof {
            assert(input_tys@.take(i + 1) =~= input_tys@.take(i as int).push(input_tys@[i as int]));
            assert(inputs@ =~= wire_ids(0, (i + 1) as nat));
        }
        i = i + 1;
    }
    proof {
        assert(input_tys@.take(i as int) =~= input_tys@);
    }
    let (bld, output) = bld.with_wire(output_ty);
    let ins = inputs.clone();
    let bld = bld.with_instruction(op, ins, output)?;
    let mut outputs: Vec<WireId> = Vec::new();
    outputs.push(output);
    let graph = bld.build();
    proof {
        assert(graph@.instrs =~= seq![InstrSpec { op: op@, inputs: inputs@, output }]);
        assert(outputs@ =~= seq![WireId(input_tys@.len() as usize)]);
    }
    Ok(CircuitArrow { graph, inputs, outputs, _phantom: PhantomData })
}

/// The arrow [`primitive_arrow`] builds.
pub open spec fn primitive_spec(input_tys: Seq<WireTy>, op: crate::ir::op::OpSpec, output_ty: WireTy) -> ArrowSpec {
    let n = input_tys.len();
    ArrowSpec {
        graph: GraphSpec {
            wires: input_tys.push(output_ty),
            instrs: seq![InstrSpec { op, inputs: wire_ids(0, n), output: WireId(n as usize) }],
        },
        inputs: wire_ids(0, n),
        outputs: seq![WireId(n as usize)],
    }
}

} // verus!
