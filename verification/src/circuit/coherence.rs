//! Wired structural isomorphisms: associator, unitors and braiding as
//! real pass-through wiring on an object's layout.

use vstd::prelude::*;

use crate::circuit::arrow::{ArrowSpec, CircuitArrow, compose_spec, declare_wires, subst_wire, wire_ids};
use crate::circuit::category::CircuitIso;
use crate::circuit::object::{CircuitTensor, CircuitUnit, Object};
use crate::ir::graph::GraphSpec;
use crate::ir::instr::InstrSpec;
use crate::ir::wire::{WireId, WireTy};

verus! {

/// `(A ⊗ B) ⊗ C`.
pub type LeftAssoc<A, B, C> = CircuitTensor<CircuitTensor<A, B>, C>;

/// `A ⊗ (B ⊗ C)`.
pub type RightAssoc<A, B, C> = CircuitTensor<A, CircuitTensor<B, C>>;

/// A pass-through arrow over `layout`: one wire per type, each both an
/// input and an output, no instructions.
pub open spec fn pass_through_spec(layout: Seq<WireTy>) -> ArrowSpec {
    ArrowSpec {
        graph: GraphSpec { wires: layout, instrs: Seq::<InstrSpec>::empty() },
        inputs: wire_ids(0, layout.len()),
        outputs: wire_ids(0, layout.len()),
    }
}

/// The braiding arrow over `la ⊗ lb`: wires `la` then `lb`, outputs the
/// `lb` block followed by the `la` block.
pub open spec fn braid_spec(la: Seq<WireTy>, lb: Seq<WireTy>) -> ArrowSpec {
    ArrowSpec {
        graph: GraphSpec { wires: la + lb, instrs: Seq::<InstrSpec>::empty() },
        inputs: wire_ids(0, la.len() + lb.len()),
        outputs: wire_ids(la.len(), lb.len()) + wire_ids(0, la.len()),
    }
}

fn pass_through<S, T>(layout: Vec<WireTy>) -> (r: CircuitArrow<S, T>)
    ensures
        r@ == pass_through_spec(layout@),
{
    let (graph, ids) = declare_wires(layout);
    let outs = ids.clone();
    let r = CircuitArrow::from_raw_parts(graph, ids, outs);
    proof {
        assert(r@.graph.instrs =~= Seq::<InstrSpec>::empty());
    }
    r
}

/// The wired associator `(A ⊗ B) ⊗ C ≅ A ⊗ (B ⊗ C)`: both directions
/// pass the concatenated layout straight through.
pub fn wired_associator<A: Object, B: Object, C: Object>() -> (r: CircuitIso<LeftAssoc<A, B, C>, RightAssoc<A, B, C>>)
    ensures
        r.forward_spec() == pass_through_spec(A::layout() + B::layout() + C::layout()),
        r.backward_spec() == pass_through_spec(A::layout() + B::layout() + C::layout()),
{
    let mut layout = A::wire_layout();
    let mut b = B::wire_layout();
    let mut c = C::wire_layout();
    layout.append(&mut b);
    layout.append(&mut c);
    let back = layout.clone();
    CircuitIso::new(pass_through(layout), pass_through(back))
}

/// The wired left unitor `I ⊗ A ≅ A`.
pub fn wired_left_unitor<A: Object>() -> (r: CircuitIso<CircuitTensor<CircuitUnit, A>, A>)
    ensures
        r.forward_spec() == pass_through_spec(A::layout()),
        r.backward_spec() == pass_through_spec(A::layout()),
{
    let layout = A::wire_layout();
    let back = layout.clone();
    CircuitIso::new(pass_through(layout), pass_through(back))
}

/// The wired right unitor `A ⊗ I ≅ A`.
pub fn wired_right_unitor<A: Object>() -> (r: CircuitIso<CircuitTensor<A, CircuitUnit>, A>)
    ensures
        r.forward_spec() == pass_through_spec(A::layout()),
        r.backward_spec() == pass_through_spec(A::layout()),
{
    let layout = A::wire_layout();
    let back = layout.clone();
    CircuitIso::new(pass_through(layout), pass_through(back))
}

/// The wire ids `ids[lo..hi]` of a list of wire ids.
fn id_range(ids: &Vec<WireId>, lo: usize, hi: usize) -> (r: Vec<WireId>)
    requires
        lo <= hi <= ids@.len(),
    ensures
        r@ == ids@.subrange(lo as int, hi as int),
{
    let mut out: Vec<WireId> = Vec::new();
    let mut i: usize = lo;
    while i < hi
        invariant
            lo <= i <= hi,
            hi <= ids@.len(),
            out@ == ids@.subrange(lo as int, i as int),
        decreases hi - i,
    {
        out.push(ids[i]);
        proof {
            assert(out@ =~= ids@.subrange(lo as int, i + 1));
        }
        i = i + 1;
    }
    out
}

fn braid_arrow<S, T>(la: Vec<WireTy>, lb: Vec<WireTy>) -> (r: CircuitArrow<S, T>)
    ensures
        r@ == braid_spec(la@, lb@),
{
    let ghost sa = la@;
    let ghost sb = lb@;
    let a_count = la.len();
    let mut layout = la;
    let mut b = lb;
    layout.append(&mut b);
    let (graph, ids) = declare_wires(layout);
    let mut outs = id_range(&ids, a_count, ids.len());
    let mut front = id_range(&ids, 0, a_count);
    outs.append(&mut front);
    let r = CircuitArrow::from_raw_parts(graph, ids, outs);
    proof {
        assert(r@.graph.instrs =~= Seq::<InstrSpec>::empty());
        assert(wire_ids(0, sa.len() + sb.len()).subrange(sa.len() as int, (sa.len() + sb.len()) as int)
            =~= wire_ids(sa.len(), sb.len()));
        assert(wire_ids(0, sa.len() + sb.len()).subrange(0, sa.len() as int) =~= wire_ids(0, sa.len()));
        assert(r@.outputs =~= braid_spec(sa, sb).outputs);
    }
    r
}

/// The wired braiding `A ⊗ B ≅ B ⊗ A`: forward declares `A`'s wires
/// then `B`'s and outputs `B`'s block before `A`'s; backward does the
/// same with the roles exchanged.
pub fn wired_braid<A: Object, B: Object>() -> (r: CircuitIso<CircuitTensor<A, B>, CircuitTensor<B, A>>)
    ensures
        r.forward_spec() == braid_spec(A::layout(), B::layout()),
        r.backward_spec() == braid_spec(B::layout(), A::layout()),
{
    let forward = braid_arrow(A::wire_layout(), B::wire_layout());
    let backward = braid_arrow(B::wire_layout(), A::wire_layout());
    CircuitIso::new(forward, backward)
}

/// Substituting through identity-numbered inputs `s, s+1, ...` picks
/// the output at the wire's offset.
pub proof fn lemma_subst_through_ids(s: nat, n: nat, fout: Seq<WireId>, off: nat, w: WireId)
    requires
        s <= w.0 < s + n,
        n <= fout.len(),
        s + n <= usize::MAX,
    ensures
        subst_wire(wire_ids(s, n), fout, off, w) == fout[w.0 - s],
    decreases n,
{
    let gin = wire_ids(s, n);
    if w.0 as nat == s {
    } else {
        assert(gin.drop_first() =~= wire_ids(s + 1, (n - 1) as nat));
        lemma_subst_through_ids(s + 1, (n - 1) as nat, fout.drop_first(), off, w);
    }
}

/// Law (coherence isomorphisms are inverse, in wiring): composing the
/// forward braid with the backward braid routes every input wire back
/// to the output in the same position.
pub proof fn lemma_braid_round_trip(la: Seq<WireTy>, lb: Seq<WireTy>)
    requires
        la.len() + lb.len() <= usize::MAX,
    ensures
        compose_spec(braid_spec(la, lb), braid_spec(lb, la)).outputs
            == compose_spec(braid_spec(la, lb), braid_spec(lb, la)).inputs,
{
    let f = braid_spec(la, lb);
    let g = braid_spec(lb, la);
    let na = la.len();
    let nb = lb.len();
    let c = compose_spec(f, g);
    assert forall|k: int| 0 <= k < na + nb implies #[trigger] c.outputs[k] == c.inputs[k] by {
        let w = g.outputs[k];
        lemma_subst_through_ids(0, na + nb, f.outputs, f.graph.wires.len(), w);
        if k < na {
            assert(w == WireId((nb + k) as usize));
        } else {
            assert(w == WireId((k - na) as usize));
        }
    }
    assert(c.outputs =~= c.inputs);
}

/// Law (coherence isomorphisms are inverse, in wiring): composing two
/// pass-through arrows over the same layout routes every input wire to
/// the output in the same position.
pub proof fn lemma_pass_through_round_trip(layout: Seq<WireTy>)
    requires
        layout.len() <= usize::MAX,
    ensures
        compose_spec(pass_through_spec(layout), pass_through_spec(layout)).outputs
            == compose_spec(pass_through_spec(layout), pass_through_spec(layout)).inputs,
{
    let f = pass_through_spec(layout);
    let c = compose_spec(f, f);
    let n = layout.len();
    assert forall|k: int| 0 <= k < n implies #[trigger] c.outputs[k] == c.inputs[k] by {
        lemma_subst_through_ids(0, n, f.outputs, n, f.outputs[k]);
    }
    assert(c.outputs =~= c.inputs);
}

} // verus!
