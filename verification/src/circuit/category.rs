//! The circuit category itself: identities, composition, tensor, and
//! the structural isomorphisms.

use vstd::prelude::*;

use crate::circuit::arrow::{
    ArrowSpec, CircuitArrow, compose_arrows, compose_spec, declare_wires, identity_arrow,
    refs_below, shift_room, tensor_arrows, tensor_spec, wire_ids,
};
use crate::circuit::object::{CircuitTensor, CircuitUnit, Obj, Object};
use vstd::std_specs::convert::FromSpecImpl;

verus! {

/// A pair of mutually inverse circuits between two objects.
#[derive(Debug)]
pub struct CircuitIso<A, B> {
    forward: CircuitArrow<A, B>,
    backward: CircuitArrow<B, A>,
}

impl<A, B> CircuitIso<A, B> {
    /// Pair a forward circuit with its inverse.
    pub fn new(forward: CircuitArrow<A, B>, backward: CircuitArrow<B, A>) -> (r: Self)
        ensures
            r.forward_spec() == forward@,
            r.backward_spec() == backward@,
    {
        CircuitIso { forward, backward }
    }

    /// The forward circuit's content.
    pub closed spec fn forward_spec(&self) -> ArrowSpec {
        self.forward@
    }

    /// The backward circuit's content.
    pub closed spec fn backward_spec(&self) -> ArrowSpec {
        self.backward@
    }

    /// The forward circuit `A -> B`.
    pub fn forward(&self) -> (r: &CircuitArrow<A, B>)
        ensures
            r@ == self.forward_spec(),
    {
        &self.forward
    }

    /// The backward circuit `B -> A`.
    pub fn backward(&self) -> (r: &CircuitArrow<B, A>)
        ensures
            r@ == self.backward_spec(),
    {
        &self.backward
    }

    /// Keep only the forward circuit.
    pub fn into_forward(self) -> (r: CircuitArrow<A, B>)
        ensures
            r@ == self.forward_spec(),
    {
        self.forward
    }

    /// Keep only the backward circuit.
    pub fn into_backward(self) -> (r: CircuitArrow<B, A>)
        ensures
            r@ == self.backward_spec(),
    {
        self.backward
    }

    /// Swap the two directions.
    pub fn flip(self) -> (r: CircuitIso<B, A>)
        ensures
            r.forward_spec() == self.backward_spec(),
            r.backward_spec() == self.forward_spec(),
    {
        CircuitIso { forward: self.backward, backward: self.forward }
    }
}

/// The empty arrow: no wires, no ports, no instructions.
pub open spec fn empty_arrow_spec(a: ArrowSpec) -> bool {
    &&& a.graph.wires.len() == 0
    &&& a.graph.instrs.len() == 0
    &&& a.inputs.len() == 0
    &&& a.outputs.len() == 0
}

fn empty_arrow<A, B>() -> (r: CircuitArrow<A, B>)
    ensures
        empty_arrow_spec(r@),
{
    let (graph, ids) = declare_wires(Vec::new());
    CircuitArrow::from_raw_parts(graph, ids, Vec::new())
}

/// The category of circuits.
#[derive(Clone, Copy, Debug)]
pub struct Circuit;

impl Circuit {
    /// The identity on `A` as the category supplies it: an empty arrow
    /// (no layout is known here; [`wired_identity`] wires one up).
    pub fn id<A>(_a: &A) -> (r: CircuitArrow<A, A>)
        ensures
            empty_arrow_spec(r@),
    {
        empty_arrow()
    }

    /// Sequential composition `f ; g`.
    pub fn comp<A, B, C>(f: CircuitArrow<A, B>, g: CircuitArrow<B, C>) -> (r: CircuitArrow<A, C>)
        requires
            refs_below(g@, shift_room(f@.graph.wires.len())),
        ensures
            r@ == compose_spec(f@, g@),
    {
        compose_arrows(f, g)
    }

    /// Parallel composition `f ⊗ g`.
    pub fn tensor_map<A, B, C, D>(f: CircuitArrow<A, B>, g: CircuitArrow<C, D>) -> (r: CircuitArrow<
        CircuitTensor<A, C>,
        CircuitTensor<B, D>,
    >)
        requires
            refs_below(g@, shift_room(f@.graph.wires.len())),
        ensures
            r@ == tensor_spec(f@, g@),
    {
        tensor_arrows(f, g)
    }

    /// `(A ⊗ B) ⊗ C ≅ A ⊗ (B ⊗ C)`: the flat wire list is the same on
    /// both sides, so both directions are empty arrows.
    pub fn associator<A, B, C>() -> (r: CircuitIso<
        CircuitTensor<CircuitTensor<A, B>, C>,
        CircuitTensor<A, CircuitTensor<B, C>>,
    >)
        ensures
            empty_arrow_spec(r.forward_spec()),
            empty_arrow_spec(r.backward_spec()),
    {
        CircuitIso::new(empty_arrow(), empty_arrow())
    }

    /// `I ⊗ A ≅ A`, as empty arrows.
    pub fn left_unitor<A>() -> (r: CircuitIso<CircuitTensor<CircuitUnit, A>, A>)
        ensures
            empty_arrow_spec(r.forward_spec()),
            empty_arrow_spec(r.backward_spec()),
    {
        CircuitIso::new(empty_arrow(), empty_arrow())
    }

    /// `A ⊗ I ≅ A`, as empty arrows.
    pub fn right_unitor<A>() -> (r: CircuitIso<CircuitTensor<A, CircuitUnit>, A>)
        ensures
            empty_arrow_spec(r.forward_spec()),
            empty_arrow_spec(r.backward_spec()),
    {
        CircuitIso::new(empty_arrow(), empty_arrow())
    }

    /// `A ⊗ B ≅ B ⊗ A`, as empty arrows ([`crate::circuit::coherence::wired_braid`]
    /// wires the swap).
    pub fn braid<A, B>() -> (r: CircuitIso<CircuitTensor<A, B>, CircuitTensor<B, A>>)
        ensures
            empty_arrow_spec(r.forward_spec()),
            empty_arrow_spec(r.backward_spec()),
    {
        CircuitIso::new(empty_arrow(), empty_arrow())
    }
}

/// The identity on `A` with one real pass-through wire per element of
/// `A`'s layout.
pub fn wired_identity<A: Object>() -> (r: CircuitArrow<A, A>)
    ensures
        r@.graph.wires == A::layout(),
        r@.graph.instrs.len() == 0,
        r@.inputs == wire_ids(0, A::layout().len()),
        r@.outputs == r@.inputs,
{
    identity_arrow::<A>()
}

impl<T> From<Obj<T>> for Circuit {
    fn from(o: Obj<T>) -> (r: Circuit) {
        Circuit
    }
}

impl<T> FromSpecImpl<Obj<T>> for Circuit {
    open spec fn obeys_from_spec() -> bool {
        true
    }

    open spec fn from_spec(v: Obj<T>) -> Circuit {
        Circuit
    }
}

impl<A, B> From<CircuitTensor<A, B>> for Circuit {
    fn from(o: CircuitTensor<A, B>) -> (r: Circuit) {
        Circuit
    }
}

impl<A, B> FromSpecImpl<CircuitTensor<A, B>> for Circuit {
    open spec fn obeys_from_spec() -> bool {
        true
    }

    open spec fn from_spec(v: CircuitTensor<A, B>) -> Circuit {
        Circuit
    }
}

impl From<CircuitUnit> for Circuit {
    fn from(o: CircuitUnit) -> (r: Circuit) {
        Circuit
    }
}

impl FromSpecImpl<CircuitUnit> for Circuit {
    open spec fn obeys_from_spec() -> bool {
        true
    }

    open spec fn from_spec(v: CircuitUnit) -> Circuit {
        Circuit
    }
}

} // verus!
