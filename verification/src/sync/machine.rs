//! The [`Sync`] machine: a combinational arrow `(S ⊗ I) → (S ⊗ O)` plus
//! an initial state.

use vstd::prelude::*;
use core::marker::PhantomData;

use crate::bit_seq::BitSeq;
use crate::circuit::arrow::{ArrowSpec, CircuitArrow};
use crate::circuit::object::{CircuitUnit, Object};
use crate::error::Error;
use crate::ir::graph::{GraphSpec, HdlGraph, instr_views};
use crate::ir::instr::{InstrSpec, Instruction};
use crate::ir::wire::WireId;

verus! {

/// The mathematical content of a [`Sync`] machine.
pub ghost struct SyncSpec {
    pub graph: GraphSpec,
    pub inputs: Seq<WireId>,
    pub outputs: Seq<WireId>,
    pub init: Seq<bool>,
    pub state_count: nat,
}

/// The graph and ports of a machine, viewed as an arrow.
pub open spec fn port_view(m: SyncSpec) -> ArrowSpec {
    ArrowSpec { graph: m.graph, inputs: m.inputs, outputs: m.outputs }
}

/// The first `state_count` inputs and outputs are state wires.
pub open spec fn state_split_ok(m: SyncSpec) -> bool {
    m.state_count <= m.inputs.len() && m.state_count <= m.outputs.len()
}

/// A Mealy machine with state `S`, input `I` and output `O`.
///
/// The input wires are the state wires followed by the data inputs;
/// the output wires are the next-state wires followed by the data
/// outputs.  `state_wire_count` says how many leading wires on each
/// side carry state.
#[derive(Debug)]
pub struct Sync<S, I, O> {
    arrow_ir: HdlGraph,
    input_wires: Vec<WireId>,
    output_wires: Vec<WireId>,
    initial_state: BitSeq,
    state_wire_count: usize,
    _phantom: PhantomData<(S, I, O)>,
}

impl<S, I, O> View for Sync<S, I, O> {
    type V = SyncSpec;

    closed spec fn view(&self) -> SyncSpec {
        SyncSpec {
            graph: self.arrow_ir@,
            inputs: self.input_wires@,
            outputs: self.output_wires@,
            init: self.initial_state@,
            state_count: self.state_wire_count as nat,
        }
    }
}

impl<S, I, O> Sync<S, I, O> {
    /// The combinational graph.
    pub fn graph(&self) -> (r: &HdlGraph)
        ensures
            r@ == self@.graph,
    {
        &self.arrow_ir
    }

    /// The input wires: state wires, then data inputs.
    pub fn input_wires(&self) -> (r: &[WireId])
        ensures
            r@ == self@.inputs,
    {
        self.input_wires.as_slice()
    }

    /// The output wires: next-state wires, then data outputs.
    pub fn output_wires(&self) -> (r: &[WireId])
        ensures
            r@ == self@.outputs,
    {
        self.output_wires.as_slice()
    }

    /// The state at cycle 0.
    pub fn initial_state(&self) -> (r: &BitSeq)
        ensures
            r@ == self@.init,
    {
        &self.initial_state
    }

    /// How many leading input and output wires carry state.
    pub fn state_wire_count(&self) -> (r: usize)
        ensures
            r == self@.state_count,
    {
        self.state_wire_count
    }

    /// Take the machine apart.
    pub fn into_parts(self) -> (r: (HdlGraph, Vec<WireId>, Vec<WireId>, BitSeq, usize))
        ensures
            r.0@ == self@.graph,
            r.1@ == self@.inputs,
            r.2@ == self@.outputs,
            r.3@ == self@.init,
            r.4 == self@.state_count,
    {
        (self.arrow_ir, self.input_wires, self.output_wires, self.initial_state, self.state_wire_count)
    }
}

impl<S: Object, I: Object, O: Object> Sync<S, I, O> {
    /// Build a machine from an arrow `(S ⊗ I) → (S ⊗ O)` and an initial
    /// state.  Fails with a width mismatch when the arrow's port counts
    /// differ from the objects' wire counts (reported as the summed
    /// input and output counts), or when the initial state's length is
    /// not `S::WIDTH`.
    pub fn from_arrow<AI, AO>(arrow: CircuitArrow<AI, AO>, initial_state: BitSeq) -> (r: Result<Self, Error>)
        requires
            2 * S::layout().len() + I::layout().len() + O::layout().len() <= usize::MAX,
            arrow@.inputs.len() + arrow@.outputs.len() <= usize::MAX,
        ensures
            ({
                let ports_ok = arrow@.inputs.len() == S::layout().len() + I::layout().len()
                    && arrow@.outputs.len() == S::layout().len() + O::layout().len();
                &&& r is Ok <==> ports_ok && initial_state@.len() == S::WIDTH
                &&& !ports_ok ==> (r matches Err(e) && e.is_width_mismatch(
                    2 * S::layout().len() + I::layout().len() + O::layout().len(),
                    arrow@.inputs.len() + arrow@.outputs.len(),
                ))
                &&& ports_ok && initial_state@.len() != S::WIDTH ==> (r matches Err(e) && e.is_width_mismatch(
                    S::WIDTH as nat,
                    initial_state@.len(),
                ))
                &&& r matches Ok(m) ==> m@ == (SyncSpec {
                    graph: arrow@.graph,
                    inputs: arrow@.inputs,
                    outputs: arrow@.outputs,
                    init: initial_state@,
                    state_count: S::layout().len(),
                })
            }),
    {
        let state_wires = S::wire_layout().len();
        let input_wires = I::wire_layout().len();
        let output_wires = O::wire_layout().len();
        let expected_inputs = state_wires + input_wires;
        let expected_outputs = state_wires + output_wires;
        if !(arrow.inputs().len() == expected_inputs && arrow.outputs().len() == expected_outputs) {
            return Err(Error::width_mismatch(
                expected_inputs + expected_outputs,
                arrow.inputs().len() + arrow.outputs().len(),
            ));
        }
        if initial_state.len() != S::WIDTH {
            return Err(Error::width_mismatch(S::WIDTH, initial_state.len()));
        }
        let (graph, inputs, outputs) = arrow.into_raw_parts();
        Ok(Sync {
            arrow_ir: graph,
            input_wires: inputs,
            output_wires: outputs,
            initial_state,
            state_wire_count: state_wires,
            _phantom: PhantomData,
        })
    }
}

impl<I: Object, O: Object> Sync<CircuitUnit, I, O> {
    /// A stateless machine running `arrow` every cycle.
    pub fn lift_comb(arrow: CircuitArrow<I, O>) -> (r: Self)
        ensures
            r@ == (SyncSpec {
                graph: arrow@.graph,
                inputs: arrow@.inputs,
                outputs: arrow@.outputs,
                init: Seq::empty(),
                state_count: 0,
            }),
    {
        let (graph, inputs, outputs) = arrow.into_raw_parts();
        Sync {
            arrow_ir: graph,
            input_wires: inputs,
            output_wires: outputs,
            initial_state: BitSeq::new(),
            state_wire_count: 0,
            _phantom: PhantomData,
        }
    }
}

/// Assemble a machine from its raw parts, unchecked.
pub fn from_raw<S, I, O>(
    graph: HdlGraph,
    input_wires: Vec<WireId>,
    output_wires: Vec<WireId>,
    initial_state: BitSeq,
    state_wire_count: usize,
) -> (r: Sync<S, I, O>)
    ensures
        r@ == (SyncSpec {
            graph: graph@,
            inputs: input_wires@,
            outputs: output_wires@,
            init: initial_state@,
            state_count: state_wire_count as nat,
        }),
{
    Sync { arrow_ir: graph, input_wires, output_wires, initial_state, state_wire_count, _phantom: PhantomData }
}

/// The machine with an empty graph, no ports and no state.
pub fn empty_sync<S, I, O>() -> (r: Sync<S, I, O>)
    ensures
        r@.graph.wires.len() == 0,
        r@.graph.instrs.len() == 0,
        r@.inputs.len() == 0,
        r@.outputs.len() == 0,
        r@.init.len() == 0,
        r@.state_count == 0,
{
    let instrs: Vec<Instruction> = Vec::new();
    let graph = HdlGraph::from_parts(Vec::new(), instrs);
    proof {
        assert(instr_views(instrs@) =~= Seq::<InstrSpec>::empty());
    }
    Sync {
        arrow_ir: graph,
        input_wires: Vec::new(),
        output_wires: Vec::new(),
        initial_state: BitSeq::new(),
        state_wire_count: 0,
        _phantom: PhantomData,
    }
}

} // verus!
