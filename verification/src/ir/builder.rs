//! An accumulating builder for [`HdlGraph`]: every method consumes the
//! builder and returns the extended one.

use vstd::prelude::*;

use crate::error::{Error, TypeName};
use crate::ir::graph::{GraphSpec, HdlGraph, instr_views};
use crate::ir::instr::{InstrSpec, Instruction};
use crate::ir::op::{Op, arity};
use crate::ir::wire::{WireId, WireTy};
use crate::text::{decimal, push_decimal};

verus! {

/// `<n> inputs`, the type name used in arity diagnostics.
pub open spec fn inputs_text(n: nat) -> Seq<char> {
    decimal(n) + " inputs"@
}

/// An immutable, accumulating builder for an [`HdlGraph`].
#[derive(Debug)]
pub struct HdlGraphBuilder {
    wires: Vec<WireTy>,
    instructions: Vec<Instruction>,
}

impl View for HdlGraphBuilder {
    type V = GraphSpec;

    closed spec fn view(&self) -> GraphSpec {
        GraphSpec { wires: self.wires@, instrs: instr_views(self.instructions@) }
    }
}

fn inputs_name(n: usize) -> (r: TypeName)
    ensures
        r@ == inputs_text(n as nat),
{
    proof {
        reveal_strlit(" inputs");
    }
    let mut s = String::new();
    push_decimal(&mut s, n as u128);
    s.append(" inputs");
    proof {
        assert(s@ =~= inputs_text(n as nat));
    }
    TypeName::from_string(s)
}

impl HdlGraphBuilder {
    /// An empty builder.
    pub fn new() -> (r: Self)
        ensures
            r@.wires.len() == 0,
            r@.instrs.len() == 0,
    {
        let r = HdlGraphBuilder { wires: Vec::new(), instructions: Vec::new() };
        proof {
            assert(r@.instrs =~= Seq::<InstrSpec>::empty());
        }
        r
    }

    /// Append a wire of type `ty`; its id is the number of wires
    /// declared before it.
    pub fn with_wire(self, ty: WireTy) -> (r: (Self, WireId))
        ensures
            r.0@.wires == self@.wires.push(ty),
            r.0@.instrs == self@.instrs,
            r.1.0 == self@.wires.len(),
            r.0@ == apply_steps(self@, seq![BuildStep::Wire(ty)]),
    {
        let id = WireId::new(self.wires.len());
        let mut wires = self.wires;
        wires.push(ty);
        let r = HdlGraphBuilder { wires, instructions: self.instructions };
        proof {
            let st = seq![BuildStep::Wire(ty)];
            assert(st.drop_last() =~= Seq::<BuildStep>::empty());
            assert(st.last() == BuildStep::Wire(ty));
            assert(apply_steps(self@, Seq::<BuildStep>::empty()) == self@);
            assert(apply_steps(self@, st) == GraphSpec { wires: self@.wires.push(ty), instrs: self@.instrs });
        }
        (r, id)
    }

    /// Append the instruction `op(inputs) -> output`.  Fails with a
    /// type mismatch (`"<arity> inputs"` expected, `"<given> inputs"`
    /// actual) when the number of inputs differs from the op's arity.
    pub fn with_instruction(self, op: Op, inputs: Vec<WireId>, output: WireId) -> (r: Result<Self, Error>)
        ensures
            r is Ok <==> inputs@.len() == arity(op@),
            r matches Ok(b) ==> b@.wires == self@.wires && b@.instrs == self@.instrs.push(
                InstrSpec { op: op@, inputs: inputs@, output },
            ),
            r matches Ok(b) ==> b@ == apply_steps(
                self@,
                seq![BuildStep::Instr(InstrSpec { op: op@, inputs: inputs@, output })],
            ),
            r matches Err(e) ==> e matches Error::TypeMismatch { expected, actual } && expected@
                == inputs_text(arity(op@)) && actual@ == inputs_text(inputs@.len()),
    {
        let n_arity = op.arity();
        let provided = inputs.len();
        match Instruction::new(op, inputs, output) {
            Some(instr) => {
                let mut instructions = self.instructions;
                let ghost before = instructions@;
                instructions.push(instr);
                proof {
                    assert(instr_views(instructions@) =~= instr_views(before).push(instr@));
                    let st = seq![BuildStep::Instr(instr@)];
                    assert(st.drop_last() =~= Seq::<BuildStep>::empty());
                    assert(st.last() == BuildStep::Instr(instr@));
                    assert(apply_steps(self@, Seq::<BuildStep>::empty()) == self@);
                    assert(apply_steps(self@, st) == GraphSpec {
                        wires: self@.wires,
                        instrs: self@.instrs.push(instr@),
                    });
                }
                Ok(HdlGraphBuilder { wires: self.wires, instructions })
            },
            None => Err(Error::TypeMismatch { expected: inputs_name(n_arity), actual: inputs_name(provided) }),
        }
    }

    /// Finish the graph.
    pub fn build(self) -> (r: HdlGraph)
        ensures
            r@ == self@,
    {
        HdlGraph::from_parts(self.wires, self.instructions)
    }
}

/// One successful builder call: declaring a wire of a type, or
/// appending an instruction.
pub ghost enum BuildStep {
    Wire(WireTy),
    Instr(InstrSpec),
}

/// What successful builder calls do to the graph `g`, each as its
/// contract states (`with_wire` appends a wire type,
/// `with_instruction` an instruction), in call order.
pub open spec fn apply_steps(g: GraphSpec, steps: Seq<BuildStep>) -> GraphSpec
    decreases steps.len(),
{
    if steps.len() == 0 {
        g
    } else {
        let p = apply_steps(g, steps.drop_last());
        match steps.last() {
            BuildStep::Wire(t) => GraphSpec { wires: p.wires.push(t), instrs: p.instrs },
            BuildStep::Instr(i) => GraphSpec { wires: p.wires, instrs: p.instrs.push(i) },
        }
    }
}

/// The wire types among the calls, in call order.
pub open spec fn step_wires(steps: Seq<BuildStep>) -> Seq<WireTy>
    decreases steps.len(),
{
    if steps.len() == 0 {
        Seq::empty()
    } else {
        match steps.last() {
            BuildStep::Wire(t) => step_wires(steps.drop_last()).push(t),
            BuildStep::Instr(_) => step_wires(steps.drop_last()),
        }
    }
}

/// The instructions among the calls, in call order.
pub open spec fn step_instrs(steps: Seq<BuildStep>) -> Seq<InstrSpec>
    decreases steps.len(),
{
    if steps.len() == 0 {
        Seq::empty()
    } else {
        match steps.last() {
            BuildStep::Wire(_) => step_instrs(steps.drop_last()),
            BuildStep::Instr(i) => step_instrs(steps.drop_last()).push(i),
        }
    }
}

/// Building from a builder `g`: any interleaving of successful
/// `with_wire` and `with_instruction` calls leaves `g`'s wires followed
/// by the declared wire types in call order, and `g`'s instructions
/// followed by the appended instructions in call order.  From
/// `HdlGraphBuilder::new()` (no wires, no instructions), the graph that
/// `build` returns holds exactly the declared wires and the appended
/// instructions, each in call order.
pub proof fn lemma_build_in_call_order(g: GraphSpec, steps: Seq<BuildStep>)
    ensures
        apply_steps(g, steps).wires == g.wires + step_wires(steps),
        apply_steps(g, steps).instrs == g.instrs + step_instrs(steps),
    decreases steps.len(),
{
    if steps.len() == 0 {
        assert(g.wires + Seq::<WireTy>::empty() =~= g.wires);
        assert(g.instrs + Seq::<InstrSpec>::empty() =~= g.instrs);
    } else {
        lemma_build_in_call_order(g, steps.drop_last());
        match steps.last() {
            BuildStep::Wire(t) => {
                assert(g.wires + step_wires(steps.drop_last()).push(t) =~= (g.wires + step_wires(
                    steps.drop_last(),
                )).push(t));
            },
            BuildStep::Instr(i) => {
                assert(g.instrs + step_instrs(steps.drop_last()).push(i) =~= (g.instrs + step_instrs(
                    steps.drop_last(),
                )).push(i));
            },
        }
    }
}

/// Calls made one after another: the steps of the first run, then
/// those of the second.
pub proof fn lemma_apply_steps_append(g: GraphSpec, a: Seq<BuildStep>, b: Seq<BuildStep>)
    ensures
        apply_steps(apply_steps(g, a), b) == apply_steps(g, a + b),
    decreases b.len(),
{
    if b.len() == 0 {
        assert(a + b =~= a);
    } else {
        lemma_apply_steps_append(g, a, b.drop_last());
        assert((a + b).drop_last() =~= a + b.drop_last());
        assert((a + b).last() == b.last());
    }
}

} // verus!
