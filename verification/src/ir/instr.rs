//! Instructions: one op applied to input wires, writing one output wire.

use vstd::prelude::*;

use crate::ir::op::{Op, OpSpec, arity, op_text};
use crate::ir::wire::{WireId, wire_text};

verus! {

/// The mathematical content of an [`Instruction`].
pub ghost struct InstrSpec {
    pub op: OpSpec,
    pub inputs: Seq<WireId>,
    pub output: WireId,
}

/// A single gate invocation: reads its input wires, applies its op,
/// writes its output wire.  The number of inputs always equals the
/// op's arity.
#[derive(Debug, PartialEq, Eq)]
pub struct Instruction {
    op: Op,
    inputs: Vec<WireId>,
    output: WireId,
}

impl View for Instruction {
    type V = InstrSpec;

    closed spec fn view(&self) -> InstrSpec {
        InstrSpec { op: self.op@, inputs: self.inputs@, output: self.output }
    }
}

/// The graph-edge source of an instruction: its first input, or its
/// output when it has none.
pub open spec fn primary_source(i: InstrSpec) -> WireId {
    if i.inputs.len() > 0 {
        i.inputs[0]
    } else {
        i.output
    }
}

/// `w2 = add w0, w1`.
pub open spec fn instr_text(i: InstrSpec) -> Seq<char> {
    wire_text(i.output.0 as nat) + " = "@ + op_text(i.op) + operands_text(i.inputs)
}

/// Operands as ` w0, w1` (leading space, comma separated).
pub open spec fn operands_text(ws: Seq<WireId>) -> Seq<char>
    decreases ws.len(),
{
    if ws.len() == 0 {
        Seq::empty()
    } else if ws.len() == 1 {
        " "@ + wire_text(ws[0].0 as nat)
    } else {
        operands_text(ws.drop_last()) + ", "@ + wire_text(ws.last().0 as nat)
    }
}

impl Clone for Instruction {
    fn clone(&self) -> (r: Self)
        ensures
            r@ == self@,
    {
        proof {
            use_type_invariant(self);
        }
        Instruction { op: self.op.clone(), inputs: self.inputs.clone(), output: self.output }
    }
}

impl Instruction {
    #[verifier::type_invariant]
    spec fn inv(self) -> bool {
        self.inputs@.len() == arity(self.op@)
    }

    /// Build an instruction; `None` when the number of inputs differs
    /// from the op's arity.
    pub fn new(op: Op, inputs: Vec<WireId>, output: WireId) -> (r: Option<Instruction>)
        ensures
            r is Some <==> inputs@.len() == arity(op@),
            r matches Some(i) ==> i@ == (InstrSpec { op: op@, inputs: inputs@, output }),
    {
        if inputs.len() == op.arity() {
            Some(Instruction { op, inputs, output })
        } else {
            None
        }
    }

    /// The operation performed.
    pub fn op(&self) -> (r: &Op)
        ensures
            r@ == self@.op,
            self@.inputs.len() == arity(self@.op),
    {
        proof {
            use_type_invariant(self);
        }
        &self.op
    }

    /// The input wires, in order.
    pub fn inputs(&self) -> (r: &[WireId])
        ensures
            r@ == self@.inputs,
            self@.inputs.len() == arity(self@.op),
    {
        proof {
            use_type_invariant(self);
        }
        self.inputs.as_slice()
    }

    /// The output wire.
    pub fn output(&self) -> (r: WireId)
        ensures
            r == self@.output,
    {
        self.output
    }

    /// The first input, or the output for zero-input ops.
    pub fn primary_source(&self) -> (r: WireId)
        ensures
            r == primary_source(self@),
    {
        if self.inputs.len() > 0 {
            self.inputs[0]
        } else {
            self.output
        }
    }

    /// The display text, e.g. `w2 = add w0, w1`.
    pub fn to_display_string(&self) -> (r: String)
        ensures
            r@ == instr_text(self@),
    {
        proof {
            reveal_strlit(" = ");
            reveal_strlit(" ");
            reveal_strlit(", ");
        }
        let mut s = self.output.to_display_string();
        s.append(" = ");
        self.op.push_display(&mut s);
        let ghost head = s@;
        let mut i: usize = 0;
        proof {
            assert(self@.inputs.take(0) =~= Seq::<WireId>::empty());
            assert(s@ =~= head + operands_text(self@.inputs.take(0)));
        }
        while i < self.inputs.len()
            invariant
                i <= self@.inputs.len(),
                self@.inputs == self.inputs@,
                s@ == head + operands_text(self@.inputs.take(i as int)),
            decreases self@.inputs.len() - i,
        {
            if i == 0 {
                s.append(" ");
            } else {
                s.append(", ");
            }
            let w = self.inputs[i].to_display_string();
            s.append(w.as_str());
            proof {
                let t = self@.inputs.take(i + 1);
                assert(t.drop_last() =~= self@.inputs.take(i as int));
                assert(t.last() == self@.inputs[i as int]);
                if i == 0 {
                    assert(t[0] == self@.inputs[0]);
                }
            }
            i = i + 1;
        }
        proof {
            assert(self@.inputs.take(self@.inputs.len() as int) =~= self@.inputs);
            assert(s@ =~= instr_text(self@));
        }
        s
    }
}

} // verus!
