//! The IR graph: typed wires plus gate instructions, with a graph view
//! in which each wire is a vertex and each instruction an edge from its
//! primary input to its output.

use vstd::prelude::*;

use comp_cat_rs::collapse::free_category::{Edge, FreeCategoryError};

use crate::ir::instr::{InstrSpec, Instruction, primary_source};
use crate::ir::wire::{WireTy, ty_width};

verus! {

/// The mathematical content of an [`HdlGraph`].
pub ghost struct GraphSpec {
    pub wires: Seq<WireTy>,
    pub instrs: Seq<InstrSpec>,
}

/// The instruction views of a list of instructions.
pub open spec fn instr_views(is: Seq<Instruction>) -> Seq<InstrSpec> {
    is.map_values(|i: Instruction| i@)
}

/// The sum of the per-element widths of a list of wire types.
pub open spec fn width_sum(ws: Seq<WireTy>) -> nat
    decreases ws.len(),
{
    if ws.len() == 0 {
        0
    } else {
        width_sum(ws.drop_last()) + ty_width(ws.last()) as nat
    }
}

/// A flat list of typed wires and a flat list of instructions.
///
/// Viewed as a graph, wire `i` is vertex `i`, and instruction `e` is an
/// edge from its primary source (first input, or output for constants)
/// to its output.
#[derive(Debug)]
pub struct HdlGraph {
    pub(crate) wires: Vec<WireTy>,
    pub(crate) instructions: Vec<Instruction>,
}

impl View for HdlGraph {
    type V = GraphSpec;

    closed spec fn view(&self) -> GraphSpec {
        GraphSpec { wires: self.wires@, instrs: instr_views(self.instructions@) }
    }
}

/// Builds `FreeCategoryError::EdgeOutOfBounds` for edge index `edge`
/// in a graph with `count` edges.  The error value is opaque here, so
/// nothing is stated of it.
#[verifier::external_body]
fn edge_out_of_bounds(edge: usize, count: usize) -> FreeCategoryError {
    FreeCategoryError::EdgeOutOfBounds { edge: Edge::new(edge), count }
}

impl Clone for HdlGraph {
    fn clone(&self) -> (r: Self)
        ensures
            r@ == self@,
    {
        let mut instructions: Vec<Instruction> = Vec::new();
        let mut i: usize = 0;
        while i < self.instructions.len()
            invariant
                i <= self.instructions@.len(),
                instructions@.len() == i,
                forall|j: int| 0 <= j < i ==> #[trigger] instructions@[j]@ == self.instructions@[j]@,
            decreases self.instructions@.len() - i,
        {
            instructions.push(self.instructions[i].clone());
            i = i + 1;
        }
        let r = HdlGraph { wires: self.wires.clone(), instructions };
        proof {
            assert(instr_views(r.instructions@) =~= instr_views(self.instructions@));
        }
        r
    }
}

impl HdlGraph {
    /// Assemble a graph from its wire and instruction lists.
    pub(crate) fn from_parts(wires: Vec<WireTy>, instructions: Vec<Instruction>) -> (r: HdlGraph)
        ensures
            r@ == (GraphSpec { wires: wires@, instrs: instr_views(instructions@) }),
    {
        HdlGraph { wires, instructions }
    }

    /// Take the graph apart into its wire and instruction lists.
    pub(crate) fn into_parts(self) -> (r: (Vec<WireTy>, Vec<Instruction>))
        ensures
            r.0@ == self@.wires,
            instr_views(r.1@) == self@.instrs,
    {
        (self.wires, self.instructions)
    }

    /// The wire types, indexed by wire id.
    pub fn wires(&self) -> (r: &[WireTy])
        ensures
            r@ == self@.wires,
    {
        self.wires.as_slice()
    }

    /// The instructions in declaration order.
    pub fn instructions(&self) -> (r: &[Instruction])
        ensures
            instr_views(r@) == self@.instrs,
            r@.len() == self@.instrs.len(),
    {
        self.instructions.as_slice()
    }

    /// The type of wire `idx`, if declared.
    pub fn wire_ty(&self, idx: usize) -> (r: Option<&WireTy>)
        ensures
            r is Some <==> idx < self@.wires.len(),
            r matches Some(t) ==> *t == self@.wires[idx as int],
    {
        if idx < self.wires.len() {
            Some(&self.wires[idx])
        } else {
            None
        }
    }

    /// The total bit count across all declared wires (element width for
    /// arrays).
    pub fn total_bit_width(&self) -> (r: usize)
        requires
            width_sum(self@.wires) <= usize::MAX,
        ensures
            r == width_sum(self@.wires),
    {
        let mut total: usize = 0;
        let mut i: usize = 0;
        while i < self.wires.len()
            invariant
                i <= self.wires@.len(),
                width_sum(self.wires@) <= usize::MAX,
                total == width_sum(self.wires@.take(i as int)),
            decreases self.wires@.len() - i,
        {
            proof {
                let t = self.wires@.take(i + 1);
                assert(t.drop_last() =~= self.wires@.take(i as int));
                lemma_width_sum_prefix(self.wires@, i + 1);
            }
            total = total + self.wires[i].width() as usize;
            i = i + 1;
        }
        proof {
            assert(self.wires@.take(i as int) =~= self.wires@);
        }
        total
    }

    /// The number of vertices: one per wire.
    pub fn vertex_count(&self) -> (r: usize)
        ensures
            r == self@.wires.len(),
    {
        self.wires.len()
    }

    /// The number of edges: one per instruction.
    pub fn edge_count(&self) -> (r: usize)
        ensures
            r == self@.instrs.len(),
    {
        self.instructions.len()
    }

    /// The source vertex of edge `edge`: the index of the instruction's
    /// primary source wire.  Fails when `edge` is not an instruction
    /// index.
    pub fn source(&self, edge: usize) -> (r: Result<usize, FreeCategoryError>)
        ensures
            r is Ok <==> edge < self@.instrs.len(),
            r matches Ok(v) ==> v == primary_source(self@.instrs[edge as int]).0,
    {
        if edge < self.instructions.len() {
            Ok(self.instructions[edge].primary_source().index())
        } else {
            Err(edge_out_of_bounds(edge, self.instructions.len()))
        }
    }

    /// The target vertex of edge `edge`: the index of the instruction's
    /// output wire.  Fails when `edge` is not an instruction index.
    pub fn target(&self, edge: usize) -> (r: Result<usize, FreeCategoryError>)
        ensures
            r is Ok <==> edge < self@.instrs.len(),
            r matches Ok(v) ==> v == self@.instrs[edge as int].output.0,
    {
        if edge < self.instructions.len() {
            Ok(self.instructions[edge].output().index())
        } else {
            Err(edge_out_of_bounds(edge, self.instructions.len()))
        }
    }
}

/// A prefix's width sum is bounded by the whole sequence's.
pub proof fn lemma_width_sum_prefix(ws: Seq<WireTy>, n: int)
    requires
        0 <= n <= ws.len(),
    ensures
        width_sum(ws.take(n)) <= width_sum(ws),
    decreases ws.len(),
{
    if n < ws.len() {
        assert(ws.drop_last().take(n) =~= ws.take(n));
        lemma_width_sum_prefix(ws.drop_last(), n);
    } else {
        assert(ws.take(n) =~= ws);
    }
}

} // verus!
