use hdl_cat::bit_seq::BitSeq;
use hdl_cat::error::Error;
use hdl_cat::ir::builder::HdlGraphBuilder;
use hdl_cat::ir::graph::HdlGraph;
use hdl_cat::ir::instr::Instruction;
use hdl_cat::ir::op::{BinOp, Op};
use hdl_cat::ir::wire::{Wire, WireId, WireTy};

#[test]
fn empty_builder_yields_empty_graph() {
    let g = HdlGraphBuilder::new().build();
    assert_eq!(g.wires().len(), 0);
    assert_eq!(g.instructions().len(), 0);
}

#[test]
fn wires_are_assigned_sequential_ids() {
    let (b, a) = HdlGraphBuilder::new().with_wire(WireTy::Bit);
    let (b, c) = b.with_wire(WireTy::Bits(4));
    let (_, d) = b.with_wire(WireTy::Signed(8));
    assert_eq!(a.index(), 0);
    assert_eq!(c.index(), 1);
    assert_eq!(d.index(), 2);
}

#[test]
fn with_instruction_accepts_matching_arity() -> Result<(), Error> {
    let (bld, lhs) = HdlGraphBuilder::new().with_wire(WireTy::Bit);
    let (bld, rhs) = bld.with_wire(WireTy::Bit);
    let (bld, out) = bld.with_wire(WireTy::Bit);
    let bld = bld.with_instruction(Op::Bin(BinOp::Xor), vec![lhs, rhs], out)?;
    let graph = bld.build();
    assert_eq!(graph.instructions().len(), 1);
    Ok(())
}

#[test]
fn with_instruction_rejects_wrong_arity() {
    let (b, a) = HdlGraphBuilder::new().with_wire(WireTy::Bit);
    let (b, out) = b.with_wire(WireTy::Bit);
    let result = b.with_instruction(Op::Bin(BinOp::And), vec![a], out);
    assert!(result.is_err());
}

#[test]
fn wrong_arity_reports_expected_and_given_counts() {
    let (b, a) = HdlGraphBuilder::new().with_wire(WireTy::Bit);
    let (b, out) = b.with_wire(WireTy::Bit);
    match b.with_instruction(Op::Mux, vec![a], out) {
        Err(Error::TypeMismatch { expected, actual }) => {
            assert_eq!(expected.as_str(), "3 inputs");
            assert_eq!(actual.as_str(), "1 inputs");
        },
        _ => panic!("expected a type mismatch"),
    }
}

#[test]
fn chained_construction() -> Result<(), Error> {
    let (b, a) = HdlGraphBuilder::new().with_wire(WireTy::Bit);
    let (b, n_a) = b.with_wire(WireTy::Bit);
    let b = b.with_instruction(Op::Not, vec![a], n_a)?;
    let g = b.build();
    assert_eq!(g.wires().len(), 2);
    assert_eq!(g.instructions().len(), 1);
    Ok(())
}

fn example_graph() -> Result<HdlGraph, Error> {
    let (b, a) = HdlGraphBuilder::new().with_wire(WireTy::Bit);
    let (b, c) = b.with_wire(WireTy::Bit);
    let (b, d) = b.with_wire(WireTy::Bit);
    let b = b.with_instruction(Op::Bin(BinOp::And), vec![a, c], d)?;
    Ok(b.build())
}

#[test]
fn vertex_count_matches_wires() -> Result<(), Error> {
    let g = example_graph()?;
    assert_eq!(g.vertex_count(), 3);
    Ok(())
}

#[test]
fn edge_count_matches_instructions() -> Result<(), Error> {
    let g = example_graph()?;
    assert_eq!(g.edge_count(), 1);
    Ok(())
}

#[test]
fn source_is_primary_input() -> Result<(), Error> {
    let g = example_graph()?;
    let src = g.source(0)?;
    assert_eq!(src, 0);
    Ok(())
}

#[test]
fn target_is_output() -> Result<(), Error> {
    let g = example_graph()?;
    let tgt = g.target(0)?;
    assert_eq!(tgt, 2);
    Ok(())
}

#[test]
fn source_out_of_bounds_errors() -> Result<(), Error> {
    let g = example_graph()?;
    assert!(g.source(10).is_err());
    assert!(g.target(10).is_err());
    Ok(())
}

#[test]
fn wire_ty_lookup() -> Result<(), Error> {
    let g = example_graph()?;
    assert_eq!(g.wire_ty(0), Some(&WireTy::Bit));
    assert_eq!(g.wire_ty(5), None);
    Ok(())
}

#[test]
fn total_bit_width_sums_wires() {
    let (bld, _) = HdlGraphBuilder::new().with_wire(WireTy::Bits(8));
    let (bld, _) = bld.with_wire(WireTy::Bits(4));
    let (bld, _) = bld.with_wire(WireTy::Bit);
    let graph = bld.build();
    assert_eq!(graph.total_bit_width(), 13);
}

#[test]
fn new_accepts_matching_arity() {
    let i = Instruction::new(Op::Bin(BinOp::And), vec![WireId::new(0), WireId::new(1)], WireId::new(2));
    assert!(i.is_some());
}

#[test]
fn new_rejects_wrong_arity() {
    let too_few = Instruction::new(Op::Bin(BinOp::Or), vec![WireId::new(0)], WireId::new(1));
    assert!(too_few.is_none());
    let too_many = Instruction::new(Op::Not, vec![WireId::new(0), WireId::new(1)], WireId::new(2));
    assert!(too_many.is_none());
}

#[test]
fn primary_source_is_first_input() {
    let i = Instruction::new(Op::Mux, vec![WireId::new(5), WireId::new(6), WireId::new(7)], WireId::new(8));
    assert!(matches!(i.as_ref().map(Instruction::primary_source), Some(w) if w == WireId::new(5)));
}

#[test]
fn primary_source_is_output_for_const() {
    let i = Instruction::new(Op::Const { bits: BitSeq::new(), ty: WireTy::Bit }, vec![], WireId::new(42));
    assert!(matches!(i.as_ref().map(Instruction::primary_source), Some(w) if w == WireId::new(42)));
}

#[test]
fn display_formats_instruction() {
    let i = Instruction::new(Op::Bin(BinOp::Add), vec![WireId::new(0), WireId::new(1)], WireId::new(2));
    assert_eq!(i.map(|i| i.to_display_string()).as_deref(), Some("w2 = add w0, w1"));
}

#[test]
fn binop_comparison_classification() {
    assert!(BinOp::Eq.is_comparison());
    assert!(BinOp::Lt.is_comparison());
    assert!(!BinOp::And.is_comparison());
    assert!(!BinOp::Add.is_comparison());
}

#[test]
fn op_arity_matches_variant() {
    assert_eq!(Op::Not.arity(), 1);
    assert_eq!(Op::Bin(BinOp::And).arity(), 2);
    assert_eq!(Op::Mux.arity(), 3);
    assert_eq!(Op::Const { bits: BitSeq::new(), ty: WireTy::Bit }.arity(), 0);
    assert_eq!(Op::Reg { init: BitSeq::new(), ty: WireTy::Bits(8) }.arity(), 1);
    assert_eq!(Op::Concat { low_width: 4, high_width: 4 }.arity(), 2);
    assert_eq!(Op::Slice { lo: 0, hi: 4 }.arity(), 1);
    assert_eq!(Op::ArrayShiftIn { element_width: 4, depth: 2 }.arity(), 2);
    assert_eq!(Op::ArrayTail { element_width: 4, depth: 2 }.arity(), 1);
}

#[test]
fn op_display_contains_mnemonic() {
    assert_eq!(Op::Not.to_display_string(), "not");
    assert_eq!(Op::Bin(BinOp::Xor).to_display_string(), "xor");
    assert_eq!(Op::Slice { lo: 0, hi: 8 }.to_display_string(), "slice[0..8]");
}

#[test]
fn wire_id_round_trips() {
    assert_eq!(WireId::new(7).index(), 7);
}

#[test]
fn wire_ty_widths() {
    assert_eq!(WireTy::Bit.width(), 1);
    assert_eq!(WireTy::Bits(8).width(), 8);
    assert_eq!(WireTy::Signed(32).width(), 32);
    assert_eq!(WireTy::Array { element_width: 64, depth: 1024 }.width(), 64);
}

#[test]
fn wire_ty_displays() {
    assert_eq!(WireTy::Bit.to_display_string(), "bit");
    assert_eq!(WireTy::Bits(12).to_display_string(), "Bits<12>");
    assert_eq!(WireTy::Signed(7).to_display_string(), "SignedBits<7>");
    assert_eq!(WireTy::Array { element_width: 64, depth: 8 }.to_display_string(), "Array<Bits<64>, 8>");
}

#[test]
fn wire_ty_depth() {
    assert_eq!(WireTy::Bit.depth(), None);
    assert_eq!(WireTy::Bits(8).depth(), None);
    assert_eq!(WireTy::Signed(16).depth(), None);
    assert_eq!(WireTy::Array { element_width: 64, depth: 512 }.depth(), Some(512));
}

#[test]
fn wire_ty_storage_bits() {
    assert_eq!(WireTy::Bit.storage_bits(), 1);
    assert_eq!(WireTy::Bits(8).storage_bits(), 8);
    assert_eq!(WireTy::Signed(32).storage_bits(), 32);
    assert_eq!(WireTy::Array { element_width: 64, depth: 8 }.storage_bits(), 512);
}

#[test]
fn wire_id_displays_as_w_prefix() {
    assert_eq!(WireId::new(3).to_display_string(), "w3");
}

#[test]
fn wire_holds_id_and_ty() {
    let w = Wire::new(WireId::new(0), WireTy::Bits(4));
    assert_eq!(w.id(), WireId::new(0));
    assert_eq!(w.ty(), &WireTy::Bits(4));
}

#[test]
fn builder_keeps_wires_and_instructions_in_call_order() -> Result<(), Error> {
    let (b, a) = HdlGraphBuilder::new().with_wire(WireTy::Bit);
    let (b, c) = b.with_wire(WireTy::Bit);
    let b = b.with_instruction(Op::Not, vec![a], c)?;
    let (b, d) = b.with_wire(WireTy::Bits(4));
    let b = b.with_instruction(Op::Bin(BinOp::And), vec![a, c], d)?;
    let g = b.build();
    assert_eq!(g.wires(), &[WireTy::Bit, WireTy::Bit, WireTy::Bits(4)]);
    assert_eq!(g.instructions().len(), 2);
    assert_eq!(g.instructions()[0].output(), c);
    assert_eq!(g.instructions()[1].output(), d);
    Ok(())
}
