use hdl_cat::bit_seq::BitSeq;
use hdl_cat::circom::ast::{Expr, Field, Signal, SignalDir, Stmt, Template};
use hdl_cat::circom::emitter::{build_template, emit_template, emit_unrolled_template};
use hdl_cat::circom::render::{render_expr, render_template};
use hdl_cat::error::Error;
use hdl_cat::ir::builder::HdlGraphBuilder;
use hdl_cat::ir::graph::HdlGraph;
use hdl_cat::ir::op::{BinOp, Op};
use hdl_cat::ir::wire::{WireId, WireTy};

/// `out = a op c`, all three wires of the given types.
fn binary(a_ty: WireTy, out_ty: WireTy, op: BinOp) -> Result<(HdlGraph, WireId, WireId, WireId), Error> {
    let (b, a) = HdlGraphBuilder::new().with_wire(a_ty.clone());
    let (b, c) = b.with_wire(a_ty);
    let (b, out) = b.with_wire(out_ty);
    let b = b.with_instruction(Op::Bin(op), vec![a, c], out)?;
    Ok((b.build(), a, c, out))
}

fn render_combinational(g: &HdlGraph, name: &str, ins: &[WireId], outs: &[WireId]) -> Result<String, Error> {
    let t = emit_template(g, name, ins, outs, &[]).run()?;
    t.render().run()
}

/// A 1-bit XOR accumulator: `next = state ^ data_in`.
fn xor_acc() -> Result<(HdlGraph, WireId, WireId, WireId), Error> {
    let (b, state) = HdlGraphBuilder::new().with_wire(WireTy::Bits(1));
    let (b, data_in) = b.with_wire(WireTy::Bits(1));
    let (b, next_state) = b.with_wire(WireTy::Bits(1));
    let b = b.with_instruction(Op::Bin(BinOp::Xor), vec![state, data_in], next_state)?;
    Ok((b.build(), state, data_in, next_state))
}

fn inverter1() -> Result<(HdlGraph, WireId, WireId), Error> {
    let (b, a) = HdlGraphBuilder::new().with_wire(WireTy::Bits(1));
    let (b, out) = b.with_wire(WireTy::Bits(1));
    let b = b.with_instruction(Op::Not, vec![a], out)?;
    Ok((b.build(), a, out))
}

fn reg4() -> Result<(HdlGraph, WireId, WireId), Error> {
    let (b, a) = HdlGraphBuilder::new().with_wire(WireTy::Bits(4));
    let (b, out) = b.with_wire(WireTy::Bits(4));
    let b = b.with_instruction(
        Op::Reg { init: BitSeq::from_vec(vec![false; 4]), ty: WireTy::Bits(4) },
        vec![a],
        out,
    )?;
    Ok((b.build(), a, out))
}

fn empty_template(name: &str, includes: Vec<String>, ports: Vec<Signal>, inters: Vec<Signal>, body: Vec<Stmt>) -> Template {
    Template::new(Field::Bn254, name, includes, ports, inters, body, Vec::new())
}

fn bit(sig: &str, index: u32) -> Expr {
    Expr::Bit { sig: sig.into(), index }
}

// --- AST ---

#[test]
fn field_max_bits_known_curves() {
    assert_eq!(Field::Bn254.max_bits(), 252);
    assert_eq!(Field::Bls12_381.max_bits(), 252);
    assert_eq!(Field::Goldilocks.max_bits(), 63);
}

#[test]
fn field_displays_canonical_name() {
    assert_eq!(Field::Bn254.to_display_string(), "bn254");
    assert_eq!(Field::Bls12_381.to_display_string(), "bls12_381");
    assert_eq!(Field::Goldilocks.to_display_string(), "goldilocks");
}

#[test]
fn signal_accessors_round_trip() {
    let s = Signal::new("w0", SignalDir::Input, 8);
    assert_eq!(s.name(), "w0");
    assert_eq!(s.dir(), SignalDir::Input);
    assert_eq!(s.width(), 8);
}

#[test]
fn ast_expr_is_clone_and_debug() {
    let e = Expr::Bit { sig: "w0".into(), index: 3 };
    let _ = e.clone();
    let _ = format!("{e:?}");
}

#[test]
fn stmt_is_clone_and_debug() {
    let s = Stmt::Constraint(Expr::BitLiteral(false));
    let _ = s.clone();
    let _ = format!("{s:?}");
}

#[test]
fn template_holds_its_parts() {
    let t = Template::new(
        Field::Bn254,
        "t",
        Vec::new(),
        vec![Signal::new("w0", SignalDir::Input, 4)],
        Vec::new(),
        Vec::new(),
        Vec::new(),
    );
    assert_eq!(t.name(), "t");
    assert_eq!(t.ports().len(), 1);
    assert_eq!(t.intermediates().len(), 0);
    assert_eq!(t.body().len(), 0);
    assert_eq!(t.field(), Field::Bn254);
    assert!(t.public_inputs().is_empty());
}

#[test]
fn template_round_trips_public_inputs() {
    let t = Template::new(
        Field::Bn254,
        "t",
        Vec::new(),
        vec![Signal::new("w0", SignalDir::Input, 4), Signal::new("w1", SignalDir::Input, 4)],
        Vec::new(),
        Vec::new(),
        vec!["w0".to_string()],
    );
    assert_eq!(t.public_inputs(), &["w0".to_string()]);
}

// --- rendering ---

#[test]
fn renders_pragma_and_main_for_empty_template() {
    let t = empty_template("empty", Vec::new(), Vec::new(), Vec::new(), Vec::new());
    let text = render_template(&t);
    assert!(text.starts_with("pragma circom 2.0.0;\n"));
    assert!(text.contains("template empty()"));
    assert!(text.contains("component main = empty();"));
}

#[test]
fn renders_input_port_with_width() {
    let t = empty_template("t", Vec::new(), vec![Signal::new("w0", SignalDir::Input, 4)], Vec::new(), Vec::new());
    assert!(render_template(&t).contains("signal input w0[4];"));
}

#[test]
fn renders_output_port_with_width() {
    let t = empty_template("t", Vec::new(), vec![Signal::new("w1", SignalDir::Output, 1)], Vec::new(), Vec::new());
    assert!(render_template(&t).contains("signal output w1[1];"));
}

#[test]
fn renders_intermediate_declaration() {
    let t =
        empty_template("t", Vec::new(), Vec::new(), vec![Signal::new("tmp", SignalDir::Intermediate, 8)], Vec::new());
    assert!(render_template(&t).contains("signal tmp[8];"));
}

#[test]
fn renders_include_lines() {
    let t = empty_template(
        "t",
        vec!["circomlib/circuits/bitify.circom".to_string()],
        Vec::new(),
        Vec::new(),
        Vec::new(),
    );
    assert!(render_template(&t).contains("include \"circomlib/circuits/bitify.circom\";"));
}

#[test]
fn renders_bit_expression() {
    assert_eq!(render_expr(&bit("w0", 3)), "w0[3]");
}

#[test]
fn renders_bit_literal_as_zero_or_one() {
    assert_eq!(render_expr(&Expr::BitLiteral(true)), "1");
    assert_eq!(render_expr(&Expr::BitLiteral(false)), "0");
}

#[test]
fn renders_sub_with_parens() {
    let e = Expr::Sub(Box::new(Expr::BitLiteral(true)), Box::new(bit("w0", 0)));
    assert_eq!(render_expr(&e), "(1 - w0[0])");
}

#[test]
fn renders_mul_with_parens() {
    let e = Expr::Mul(Box::new(bit("a", 0)), Box::new(bit("b", 0)));
    assert_eq!(render_expr(&e), "(a[0] * b[0])");
}

#[test]
fn renders_assign_with_index() {
    let s = Stmt::Assign {
        lhs: "w1".into(),
        index: Some(0),
        rhs: Expr::Sub(Box::new(Expr::BitLiteral(true)), Box::new(bit("w0", 0))),
    };
    let t = empty_template("t", Vec::new(), Vec::new(), Vec::new(), vec![s]);
    assert!(render_template(&t).contains("w1[0] <== (1 - w0[0]);"));
}

#[test]
fn renders_boolean_constraint() {
    let b0 = bit("w0", 0);
    let s = Stmt::Constraint(Expr::Mul(
        Box::new(b0.clone()),
        Box::new(Expr::Sub(Box::new(b0), Box::new(Expr::BitLiteral(true)))),
    ));
    let t = empty_template("t", Vec::new(), Vec::new(), Vec::new(), vec![s]);
    assert!(render_template(&t).contains("(w0[0] * (w0[0] - 1)) === 0;"));
}

#[test]
fn renders_component_declaration() {
    let s = Stmt::Component { name: "add_0".into(), template: "Num2Bits".into(), args: vec![9] };
    let t = empty_template("t", Vec::new(), Vec::new(), Vec::new(), vec![s]);
    assert!(render_template(&t).contains("component add_0 = Num2Bits(9);"));
}

#[test]
fn renders_component_drive_with_index() {
    let s = Stmt::ComponentDrive { comp: "add_0".into(), port: "in".into(), index: Some(0), rhs: bit("w0", 0) };
    let t = empty_template("t", Vec::new(), Vec::new(), Vec::new(), vec![s]);
    assert!(render_template(&t).contains("add_0.in[0] <== w0[0];"));
}

#[test]
fn renders_bits_to_num_linear_combination() {
    let e = Expr::Bits2Num(vec![bit("w0", 0), bit("w0", 1), bit("w0", 2)]);
    assert_eq!(render_expr(&e), "(w0[0] + 2*w0[1] + 4*w0[2])");
}

#[test]
fn renders_remaining_expression_forms() {
    assert_eq!(render_expr(&Expr::FieldLiteral(16)), "16");
    assert_eq!(render_expr(&Expr::Neg(Box::new(bit("x", 1)))), "-x[1]");
    assert_eq!(render_expr(&Expr::Add(Box::new(bit("a", 0)), Box::new(bit("b", 0)))), "(a[0] + b[0])");
    let ob = Expr::CompOutBit { comp: "c".into(), port: "out".into(), index: 2 };
    assert_eq!(render_expr(&ob), "c.out[2]");
    let of = Expr::CompOutField { comp: "c".into(), port: "out".into() };
    assert_eq!(render_expr(&of), "c.out");
}

// --- emitter ---

#[test]
fn emits_inverter_template() -> Result<(), Error> {
    let (b, a) = HdlGraphBuilder::new().with_wire(WireTy::Bits(4));
    let (b, out) = b.with_wire(WireTy::Bits(4));
    let b = b.with_instruction(Op::Not, vec![a], out)?;
    let graph = b.build();
    let text = render_combinational(&graph, "inv4", &[a], &[out])?;
    assert!(text.contains("template inv4()"));
    assert!(text.contains("signal input w0[4];"));
    assert!(text.contains("signal output w1[4];"));
    assert!(text.contains("w1[0] <== (1 - w0[0]);"));
    assert!(text.contains("w1[3] <== (1 - w0[3]);"));
    assert!(text.contains("(w0[0] * (w0[0] - 1)) === 0;"));
    Ok(())
}

#[test]
fn emits_xor_per_bit() -> Result<(), Error> {
    let (g, a, c, out) = binary(WireTy::Bits(2), WireTy::Bits(2), BinOp::Xor)?;
    let text = render_combinational(&g, "xor2", &[a, c], &[out])?;
    assert!(text.contains("w2[0] <== ((w0[0] + w1[0]) - (2 * (w0[0] * w1[0])));"));
    Ok(())
}

#[test]
fn emits_and_per_bit() -> Result<(), Error> {
    let (g, a, c, out) = binary(WireTy::Bits(1), WireTy::Bits(1), BinOp::And)?;
    let text = render_combinational(&g, "and1", &[a, c], &[out])?;
    assert!(text.contains("w2[0] <== (w0[0] * w1[0]);"));
    Ok(())
}

#[test]
fn emits_or_per_bit() -> Result<(), Error> {
    let (g, a, c, out) = binary(WireTy::Bits(1), WireTy::Bits(1), BinOp::Or)?;
    let text = render_combinational(&g, "or1", &[a, c], &[out])?;
    assert!(text.contains("w2[0] <== ((w0[0] + w1[0]) - (w0[0] * w1[0]));"));
    Ok(())
}

#[test]
fn emits_mux_per_bit() -> Result<(), Error> {
    let (b, sel) = HdlGraphBuilder::new().with_wire(WireTy::Bit);
    let (b, f) = b.with_wire(WireTy::Bits(1));
    let (b, t_arm) = b.with_wire(WireTy::Bits(1));
    let (b, out) = b.with_wire(WireTy::Bits(1));
    let b = b.with_instruction(Op::Mux, vec![sel, f, t_arm], out)?;
    let graph = b.build();
    let text = render_combinational(&graph, "mux1", &[sel, f, t_arm], &[out])?;
    assert!(text.contains("w3[0] <== ((w0[0] * (w2[0] - w1[0])) + w1[0]);"));
    Ok(())
}

#[test]
fn emits_const_as_bit_literals() -> Result<(), Error> {
    let bits = BitSeq::from_vec(vec![true, false, true, false]);
    let (b, out) = HdlGraphBuilder::new().with_wire(WireTy::Bits(4));
    let b = b.with_instruction(Op::Const { bits: bits.clone(), ty: WireTy::Bits(4) }, Vec::new(), out)?;
    let graph = b.build();
    let text = render_combinational(&graph, "c4", &[], &[out])?;
    assert!(text.contains("w0[0] <== 1;"));
    assert!(text.contains("w0[1] <== 0;"));
    assert!(text.contains("w0[2] <== 1;"));
    assert!(text.contains("w0[3] <== 0;"));
    Ok(())
}

#[test]
fn emits_slice_reindexes_bits() -> Result<(), Error> {
    let (b, src) = HdlGraphBuilder::new().with_wire(WireTy::Bits(8));
    let (b, out) = b.with_wire(WireTy::Bits(4));
    let b = b.with_instruction(Op::Slice { lo: 2, hi: 6 }, vec![src], out)?;
    let graph = b.build();
    let text = render_combinational(&graph, "s", &[src], &[out])?;
    assert!(text.contains("w1[0] <== w0[2];"));
    assert!(text.contains("w1[3] <== w0[5];"));
    Ok(())
}

#[test]
fn emits_concat_low_then_high() -> Result<(), Error> {
    let (b, low) = HdlGraphBuilder::new().with_wire(WireTy::Bits(2));
    let (b, high) = b.with_wire(WireTy::Bits(2));
    let (b, out) = b.with_wire(WireTy::Bits(4));
    let b = b.with_instruction(Op::Concat { low_width: 2, high_width: 2 }, vec![low, high], out)?;
    let graph = b.build();
    let text = render_combinational(&graph, "cat", &[low, high], &[out])?;
    assert!(text.contains("w2[0] <== w0[0];"));
    assert!(text.contains("w2[1] <== w0[1];"));
    assert!(text.contains("w2[2] <== w1[0];"));
    assert!(text.contains("w2[3] <== w1[1];"));
    Ok(())
}

#[test]
fn intermediate_wires_become_local_signals() -> Result<(), Error> {
    let (b, a) = HdlGraphBuilder::new().with_wire(WireTy::Bits(4));
    let (b, tmp) = b.with_wire(WireTy::Bits(4));
    let (b, out) = b.with_wire(WireTy::Bits(4));
    let b = b.with_instruction(Op::Not, vec![a], tmp)?;
    let b = b.with_instruction(Op::Not, vec![tmp], out)?;
    let graph = b.build();
    let text = render_combinational(&graph, "inv_inv", &[a], &[out])?;
    assert!(text.contains("signal w1[4];"));
    Ok(())
}

#[test]
fn emits_add_via_num2bits() -> Result<(), Error> {
    let (g, a, c, out) = binary(WireTy::Bits(4), WireTy::Bits(4), BinOp::Add)?;
    let text = render_combinational(&g, "add4", &[a, c], &[out])?;
    assert!(text.contains("include \"circomlib/circuits/bitify.circom\";"));
    assert!(text.contains("component add_w2 = Num2Bits(5);"));
    assert!(text.contains("add_w2.in <=="));
    assert!(text.contains("w2[0] <== add_w2.out[0];"));
    assert!(text.contains("w2[3] <== add_w2.out[3];"));
    assert!(!text.contains("w2[4] <=="));
    Ok(())
}

#[test]
fn emits_sub_with_two_to_the_width_bias() -> Result<(), Error> {
    let (g, a, c, out) = binary(WireTy::Bits(4), WireTy::Bits(4), BinOp::Sub)?;
    let text = render_combinational(&g, "sub4", &[a, c], &[out])?;
    assert!(text.contains("component sub_w2 = Num2Bits(5);"));
    assert!(text.contains(" + 16)"));
    assert!(text.contains("w2[0] <== sub_w2.out[0];"));
    Ok(())
}

#[test]
fn emits_mul_via_num2bits_double_width() -> Result<(), Error> {
    let (g, a, c, out) = binary(WireTy::Bits(4), WireTy::Bits(4), BinOp::Mul)?;
    let text = render_combinational(&g, "mul4", &[a, c], &[out])?;
    assert!(text.contains("component mul_w2 = Num2Bits(8);"));
    assert!(text.contains("w2[0] <== mul_w2.out[0];"));
    assert!(text.contains("w2[3] <== mul_w2.out[3];"));
    assert!(!text.contains("w2[4] <=="));
    Ok(())
}

#[test]
fn emits_eq_via_is_equal() -> Result<(), Error> {
    let (g, a, c, out) = binary(WireTy::Bits(4), WireTy::Bits(1), BinOp::Eq)?;
    let text = render_combinational(&g, "eq4", &[a, c], &[out])?;
    assert!(text.contains("include \"circomlib/circuits/comparators.circom\";"));
    assert!(text.contains("component eq_w2 = IsEqual();"));
    assert!(text.contains("eq_w2.in[0] <=="));
    assert!(text.contains("eq_w2.in[1] <=="));
    assert!(text.contains("w2[0] <== eq_w2.out;"));
    Ok(())
}

#[test]
fn emits_lt_via_less_than() -> Result<(), Error> {
    let (g, a, c, out) = binary(WireTy::Bits(4), WireTy::Bits(1), BinOp::Lt)?;
    let text = render_combinational(&g, "lt4", &[a, c], &[out])?;
    assert!(text.contains("include \"circomlib/circuits/comparators.circom\";"));
    assert!(text.contains("component lt_w2 = LessThan(4);"));
    assert!(text.contains("lt_w2.in[0] <=="));
    assert!(text.contains("lt_w2.in[1] <=="));
    assert!(text.contains("w2[0] <== lt_w2.out;"));
    Ok(())
}

#[test]
fn dedupes_repeated_includes() -> Result<(), Error> {
    let (b, a) = HdlGraphBuilder::new().with_wire(WireTy::Bits(4));
    let (b, c) = b.with_wire(WireTy::Bits(4));
    let (b, tmp) = b.with_wire(WireTy::Bits(4));
    let (b, out) = b.with_wire(WireTy::Bits(4));
    let b = b.with_instruction(Op::Bin(BinOp::Add), vec![a, c], tmp)?;
    let b = b.with_instruction(Op::Bin(BinOp::Add), vec![tmp, a], out)?;
    let graph = b.build();
    let text = render_combinational(&graph, "add_twice", &[a, c], &[out])?;
    assert_eq!(text.matches("include \"circomlib/circuits/bitify.circom\"").count(), 1);
    Ok(())
}

#[test]
fn rejects_reg_with_unsupported_in_circom() -> Result<(), Error> {
    let (graph, a, out) = reg4()?;
    let result = emit_template(&graph, "r", &[a], &[out], &[]).run();
    assert!(matches!(result, Err(Error::UnsupportedInCircom(_))));
    Ok(())
}

#[test]
fn marks_single_public_input() -> Result<(), Error> {
    let (g, a, c, out) = binary(WireTy::Bits(4), WireTy::Bits(4), BinOp::Add)?;
    let t = emit_template(&g, "add4", &[a, c], &[out], &[a]).run()?;
    let text = t.render().run()?;
    assert!(text.contains("component main { public [w0] } = add4();"));
    Ok(())
}

#[test]
fn marks_multiple_public_inputs() -> Result<(), Error> {
    let (g, a, c, out) = binary(WireTy::Bits(4), WireTy::Bits(4), BinOp::Add)?;
    let t = emit_template(&g, "add4", &[a, c], &[out], &[a, c]).run()?;
    let text = t.render().run()?;
    assert!(text.contains("component main { public [w0, w1] } = add4();"));
    Ok(())
}

#[test]
fn empty_public_list_keeps_plain_main() -> Result<(), Error> {
    let (g, a, c, out) = binary(WireTy::Bits(4), WireTy::Bits(4), BinOp::Add)?;
    let text = render_combinational(&g, "add4", &[a, c], &[out])?;
    assert!(text.contains("component main = add4();"));
    assert!(!text.contains("public ["));
    Ok(())
}

#[test]
fn rejects_public_input_not_in_input_list() -> Result<(), Error> {
    let (g, a, c, out) = binary(WireTy::Bits(4), WireTy::Bits(4), BinOp::Add)?;
    let result = emit_template(&g, "add4", &[a, c], &[out], &[out]).run();
    assert!(matches!(result, Err(Error::UndefinedSignal { .. })));
    Ok(())
}

#[test]
fn width_1_add_short_circuits_to_xor() -> Result<(), Error> {
    let (g, a, c, out) = binary(WireTy::Bits(1), WireTy::Bits(1), BinOp::Add)?;
    let text = render_combinational(&g, "add1", &[a, c], &[out])?;
    assert!(text.contains("w2[0] <== ((w0[0] + w1[0]) - (2 * (w0[0] * w1[0])));"));
    assert!(!text.contains("Num2Bits"));
    assert!(!text.contains("circomlib/circuits/bitify.circom"));
    Ok(())
}

#[test]
fn width_1_sub_short_circuits_to_xor() -> Result<(), Error> {
    let (g, a, c, out) = binary(WireTy::Bits(1), WireTy::Bits(1), BinOp::Sub)?;
    let text = render_combinational(&g, "sub1", &[a, c], &[out])?;
    assert!(text.contains("w2[0] <== ((w0[0] + w1[0]) - (2 * (w0[0] * w1[0])));"));
    assert!(!text.contains("Num2Bits"));
    assert!(!text.contains("circomlib/circuits/bitify.circom"));
    Ok(())
}

#[test]
fn width_1_mul_short_circuits_to_and() -> Result<(), Error> {
    let (g, a, c, out) = binary(WireTy::Bits(1), WireTy::Bits(1), BinOp::Mul)?;
    let text = render_combinational(&g, "mul1", &[a, c], &[out])?;
    assert!(text.contains("w2[0] <== (w0[0] * w1[0]);"));
    assert!(!text.contains("Num2Bits"));
    assert!(!text.contains("circomlib/circuits/bitify.circom"));
    Ok(())
}

#[test]
fn width_2_add_still_uses_num2bits() -> Result<(), Error> {
    let (g, a, c, out) = binary(WireTy::Bits(2), WireTy::Bits(2), BinOp::Add)?;
    let text = render_combinational(&g, "add2", &[a, c], &[out])?;
    assert!(text.contains("component add_w2 = Num2Bits(3);"));
    assert!(text.contains("circomlib/circuits/bitify.circom"));
    Ok(())
}

#[test]
fn emits_array_shift_in_per_bit() -> Result<(), Error> {
    let (b, arr) = HdlGraphBuilder::new().with_wire(WireTy::Array { element_width: 4, depth: 2 });
    let (b, new_elem) = b.with_wire(WireTy::Bits(4));
    let (b, out) = b.with_wire(WireTy::Array { element_width: 4, depth: 2 });
    let b = b.with_instruction(Op::ArrayShiftIn { element_width: 4, depth: 2 }, vec![arr, new_elem], out)?;
    let graph = b.build();
    let text = render_combinational(&graph, "shift", &[arr, new_elem], &[out])?;
    assert!(text.contains("w2[0] <== w1[0];"));
    assert!(text.contains("w2[3] <== w1[3];"));
    assert!(text.contains("w2[4] <== w0[0];"));
    assert!(text.contains("w2[7] <== w0[3];"));
    Ok(())
}

#[test]
fn emits_array_tail_per_bit() -> Result<(), Error> {
    let (b, arr) = HdlGraphBuilder::new().with_wire(WireTy::Array { element_width: 4, depth: 2 });
    let (b, out) = b.with_wire(WireTy::Bits(4));
    let b = b.with_instruction(Op::ArrayTail { element_width: 4, depth: 2 }, vec![arr], out)?;
    let graph = b.build();
    let text = render_combinational(&graph, "tail", &[arr], &[out])?;
    assert!(text.contains("w1[0] <== w0[4];"));
    assert!(text.contains("w1[3] <== w0[7];"));
    Ok(())
}

#[test]
fn unrolled_emits_cycle_renamed_signals() -> Result<(), Error> {
    let (b, state) = HdlGraphBuilder::new().with_wire(WireTy::Bits(1));
    let (b, data_in) = b.with_wire(WireTy::Bits(1));
    let (b, next_state) = b.with_wire(WireTy::Bits(1));
    let (b, data_out) = b.with_wire(WireTy::Bits(1));
    let b = b.with_instruction(Op::Bin(BinOp::Xor), vec![state, data_in], next_state)?;
    let b = b.with_instruction(Op::Slice { lo: 0, hi: 1 }, vec![state], data_out)?;
    let graph = b.build();
    let initial = BitSeq::from_vec(vec![false]);
    let t = emit_unrolled_template(&graph, "xor_acc", &[state, data_in], &[next_state, data_out], 1, &initial, 3)
        .run()?;
    let text = t.render().run()?;
    assert!(text.contains("signal input w1_c0[1];"));
    assert!(text.contains("signal input w1_c1[1];"));
    assert!(text.contains("signal input w1_c2[1];"));
    assert!(text.contains("signal output w3_c0[1];"));
    assert!(text.contains("signal output w3_c1[1];"));
    assert!(text.contains("signal output w3_c2[1];"));
    assert!(text.contains("signal w0_c0[1];"));
    assert!(text.contains("signal w0_c1[1];"));
    assert!(text.contains("signal w0_c2[1];"));
    Ok(())
}

#[test]
fn unrolled_initializes_cycle_zero_state_from_initial() -> Result<(), Error> {
    let (graph, state, data_in, next_state) = xor_acc()?;
    let initial = BitSeq::from_vec(vec![true]);
    let t = emit_unrolled_template(&graph, "init", &[state, data_in], &[next_state], 1, &initial, 1).run()?;
    let text = t.render().run()?;
    assert!(text.contains("w0_c0[0] <== 1;"));
    Ok(())
}

#[test]
fn unrolled_plumbs_state_from_previous_next_state() -> Result<(), Error> {
    let (graph, state, data_in, next_state) = xor_acc()?;
    let initial = BitSeq::from_vec(vec![false]);
    let t = emit_unrolled_template(&graph, "plumb", &[state, data_in], &[next_state], 1, &initial, 2).run()?;
    let text = t.render().run()?;
    assert!(text.contains("w0_c1[0] <== w2_c0[0];"));
    Ok(())
}

#[test]
fn unrolled_replicates_array_initial_across_storage() -> Result<(), Error> {
    let (b, state) = HdlGraphBuilder::new().with_wire(WireTy::Array { element_width: 4, depth: 2 });
    let (b, new_elem) = b.with_wire(WireTy::Bits(4));
    let (b, next_state) = b.with_wire(WireTy::Array { element_width: 4, depth: 2 });
    let b =
        b.with_instruction(Op::ArrayShiftIn { element_width: 4, depth: 2 }, vec![state, new_elem], next_state)?;
    let graph = b.build();
    let initial = BitSeq::from_vec(vec![false, true, false, true]);
    let t = emit_unrolled_template(&graph, "delay", &[state, new_elem], &[next_state], 1, &initial, 1).run()?;
    let text = t.render().run()?;
    assert!(text.contains("w0_c0[0] <== 0;"));
    assert!(text.contains("w0_c0[1] <== 1;"));
    assert!(text.contains("w0_c0[2] <== 0;"));
    assert!(text.contains("w0_c0[3] <== 1;"));
    assert!(text.contains("w0_c0[4] <== 0;"));
    assert!(text.contains("w0_c0[5] <== 1;"));
    assert!(text.contains("w0_c0[6] <== 0;"));
    assert!(text.contains("w0_c0[7] <== 1;"));
    Ok(())
}

#[test]
fn unrolled_dedupes_includes_across_cycles() -> Result<(), Error> {
    let (g, a, c, out) = binary(WireTy::Bits(2), WireTy::Bits(2), BinOp::Add)?;
    let t = emit_unrolled_template(&g, "add2", &[a, c], &[out], 0, &BitSeq::new(), 2).run()?;
    let text = t.render().run()?;
    assert_eq!(text.matches("include \"circomlib/circuits/bitify.circom\"").count(), 1);
    Ok(())
}

#[test]
fn unrolled_zero_state_is_pure_replication() -> Result<(), Error> {
    let (graph, a, out) = inverter1()?;
    let t = emit_unrolled_template(&graph, "inv", &[a], &[out], 0, &BitSeq::new(), 2).run()?;
    let text = t.render().run()?;
    assert!(text.contains("signal input w0_c0[1];"));
    assert!(text.contains("signal input w0_c1[1];"));
    assert!(text.contains("signal output w1_c0[1];"));
    assert!(text.contains("signal output w1_c1[1];"));
    assert!(text.contains("w1_c0[0] <== (1 - w0_c0[0]);"));
    assert!(text.contains("w1_c1[0] <== (1 - w0_c1[0]);"));
    Ok(())
}

#[test]
fn unrolled_rejects_zero_cycles() -> Result<(), Error> {
    let (graph, a, out) = inverter1()?;
    let result = emit_unrolled_template(&graph, "z", &[a], &[out], 0, &BitSeq::new(), 0).run();
    assert!(matches!(result, Err(Error::UnsupportedInCircom(_))));
    Ok(())
}

#[test]
fn unrolled_rejects_state_count_overflowing_inputs() -> Result<(), Error> {
    let (graph, a, out) = inverter1()?;
    let result = emit_unrolled_template(&graph, "z", &[a], &[out], 2, &BitSeq::new(), 1).run();
    assert!(matches!(result, Err(Error::UnsupportedInCircom(_))));
    Ok(())
}

#[test]
fn unrolled_still_rejects_reg() -> Result<(), Error> {
    let (graph, a, out) = reg4()?;
    let result = emit_unrolled_template(&graph, "r", &[a], &[out], 0, &BitSeq::new(), 1).run();
    assert!(matches!(result, Err(Error::UnsupportedInCircom(_))));
    Ok(())
}

#[test]
fn build_template_agrees_with_emitted_template() -> Result<(), Error> {
    let (g, a, c, out) = binary(WireTy::Bits(2), WireTy::Bits(2), BinOp::Xor)?;
    let built = build_template(&g, "x", &[a, c], &[out], &[c])?;
    let emitted = emit_template(&g, "x", &[a, c], &[out], &[c]).run()?;
    assert_eq!(render_template(&built), render_template(&emitted));
    assert_eq!(built.public_inputs(), &["w1".to_string()]);
    assert_eq!(built.ports().len(), 3);
    Ok(())
}
