use hdl_cat::bit_seq::BitSeq;
use hdl_cat::error::Error;
use hdl_cat::ir::builder::HdlGraphBuilder;
use hdl_cat::ir::op::{BinOp, Op};
use hdl_cat::ir::wire::WireTy;
use hdl_cat::verilog::ast::{Expr, Module, Port, PortDirection, Stmt};
use hdl_cat::components::counter;
use hdl_cat::verilog::emitter::{
    build_module, consts_checked, is_sync_emittable, emit_graph, emit_sync_graph, emit_sync_graph_with_arrays, ArrayStrategy, StateArraySpec,
};
use hdl_cat::verilog::render::{render_expr, render_module};

fn count(m: &Module, f: fn(&Stmt) -> bool) -> usize {
    m.body().iter().filter(|s| f(s)).count()
}

#[test]
fn port_accessors() {
    let p = Port::new("clk", PortDirection::Input, 1);
    assert_eq!(p.name(), "clk");
    assert_eq!(p.direction(), PortDirection::Input);
    assert_eq!(p.width(), 1);
}

#[test]
fn module_holds_parts() {
    let m = Module::new(
        "m",
        vec![Port::new("a", PortDirection::Input, 4)],
        vec![Stmt::WireDecl { name: "w".into(), width: 4 }],
    );
    assert_eq!(m.name(), "m");
    assert_eq!(m.ports().len(), 1);
    assert_eq!(m.body().len(), 1);
}

#[test]
fn emits_module_for_inverter() -> Result<(), Error> {
    let (bld, a) = HdlGraphBuilder::new().with_wire(WireTy::Bits(8));
    let (bld, out) = bld.with_wire(WireTy::Bits(8));
    let bld = bld.with_instruction(Op::Not, vec![a], out)?;
    let graph = bld.build();
    let module = emit_graph(&graph, "inv8", &[a], &[out]).run()?;
    assert_eq!(module.name(), "inv8");
    assert_eq!(module.ports().len(), 2);
    assert_eq!(module.body().len(), 1);
    Ok(())
}

#[test]
fn emits_assign_for_binary_op() -> Result<(), Error> {
    let (bld, lhs) = HdlGraphBuilder::new().with_wire(WireTy::Bits(4));
    let (bld, rhs) = bld.with_wire(WireTy::Bits(4));
    let (bld, out) = bld.with_wire(WireTy::Bits(4));
    let bld = bld.with_instruction(Op::Bin(BinOp::Xor), vec![lhs, rhs], out)?;
    let graph = bld.build();
    let module = emit_graph(&graph, "xor4", &[lhs, rhs], &[out]).run()?;
    assert_eq!(module.ports().len(), 3);
    Ok(())
}

#[test]
fn internal_wires_become_decls() -> Result<(), Error> {
    let (bld, a) = HdlGraphBuilder::new().with_wire(WireTy::Bits(4));
    let (bld, tmp) = bld.with_wire(WireTy::Bits(4));
    let (bld, out) = bld.with_wire(WireTy::Bits(4));
    let bld = bld.with_instruction(Op::Not, vec![a], tmp)?;
    let bld = bld.with_instruction(Op::Not, vec![tmp], out)?;
    let graph = bld.build();
    let module = emit_graph(&graph, "inv_inv", &[a], &[out]).run()?;
    assert_eq!(count(&module, |s| matches!(s, Stmt::WireDecl { .. })), 1);
    Ok(())
}

#[test]
fn sync_emitter_adds_clk_and_rst_ports() -> Result<(), Error> {
    let (bld, state) = HdlGraphBuilder::new().with_wire(WireTy::Bits(4));
    let (bld, one) = bld.with_wire(WireTy::Bits(4));
    let (bld, next_state) = bld.with_wire(WireTy::Bits(4));
    let bld = bld.with_instruction(
        Op::Const { bits: BitSeq::from_vec(vec![true, false, false, false]), ty: WireTy::Bits(4) },
        vec![],
        one,
    )?;
    let bld = bld.with_instruction(Op::Bin(BinOp::Add), vec![state, one], next_state)?;
    let graph = bld.build();
    let init = BitSeq::from_vec(vec![false, false, false, false]);
    let module = emit_sync_graph(&graph, "counter4", 1, &[state], &[next_state, state], &init).run()?;
    let port_names: Vec<String> = module.ports().iter().map(|p| p.name().to_string()).collect();
    assert!(port_names.contains(&"clk".to_string()));
    assert!(port_names.contains(&"rst".to_string()));
    assert!(port_names.contains(&"w0".to_string()));
    let w0_port = module.ports().iter().find(|p| p.name() == "w0");
    assert!(matches!(w0_port.map(Port::direction), Some(PortDirection::OutputReg)));
    assert_eq!(count(&module, |s| matches!(s, Stmt::AlwaysFf { .. })), 1);
    Ok(())
}

#[test]
fn sync_emitter_rejects_mismatched_initial_state() -> Result<(), Error> {
    let (bld, state) = HdlGraphBuilder::new().with_wire(WireTy::Bits(4));
    let (bld, next_state) = bld.with_wire(WireTy::Bits(4));
    let bld = bld.with_instruction(Op::Not, vec![state], next_state)?;
    let graph = bld.build();
    let init = BitSeq::from_vec(vec![true, false]);
    let result = emit_sync_graph(&graph, "bad", 1, &[state], &[next_state], &init).run();
    assert!(result.is_err());
    Ok(())
}

/// A graph of four 4-bit delay stages and a 4-bit counter, the stage
/// copies written as full-width slices.
fn delay_graph() -> Result<(hdl_cat::ir::graph::HdlGraph, Vec<hdl_cat::ir::wire::WireId>, Vec<hdl_cat::ir::wire::WireId>), Error> {
    let (bld, d0) = HdlGraphBuilder::new().with_wire(WireTy::Bits(4));
    let (bld, d1) = bld.with_wire(WireTy::Bits(4));
    let (bld, d2) = bld.with_wire(WireTy::Bits(4));
    let (bld, d3) = bld.with_wire(WireTy::Bits(4));
    let (bld, ctr) = bld.with_wire(WireTy::Bits(4));
    let (bld, data_in) = bld.with_wire(WireTy::Bits(4));
    let (bld, next_d0) = bld.with_wire(WireTy::Bits(4));
    let (bld, next_d1) = bld.with_wire(WireTy::Bits(4));
    let (bld, next_d2) = bld.with_wire(WireTy::Bits(4));
    let (bld, next_d3) = bld.with_wire(WireTy::Bits(4));
    let (bld, next_ctr) = bld.with_wire(WireTy::Bits(4));
    let (bld, data_out) = bld.with_wire(WireTy::Bits(4));
    let bld = bld.with_instruction(Op::Slice { lo: 0, hi: 4 }, vec![data_in], next_d0)?;
    let bld = bld.with_instruction(Op::Slice { lo: 0, hi: 4 }, vec![d0], next_d1)?;
    let bld = bld.with_instruction(Op::Slice { lo: 0, hi: 4 }, vec![d1], next_d2)?;
    let bld = bld.with_instruction(Op::Slice { lo: 0, hi: 4 }, vec![d2], next_d3)?;
    let bld = bld.with_instruction(Op::Not, vec![ctr], next_ctr)?;
    let bld = bld.with_instruction(Op::Slice { lo: 0, hi: 4 }, vec![d3], data_out)?;
    Ok((
        bld.build(),
        vec![d0, d1, d2, d3, ctr, data_in],
        vec![next_d0, next_d1, next_d2, next_d3, next_ctr, data_out],
    ))
}

#[test]
fn array_emitter_produces_reg_array_and_shift() -> Result<(), Error> {
    let (graph, input_wires, output_wires) = delay_graph()?;
    let init = BitSeq::from_vec(vec![false; 4 * 5]);
    let array_spec = StateArraySpec::new("delay", 0, 4, 4, output_wires[0], BitSeq::from_vec(vec![false; 4]));
    let module =
        emit_sync_graph_with_arrays(&graph, "shift_test", 5, &input_wires, &output_wires, &init, &[array_spec])
            .run()?;
    let text = module.render().run()?;
    assert!(text.contains("reg [3:0] delay [0:3];"));
    assert!(text.contains("delay[0] <="));
    assert!(text.contains("delay[1] <= delay[0];"));
    assert!(text.contains("delay[3] <= delay[2];"));
    assert_eq!(count(&module, |s| matches!(s, Stmt::AlwaysFf { .. })), 1);
    assert_eq!(count(&module, |s| matches!(s, Stmt::AlwaysArrayShift { .. })), 1);
    Ok(())
}

#[test]
fn array_emitter_circ_buf_produces_ptr_and_dyn_index() -> Result<(), Error> {
    let (graph, input_wires, output_wires) = delay_graph()?;
    let init = BitSeq::from_vec(vec![false; 4 * 5]);
    let array_spec = StateArraySpec::new("delay", 0, 4, 4, output_wires[0], BitSeq::from_vec(vec![false; 4]))
        .with_strategy(ArrayStrategy::CircularBuffer);
    let module =
        emit_sync_graph_with_arrays(&graph, "circ_test", 5, &input_wires, &output_wires, &init, &[array_spec])
            .run()?;
    let text = module.render().run()?;
    assert!(text.contains("reg [3:0] delay [0:3];"));
    assert!(text.contains("reg [1:0] delay_ptr;"));
    assert!(text.contains("delay[delay_ptr] <="));
    assert!(text.contains("delay_ptr <= (delay_ptr == 2'd3) ? 2'd0 : delay_ptr + 2'd1;"));
    assert!(text.contains("assign w3 = delay[delay_ptr];"));
    assert!(!text.contains("delay[1] <= delay[0];"));
    assert_eq!(count(&module, |s| matches!(s, Stmt::AlwaysFf { .. })), 1);
    assert_eq!(count(&module, |s| matches!(s, Stmt::AlwaysArrayCircBuf { .. })), 1);
    Ok(())
}

#[test]
fn auto_detect_array_emits_shift_register() -> Result<(), Error> {
    let arr_ty = WireTy::Array { element_width: 4, depth: 4 };
    let (bld, arr_state) = HdlGraphBuilder::new().with_wire(arr_ty.clone());
    let (bld, ctr) = bld.with_wire(WireTy::Bits(4));
    let (bld, data_in) = bld.with_wire(WireTy::Bits(4));
    let (bld, next_arr) = bld.with_wire(arr_ty);
    let (bld, next_ctr) = bld.with_wire(WireTy::Bits(4));
    let (bld, tail_out) = bld.with_wire(WireTy::Bits(4));
    let bld = bld.with_instruction(
        Op::ArrayShiftIn { element_width: 4, depth: 4 },
        vec![arr_state, data_in],
        next_arr,
    )?;
    let bld = bld.with_instruction(Op::ArrayTail { element_width: 4, depth: 4 }, vec![arr_state], tail_out)?;
    let bld = bld.with_instruction(Op::Not, vec![ctr], next_ctr)?;
    let graph = bld.build();
    let init = BitSeq::from_vec(vec![false; 8]);
    let module = emit_sync_graph(
        &graph,
        "auto_shift",
        2,
        &[arr_state, ctr, data_in],
        &[next_arr, next_ctr, tail_out],
        &init,
    )
    .run()?;
    assert_eq!(count(&module, |s| matches!(s, Stmt::RegArrayDecl { .. })), 1);
    assert_eq!(count(&module, |s| matches!(s, Stmt::AlwaysArrayShift { .. })), 1);
    assert_eq!(count(&module, |s| matches!(s, Stmt::AlwaysFf { .. })), 1);
    let text = module.render().run()?;
    let expected_index = format!("w{}[3]", arr_state.index());
    assert!(text.contains(&expected_index), "expected array index {expected_index} in:\n{text}");
    Ok(())
}

#[test]
fn sync_emitter_handles_pure_combinational() -> Result<(), Error> {
    let (bld, a) = HdlGraphBuilder::new().with_wire(WireTy::Bits(4));
    let (bld, out) = bld.with_wire(WireTy::Bits(4));
    let bld = bld.with_instruction(Op::Not, vec![a], out)?;
    let graph = bld.build();
    let module = emit_sync_graph(&graph, "inv", 0, &[a], &[out], &BitSeq::new()).run()?;
    assert_eq!(count(&module, |s| matches!(s, Stmt::AlwaysFf { .. })), 0);
    Ok(())
}

#[test]
fn slice_on_scalar_emits_plain_wire() -> Result<(), Error> {
    let (bld, a) = HdlGraphBuilder::new().with_wire(WireTy::Bit);
    let (bld, out) = bld.with_wire(WireTy::Bit);
    let bld = bld.with_instruction(Op::Slice { lo: 0, hi: 1 }, vec![a], out)?;
    let graph = bld.build();
    let module = emit_graph(&graph, "id1", &[a], &[out]).run()?;
    let text = module.render().run()?;
    assert!(text.contains("input a") || text.contains("input w0"));
    assert!(!text.contains("[0:0]"), "scalar bit-select leaked into emitted Verilog:\n{text}");
    assert!(text.contains("assign w1 = w0;"), "expected `assign w1 = w0;` in emitted Verilog:\n{text}");
    Ok(())
}

#[test]
fn renders_empty_module() {
    let m = Module::new("m", Vec::new(), Vec::new());
    let text = render_module(&m);
    assert!(text.starts_with("module m"));
    assert!(text.contains("endmodule"));
}

#[test]
fn renders_wire_expr() {
    assert_eq!(render_expr(&Expr::Wire("a".into())), "a");
}

#[test]
fn renders_binary_expr() {
    let e = Expr::Binary { op: "+", lhs: Box::new(Expr::Wire("a".into())), rhs: Box::new(Expr::Wire("b".into())) };
    assert_eq!(render_expr(&e), "(a + b)");
}

#[test]
fn renders_literal() {
    let e = Expr::Literal { width: 8, value: 42 };
    assert_eq!(render_expr(&e), "8'd42");
}

#[test]
fn renders_slice_with_correct_range() {
    let e = Expr::Slice { source: Box::new(Expr::Wire("x".into())), lo: 0, hi: 4 };
    assert_eq!(render_expr(&e), "x[3:0]");
}

#[test]
fn renders_module_with_input_and_assign() {
    let m = Module::new(
        "inv",
        vec![Port::new("a", PortDirection::Input, 8), Port::new("y", PortDirection::Output, 8)],
        vec![Stmt::Assign { lhs: "y".into(), rhs: Expr::Not(Box::new(Expr::Wire("a".into()))) }],
    );
    let text = render_module(&m);
    assert!(text.contains("module inv"));
    assert!(text.contains("input [7:0] a"));
    assert!(text.contains("output [7:0] y"));
    assert!(text.contains("assign y = ~a"));
}

#[test]
fn renders_single_bit_port_without_range() {
    let m = Module::new("t", vec![Port::new("clk", PortDirection::Input, 1)], Vec::new());
    let text = render_module(&m);
    assert!(text.contains("input clk"));
}

#[test]
fn renders_array_index_expr() {
    let e = Expr::ArrayIndex { array: "delay".into(), index: 7 };
    assert_eq!(render_expr(&e), "delay[7]");
}

#[test]
fn renders_reg_array_decl() {
    let m = Module::new("t", Vec::new(), vec![Stmt::RegArrayDecl { name: "delay".into(), width: 64, depth: 8 }]);
    let text = render_module(&m);
    assert!(text.contains("reg [63:0] delay [0:7];"));
}

#[test]
fn renders_reg_array_decl_single_bit() {
    let m = Module::new("t", Vec::new(), vec![Stmt::RegArrayDecl { name: "flags".into(), width: 1, depth: 4 }]);
    let text = render_module(&m);
    assert!(text.contains("reg flags [0:3];"));
}

#[test]
fn renders_always_array_shift() {
    let m = Module::new(
        "sr",
        vec![Port::new("clk", PortDirection::Input, 1)],
        vec![Stmt::AlwaysArrayShift {
            clock: "clk".into(),
            reset: "rst".into(),
            array: "d".into(),
            depth: 4,
            width: 64,
            reset_value: Expr::Literal { width: 64, value: 0 },
            input: Expr::Wire("din".into()),
        }],
    );
    let text = render_module(&m);
    assert!(text.contains("always_ff @(posedge clk) begin"));
    assert!(text.contains("if (rst) begin"));
    assert!(text.contains("d[0] <= din;"));
    assert!(text.contains("d[1] <= d[0];"));
    assert!(text.contains("d[2] <= d[1];"));
    assert!(text.contains("d[3] <= d[2];"));
}

#[test]
fn renders_mux_concat_and_dyn_index() {
    let mux = Expr::Mux {
        selector: Box::new(Expr::Wire("s".into())),
        false_arm: Box::new(Expr::Wire("a".into())),
        true_arm: Box::new(Expr::Wire("b".into())),
    };
    assert_eq!(render_expr(&mux), "(s ? b : a)");
    let cat = Expr::Concat { high: Box::new(Expr::Wire("h".into())), low: Box::new(Expr::Wire("l".into())) };
    assert_eq!(render_expr(&cat), "{h, l}");
    let dyn_ix = Expr::ArrayDynIndex { array: "m".into(), index: Box::new(Expr::Wire("p".into())) };
    assert_eq!(render_expr(&dyn_ix), "m[p]");
}

#[test]
fn build_module_matches_emitted_module() -> Result<(), Error> {
    let (bld, a) = HdlGraphBuilder::new().with_wire(WireTy::Bits(8));
    let (bld, out) = bld.with_wire(WireTy::Bits(8));
    let bld = bld.with_instruction(Op::Not, vec![a], out)?;
    let graph = bld.build();
    let built = build_module(&graph, "inv8", &[a], &[out]);
    let emitted = emit_graph(&graph, "inv8", &[a], &[out]).run()?;
    assert_eq!(render_module(&built), render_module(&emitted));
    assert!(render_module(&built).contains("assign w1 = ~w0;"));
    Ok(())
}

#[test]
fn sync_emittable_check_matches_emitter_conditions() -> Result<(), Error> {
    let c = counter::<8>()?;
    assert!(is_sync_emittable(c.graph(), c.state_wire_count(), c.input_wires(), c.output_wires(), c.initial_state()));
    assert!(!is_sync_emittable(c.graph(), 5, c.input_wires(), c.output_wires(), c.initial_state()));
    let (bld, wide) = HdlGraphBuilder::new().with_wire(WireTy::Bits(200));
    let (bld, out) = bld.with_wire(WireTy::Bits(200));
    let bld = bld.with_instruction(Op::Not, vec![wide], out)?;
    let g = bld.build();
    assert!(consts_checked(&g));
    assert!(!is_sync_emittable(&g, 1, &[wide], &[out], &BitSeq::new()));
    let (bld, k) = HdlGraphBuilder::new().with_wire(WireTy::Bits(130));
    let bld = bld.with_instruction(Op::Const { bits: BitSeq::from_vec(vec![false; 130]), ty: WireTy::Bits(130) }, vec![], k)?;
    assert!(!consts_checked(&bld.build()));
    Ok(())
}

#[test]
fn expr_is_clone_and_debug() {
    let e = Expr::Wire("a".into());
    let _ = e.clone();
    let _ = format!("{e:?}");
}
