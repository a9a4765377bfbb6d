use hdl_cat::bit_seq::BitSeq;
use hdl_cat::bits::Bits;
use hdl_cat::circuit::gates;
use hdl_cat::circuit::object::{CircuitUnit, Obj};
use hdl_cat::error::{Cycle, Error};
use hdl_cat::hw::Hw;
use hdl_cat::ir::builder::HdlGraphBuilder;
use hdl_cat::ir::op::{BinOp, Op};
use hdl_cat::ir::wire::WireTy;
use hdl_cat::components::counter;
use hdl_cat::sim::interp::{apply_op, graph_ops_checked, interpret};
use hdl_cat::sim::sample::TimedSample;
use hdl_cat::sim::testbench::{is_runnable, run_cycles, split_by_widths, Testbench};
use hdl_cat::sim::vcd::{is_traceable, trace_to_string};
use hdl_cat::sync::machine::{from_raw, Sync};

fn bits_of(v: u128, n: usize) -> BitSeq {
    BitSeq::from_vec((0..n).map(|i| (v >> i) & 1 == 1).collect())
}

fn value_of(s: &BitSeq) -> u128 {
    s.as_slice().iter().enumerate().fold(0u128, |acc, (i, b)| acc | (u128::from(*b) << i))
}

#[test]
fn not_inverts_all_bits() -> Result<(), Error> {
    let input = BitSeq::from_iter([true, false, true, false]);
    let out = apply_op(&Op::Not, &[input])?;
    assert_eq!(out.as_slice(), &[false, true, false, true]);
    Ok(())
}

#[test]
fn and_computes_bitwise() -> Result<(), Error> {
    let a = BitSeq::from_iter([true, true, false, false]);
    let b = BitSeq::from_iter([true, false, true, false]);
    let out = apply_op(&Op::Bin(BinOp::And), &[a, b])?;
    assert_eq!(out.as_slice(), &[true, false, false, false]);
    Ok(())
}

#[test]
fn add_wraps_within_width() -> Result<(), Error> {
    let out = apply_op(&Op::Bin(BinOp::Add), &[bits_of(200, 8), bits_of(100, 8)])?;
    assert_eq!(value_of(&out), 44);
    Ok(())
}

#[test]
fn sub_and_mul_wrap_within_width() -> Result<(), Error> {
    let d = apply_op(&Op::Bin(BinOp::Sub), &[bits_of(3, 4), bits_of(5, 4)])?;
    assert_eq!(value_of(&d), 14);
    let p = apply_op(&Op::Bin(BinOp::Mul), &[bits_of(7, 4), bits_of(5, 4)])?;
    assert_eq!(value_of(&p), 3);
    Ok(())
}

#[test]
fn arithmetic_beyond_128_bits_overflows() {
    let a = BitSeq::filled(false, 129);
    let b = BitSeq::filled(false, 129);
    match apply_op(&Op::Bin(BinOp::Add), &[a, b]) {
        Err(Error::Overflow { width }) => assert_eq!(width.bits(), 129),
        _ => panic!("expected an overflow"),
    }
}

#[test]
fn mismatched_operand_widths_fail() {
    let r = apply_op(&Op::Bin(BinOp::Xor), &[bits_of(1, 2), bits_of(1, 3)]);
    assert!(matches!(r, Err(Error::WidthMismatch { .. })));
}

#[test]
fn mux_selects_by_selector() -> Result<(), Error> {
    let sel_false = BitSeq::from_iter([false]);
    let sel_true = BitSeq::from_iter([true]);
    let lo = BitSeq::from_iter([true, false]);
    let hi = BitSeq::from_iter([false, true]);
    let r_false = apply_op(&Op::Mux, &[sel_false, lo.clone(), hi.clone()])?;
    let r_true = apply_op(&Op::Mux, &[sel_true, lo.clone(), hi.clone()])?;
    assert_eq!(r_false.as_slice(), lo.as_slice());
    assert_eq!(r_true.as_slice(), hi.as_slice());
    Ok(())
}

#[test]
fn eq_produces_single_bit() -> Result<(), Error> {
    let a = BitSeq::from_iter([true, false, true, false]);
    let b = BitSeq::from_iter([true, false, true, false]);
    let out = apply_op(&Op::Bin(BinOp::Eq), &[a, b])?;
    assert_eq!(out.as_slice(), &[true]);
    Ok(())
}

#[test]
fn lt_produces_single_bit() -> Result<(), Error> {
    let a = BitSeq::from_iter([false, false, true, false]);
    let b = BitSeq::from_iter([true, false, true, false]);
    let out = apply_op(&Op::Bin(BinOp::Lt), &[a, b])?;
    assert_eq!(out.as_slice(), &[true]);
    Ok(())
}

#[test]
fn concat_joins_bit_sequences() -> Result<(), Error> {
    let low = BitSeq::from_iter([true, false]);
    let high = BitSeq::from_iter([true, true]);
    let out = apply_op(&Op::Concat { low_width: 2, high_width: 2 }, &[low, high])?;
    assert_eq!(out.as_slice(), &[true, false, true, true]);
    Ok(())
}

#[test]
fn slice_extracts_range() -> Result<(), Error> {
    let input = BitSeq::from_iter([true, false, true, false, true]);
    let out = apply_op(&Op::Slice { lo: 1, hi: 4 }, &[input])?;
    assert_eq!(out.as_slice(), &[false, true, false]);
    Ok(())
}

#[test]
fn array_ops_shift_and_read_tail() -> Result<(), Error> {
    let arr = BitSeq::from_iter([true, false, false, true]);
    let elem = BitSeq::from_iter([true, true]);
    let shifted = apply_op(&Op::ArrayShiftIn { element_width: 2, depth: 2 }, &[arr.clone(), elem])?;
    assert_eq!(shifted.as_slice(), &[true, true, true, false]);
    let tail = apply_op(&Op::ArrayTail { element_width: 2, depth: 2 }, &[arr])?;
    assert_eq!(tail.as_slice(), &[false, true]);
    Ok(())
}

#[test]
fn interpret_single_not_gate() -> Result<(), Error> {
    let (bld, a) = HdlGraphBuilder::new().with_wire(WireTy::Bit);
    let (bld, b) = bld.with_wire(WireTy::Bit);
    let bld = bld.with_instruction(Op::Not, vec![a], b)?;
    let g = bld.build();
    let env = interpret(&g, &[a], &[BitSeq::from_iter([true])])?;
    assert_eq!(env[b.index()].as_ref().map(|s| s.bit(0)), Some(false));
    Ok(())
}

#[test]
fn interpret_chains_instructions() -> Result<(), Error> {
    let (bld, lhs) = HdlGraphBuilder::new().with_wire(WireTy::Bit);
    let (bld, rhs) = bld.with_wire(WireTy::Bit);
    let (bld, sel) = bld.with_wire(WireTy::Bit);
    let (bld, xor_out) = bld.with_wire(WireTy::Bit);
    let (bld, out) = bld.with_wire(WireTy::Bit);
    let bld = bld.with_instruction(Op::Bin(BinOp::Xor), vec![lhs, rhs], xor_out)?;
    let bld = bld.with_instruction(Op::Bin(BinOp::And), vec![xor_out, sel], out)?;
    let graph = bld.build();
    let env = interpret(
        &graph,
        &[lhs, rhs, sel],
        &[BitSeq::from_iter([true]), BitSeq::from_iter([false]), BitSeq::from_iter([true])],
    )?;
    assert_eq!(env[out.index()].as_ref().map(|s| s.bit(0)), Some(true));
    Ok(())
}

#[test]
fn interpret_reports_undefined_operand() -> Result<(), Error> {
    let (bld, a) = HdlGraphBuilder::new().with_wire(WireTy::Bit);
    let (bld, b) = bld.with_wire(WireTy::Bit);
    let bld = bld.with_instruction(Op::Not, vec![a], b)?;
    let g = bld.build();
    match interpret(&g, &[], &[]) {
        Err(Error::UndefinedSignal { name }) => assert_eq!(name.as_str(), "w0"),
        _ => panic!("expected an undefined signal"),
    }
    Ok(())
}

#[test]
fn sample_holds_cycle_and_value() {
    let s = TimedSample::new(Cycle::new(3), 42u32);
    assert_eq!(s.cycle().index(), 3);
    assert_eq!(*s.value(), 42);
}

#[test]
fn into_value_consumes() {
    let s = TimedSample::new(Cycle::new(0), "hello".to_string());
    assert_eq!(s.into_value(), "hello");
}

#[test]
fn split_by_widths_cuts_in_order() -> Result<(), Error> {
    let parts = split_by_widths(&BitSeq::from_iter([true, false, true, true, false]), &vec![2, 3])?;
    assert_eq!(parts.len(), 2);
    assert_eq!(parts[0].as_slice(), &[true, false]);
    assert_eq!(parts[1].as_slice(), &[true, true, false]);
    assert!(split_by_widths(&BitSeq::from_iter([true]), &vec![2]).is_err());
    Ok(())
}

#[test]
fn stateless_inverter_inverts_each_cycle() -> Result<(), Error> {
    let inv = gates::not_bits::<4>()?;
    let m: Sync<CircuitUnit, Obj<Bits<4>>, Obj<Bits<4>>> = Sync::lift_comb(inv);
    let inputs = vec![
        Bits::<4>::try_new(0x0)?.to_bits_seq(),
        Bits::<4>::try_new(0xf)?.to_bits_seq(),
        Bits::<4>::try_new(0xa)?.to_bits_seq(),
    ];
    let samples = Testbench::new(m).run(inputs).run()?;
    assert_eq!(samples.len(), 3);
    let v0 = Bits::<4>::from_bits_seq(samples[0].value())?;
    let v1 = Bits::<4>::from_bits_seq(samples[1].value())?;
    let v2 = Bits::<4>::from_bits_seq(samples[2].value())?;
    assert_eq!(v0.to_u128(), 0xf);
    assert_eq!(v1.to_u128(), 0x0);
    assert_eq!(v2.to_u128(), 0x5);
    Ok(())
}

#[test]
fn cycles_are_indexed_from_zero() -> Result<(), Error> {
    let inv = gates::not_bits::<2>()?;
    let m: Sync<CircuitUnit, Obj<Bits<2>>, Obj<Bits<2>>> = Sync::lift_comb(inv);
    let inputs = vec![Bits::<2>::try_new(0b00)?.to_bits_seq(), Bits::<2>::try_new(0b01)?.to_bits_seq()];
    let samples = Testbench::new(m).run(inputs).run()?;
    assert_eq!(samples[0].cycle().index(), 0);
    assert_eq!(samples[1].cycle().index(), 1);
    Ok(())
}

#[test]
fn empty_inputs_produces_no_samples() -> Result<(), Error> {
    let inv = gates::not_bits::<4>()?;
    let m: Sync<CircuitUnit, Obj<Bits<4>>, Obj<Bits<4>>> = Sync::lift_comb(inv);
    let samples = Testbench::new(m).run(Vec::new()).run()?;
    assert!(samples.is_empty());
    Ok(())
}

#[test]
fn simulate_matches_run() -> Result<(), Error> {
    let inv = gates::not_bits::<4>()?;
    let m: Sync<CircuitUnit, Obj<Bits<4>>, Obj<Bits<4>>> = Sync::lift_comb(inv);
    let samples = Testbench::new(m).simulate(vec![Bits::<4>::try_new(0x3)?.to_bits_seq()])?;
    assert_eq!(Bits::<4>::from_bits_seq(samples[0].value())?.to_u128(), 0xc);
    Ok(())
}

#[test]
fn wrong_input_width_fails_the_run() -> Result<(), Error> {
    let inv = gates::not_bits::<4>()?;
    let m: Sync<CircuitUnit, Obj<Bits<4>>, Obj<Bits<4>>> = Sync::lift_comb(inv);
    let r = run_cycles(&m, vec![BitSeq::from_iter([true, false])]);
    assert!(matches!(r, Err(Error::WidthMismatch { .. })));
    Ok(())
}

#[test]
fn stateful_machine_threads_state_across_cycles() -> Result<(), Error> {
    let (bld, state) = HdlGraphBuilder::new().with_wire(WireTy::Bits(4));
    let (bld, data_in) = bld.with_wire(WireTy::Bits(4));
    let (bld, one) = bld.with_wire(WireTy::Bits(4));
    let (bld, next_state) = bld.with_wire(WireTy::Bits(4));
    let (bld, data_out) = bld.with_wire(WireTy::Bits(4));
    let bld = bld.with_instruction(
        Op::Const { bits: BitSeq::from_iter([true, false, false, false]), ty: WireTy::Bits(4) },
        vec![],
        one,
    )?;
    let bld = bld.with_instruction(Op::Bin(BinOp::Add), vec![state, one], next_state)?;
    let (bld, mask) = bld.with_wire(WireTy::Bits(4));
    let bld = bld.with_instruction(
        Op::Const { bits: BitSeq::from_iter([true, true, true, true]), ty: WireTy::Bits(4) },
        vec![],
        mask,
    )?;
    let bld = bld.with_instruction(Op::Bin(BinOp::And), vec![state, mask], data_out)?;
    let graph = bld.build();
    let m: Sync<Obj<Bits<4>>, Obj<Bits<4>>, Obj<Bits<4>>> =
        from_raw(graph, vec![state, data_in], vec![next_state, data_out], Bits::<4>::try_new(0)?.to_bits_seq(), 1);
    let inputs: Vec<BitSeq> =
        (0..4).map(|i| Bits::<4>::try_new(i).unwrap_or(Bits::<4>::zero()).to_bits_seq()).collect();
    let samples = Testbench::new(m).run(inputs).run()?;
    assert_eq!(samples.len(), 4);
    let values: Vec<u128> = samples
        .iter()
        .map(|s| Bits::<4>::from_bits_seq(s.value()).map(|b| b.to_u128()))
        .collect::<Result<Vec<_>, _>>()?;
    assert_eq!(values, vec![0, 1, 2, 3]);
    Ok(())
}

#[test]
fn vcd_header_is_well_formed() -> Result<(), Error> {
    let inv = gates::not_bits::<4>()?;
    let m: Sync<CircuitUnit, Obj<Bits<4>>, Obj<Bits<4>>> = Sync::lift_comb(inv);
    let inputs = vec![Bits::<4>::try_new(0x5)?.to_bits_seq()];
    let vcd = trace_to_string(&m, inputs)?;
    assert!(vcd.contains("$version"));
    assert!(vcd.contains("$timescale"));
    assert!(vcd.contains("$scope module top"));
    assert!(vcd.contains("$var wire 4"));
    assert!(vcd.contains("$enddefinitions"));
    assert!(vcd.contains("$dumpvars"));
    Ok(())
}

#[test]
fn vcd_has_one_dumpvars_plus_timestamps_per_cycle() -> Result<(), Error> {
    let inv = gates::not_bits::<4>()?;
    let m: Sync<CircuitUnit, Obj<Bits<4>>, Obj<Bits<4>>> = Sync::lift_comb(inv);
    let inputs = vec![
        Bits::<4>::try_new(0x0)?.to_bits_seq(),
        Bits::<4>::try_new(0x1)?.to_bits_seq(),
        Bits::<4>::try_new(0x2)?.to_bits_seq(),
    ];
    let vcd = trace_to_string(&m, inputs)?;
    assert!(vcd.contains("#0"));
    assert!(vcd.contains("#10"));
    assert!(vcd.contains("#20"));
    Ok(())
}

#[test]
fn vcd_encodes_output_binary_msb_first() -> Result<(), Error> {
    let inv = gates::not_bits::<4>()?;
    let m: Sync<CircuitUnit, Obj<Bits<4>>, Obj<Bits<4>>> = Sync::lift_comb(inv);
    let inputs = vec![Bits::<4>::try_new(0xa)?.to_bits_seq()];
    let vcd = trace_to_string(&m, inputs)?;
    assert!(vcd.contains("b1010 v0"));
    assert!(vcd.contains("b0101 v1"));
    Ok(())
}

#[test]
fn vcd_emits_one_var_per_graph_wire() -> Result<(), Error> {
    let inv = gates::not_bits::<4>()?;
    let m: Sync<CircuitUnit, Obj<Bits<4>>, Obj<Bits<4>>> = Sync::lift_comb(inv);
    let inputs = vec![Bits::<4>::try_new(0x0)?.to_bits_seq()];
    let vcd = trace_to_string(&m, inputs)?;
    let var_count = vcd.matches("$var wire").count();
    assert_eq!(var_count, 2);
    Ok(())
}

#[test]
fn empty_inputs_produces_header_only() -> Result<(), Error> {
    let inv = gates::not_bits::<4>()?;
    let m: Sync<CircuitUnit, Obj<Bits<4>>, Obj<Bits<4>>> = Sync::lift_comb(inv);
    let vcd = trace_to_string(&m, Vec::new())?;
    assert!(vcd.contains("$enddefinitions"));
    assert!(!vcd.contains("#0\n"));
    Ok(())
}

#[test]
fn runnable_check_accepts_library_machines_and_refuses_bad_splits() -> Result<(), Error> {
    assert!(is_runnable(&counter::<8>()?));
    let g = HdlGraphBuilder::new().build();
    let bad: Sync<CircuitUnit, Obj<bool>, Obj<bool>> = from_raw(g, Vec::new(), Vec::new(), BitSeq::new(), 1);
    assert!(!is_runnable(&bad));
    Ok(())
}

#[test]
fn runnable_check_refuses_reversed_slice() -> Result<(), Error> {
    let (bld, a) = HdlGraphBuilder::new().with_wire(WireTy::Bits(4));
    let (bld, out) = bld.with_wire(WireTy::Bits(4));
    let bld = bld.with_instruction(Op::Slice { lo: 3, hi: 1 }, vec![a], out)?;
    let g = bld.build();
    assert!(!graph_ops_checked(&g));
    let m: Sync<CircuitUnit, Obj<Bits<4>>, Obj<Bits<4>>> = from_raw(g, vec![a], vec![out], BitSeq::new(), 0);
    assert!(!is_runnable(&m));
    Ok(())
}

#[test]
fn traceable_check_follows_state_split_and_ops() -> Result<(), Error> {
    assert!(is_traceable(&counter::<4>()?, 8));
    let g = HdlGraphBuilder::new().build();
    let bad: Sync<CircuitUnit, Obj<bool>, Obj<bool>> = from_raw(g, Vec::new(), Vec::new(), BitSeq::new(), 2);
    assert!(!is_traceable(&bad, 8));
    Ok(())
}

#[test]
fn array_ops_of_depth_zero_report_width_mismatch() {
    let arr = BitSeq::from_iter([true, false]);
    let elem = BitSeq::from_iter([true, true]);
    let shifted = apply_op(&Op::ArrayShiftIn { element_width: 2, depth: 0 }, &[arr.clone(), elem]);
    assert!(matches!(shifted, Err(Error::WidthMismatch { .. })));
    let tail = apply_op(&Op::ArrayTail { element_width: 2, depth: 0 }, &[arr]);
    assert!(matches!(tail, Err(Error::WidthMismatch { .. })));
}

#[test]
fn deferred_simulation_yields_what_simulate_returns() -> Result<(), Error> {
    let inputs: Vec<BitSeq> = (0..3).map(|_| BitSeq::new()).collect();
    let direct = Testbench::new(counter::<4>()?).simulate(inputs.clone())?;
    let deferred = Testbench::new(counter::<4>()?).run(inputs).run()?;
    let dv: Vec<u128> = direct.iter().map(|s| value_of(s.value())).collect();
    let rv: Vec<u128> = deferred.iter().map(|s| value_of(s.value())).collect();
    assert_eq!(dv, vec![0, 1, 2]);
    assert_eq!(rv, dv);
    Ok(())
}
