use hdl_cat::bit_seq::BitSeq;
use hdl_cat::bits::Bits;
use hdl_cat::components::{accumulator, counter, toggle_ff};
use hdl_cat::sim::testbench::Testbench;
use hdl_cat::circuit::gates::not_bits;
use hdl_cat::circuit::object::{CircuitTensor, CircuitUnit, Obj};
use hdl_cat::error::Error;
use hdl_cat::hw::Hw;
use hdl_cat::ir::builder::HdlGraphBuilder;
use hdl_cat::ir::op::{BinOp, Op};
use hdl_cat::ir::wire::{WireId, WireTy};
use hdl_cat::sync::compose::{compose_sync, feedback_sync, par_sync};
use hdl_cat::sync::machine::{empty_sync, from_raw, Sync};

type Inv4 = Sync<CircuitUnit, Obj<Bits<4>>, Obj<Bits<4>>>;

#[test]
fn compose_two_stateless_inverters_flattens() -> Result<(), Error> {
    let inv_a = not_bits::<4>()?;
    let inv_b = not_bits::<4>()?;
    let ma: Inv4 = Sync::lift_comb(inv_a);
    let mb: Inv4 = Sync::lift_comb(inv_b);
    let composed = compose_sync(ma, mb);
    assert_eq!(composed.state_wire_count(), 0);
    assert_eq!(composed.graph().instructions().len(), 2);
    assert_eq!(composed.input_wires().len(), 1);
    assert_eq!(composed.output_wires().len(), 1);
    Ok(())
}

#[test]
fn par_two_stateless_halves_doubles_ports() -> Result<(), Error> {
    let inv_a = not_bits::<4>()?;
    let inv_b = not_bits::<4>()?;
    let ma: Inv4 = Sync::lift_comb(inv_a);
    let mb: Inv4 = Sync::lift_comb(inv_b);
    let paired = par_sync(ma, mb);
    assert_eq!(paired.state_wire_count(), 0);
    assert_eq!(paired.input_wires().len(), 2);
    assert_eq!(paired.output_wires().len(), 2);
    assert_eq!(paired.graph().instructions().len(), 2);
    Ok(())
}

#[test]
fn compose_preserves_state_widths() -> Result<(), Error> {
    let (bld, s) = HdlGraphBuilder::new().with_wire(WireTy::Bits(4));
    let (bld, inp) = bld.with_wire(WireTy::Bits(4));
    let (bld, s_next) = bld.with_wire(WireTy::Bits(4));
    let (bld, out) = bld.with_wire(WireTy::Bits(4));
    let (bld, mask) = bld.with_wire(WireTy::Bits(4));
    let bld = bld.with_instruction(
        Op::Const { bits: BitSeq::from_iter([true, true, true, true]), ty: WireTy::Bits(4) },
        vec![],
        mask,
    )?;
    let bld = bld.with_instruction(Op::Bin(BinOp::And), vec![s, mask], s_next)?;
    let bld = bld.with_instruction(Op::Bin(BinOp::And), vec![inp, mask], out)?;
    let graph = bld.build();
    let m1: Sync<Obj<Bits<4>>, Obj<Bits<4>>, Obj<Bits<4>>> =
        from_raw(graph.clone(), vec![s, inp], vec![s_next, out], Bits::<4>::try_new(5)?.to_bits_seq(), 1);
    let m2: Sync<Obj<Bits<4>>, Obj<Bits<4>>, Obj<Bits<4>>> =
        from_raw(graph, vec![s, inp], vec![s_next, out], Bits::<4>::try_new(9)?.to_bits_seq(), 1);
    let composed = compose_sync(m1, m2);
    assert_eq!(composed.state_wire_count(), 2);
    assert_eq!(composed.initial_state().len(), 8);
    Ok(())
}

#[test]
fn feedback_wires_output_back_to_input() -> Result<(), Error> {
    let (bld, i_in) = HdlGraphBuilder::new().with_wire(WireTy::Bit);
    let (bld, o_fb) = bld.with_wire(WireTy::Bit);
    let (bld, out) = bld.with_wire(WireTy::Bit);
    let bld = bld.with_instruction(Op::Bin(BinOp::And), vec![i_in, o_fb], out)?;
    let graph = bld.build();
    let f: Sync<CircuitUnit, CircuitTensor<Obj<bool>, Obj<bool>>, Obj<bool>> =
        from_raw(graph, vec![i_in, o_fb], vec![out], BitSeq::new(), 0);
    let closed = feedback_sync(f, BitSeq::from_iter([true]))?;
    assert_eq!(closed.state_wire_count(), 1);
    assert_eq!(closed.initial_state().len(), 1);
    assert_eq!(closed.input_wires().len(), 2);
    assert_eq!(closed.output_wires().len(), 2);
    Ok(())
}

#[test]
fn lift_comb_preserves_arrow_shape() -> Result<(), Error> {
    let inv = not_bits::<4>()?;
    let m: Inv4 = Sync::lift_comb(inv);
    assert_eq!(m.initial_state().len(), 0);
    assert_eq!(m.input_wires().len(), 1);
    assert_eq!(m.output_wires().len(), 1);
    assert_eq!(m.graph().instructions().len(), 1);
    Ok(())
}

#[test]
fn empty_sync_has_empty_graph() {
    let m: Sync<CircuitUnit, Obj<bool>, Obj<bool>> = empty_sync();
    assert_eq!(m.graph().wires().len(), 0);
    assert_eq!(m.graph().instructions().len(), 0);
    assert_eq!(m.input_wires().len(), 0);
    assert_eq!(m.output_wires().len(), 0);
}

#[test]
fn from_raw_stores_provided_data() {
    let g = HdlGraphBuilder::new().build();
    let m: Sync<CircuitUnit, Obj<bool>, Obj<bool>> = from_raw(g, Vec::new(), Vec::new(), BitSeq::new(), 0);
    assert_eq!(m.initial_state().len(), 0);
    assert_eq!(m.state_wire_count(), 0);
}

#[test]
fn from_arrow_rejects_wrong_state_width() -> Result<(), Error> {
    let inv = not_bits::<4>()?;
    // The unit state has width 0, so a non-empty initial state is refused.
    let result = Sync::<CircuitUnit, Obj<Bits<4>>, Obj<Bits<4>>>::from_arrow(inv, BitSeq::from_iter([true, false]));
    assert!(result.is_err());
    Ok(())
}

#[test]
fn from_arrow_accepts_matching_widths() -> Result<(), Error> {
    let inv = not_bits::<4>()?;
    let m = Sync::<CircuitUnit, Obj<Bits<4>>, Obj<Bits<4>>>::from_arrow(inv, BitSeq::new())?;
    assert_eq!(m.initial_state().len(), 0);
    assert_eq!(m.input_wires().len(), 1);
    assert_eq!(m.output_wires().len(), 1);
    Ok(())
}

#[test]
fn compose_shifts_second_machine_wires_past_the_first() -> Result<(), Error> {
    let ma: Inv4 = Sync::lift_comb(not_bits::<4>()?);
    let mb: Inv4 = Sync::lift_comb(not_bits::<4>()?);
    let na = ma.graph().wires().len();
    let composed = compose_sync(ma, mb);
    assert_eq!(composed.graph().wires().len(), 2 * na);
    assert_eq!(composed.input_wires()[0], WireId::new(0));
    assert_eq!(composed.output_wires()[0], WireId::new(2 * na - 1));
    Ok(())
}

#[test]
fn feedback_refuses_wrong_initial_width() -> Result<(), Error> {
    let (bld, i_in) = HdlGraphBuilder::new().with_wire(WireTy::Bit);
    let (bld, o_fb) = bld.with_wire(WireTy::Bit);
    let (bld, out) = bld.with_wire(WireTy::Bit);
    let bld = bld.with_instruction(Op::Bin(BinOp::And), vec![i_in, o_fb], out)?;
    let f: Sync<CircuitUnit, CircuitTensor<Obj<bool>, Obj<bool>>, Obj<bool>> =
        from_raw(bld.build(), vec![i_in, o_fb], vec![out], BitSeq::new(), 0);
    assert!(feedback_sync(f, BitSeq::from_iter([true, false])).is_err());
    Ok(())
}

#[test]
fn compose_shifts_second_machine_data_outputs() -> Result<(), Error> {
    let ma: Inv4 = Sync::lift_comb(not_bits::<4>()?);
    let (bld, w) = HdlGraphBuilder::new().with_wire(WireTy::Bits(4));
    let passthrough: Inv4 = from_raw(bld.build(), vec![w], vec![w], BitSeq::new(), 0);
    let na = ma.graph().wires().len();
    let composed = compose_sync(ma, passthrough);
    assert_eq!(composed.output_wires(), &[WireId::new(na)]);
    assert_eq!(composed.graph().instructions().len(), 1);
    Ok(())
}

#[test]
fn composed_counter_and_accumulator_sum_the_counts() -> Result<(), Error> {
    let composed = compose_sync(counter::<8>()?, accumulator::<8>()?);
    let inputs: Vec<BitSeq> = (0..5).map(|_| BitSeq::new()).collect();
    let samples = Testbench::new(composed).run(inputs).run()?;
    let values: Vec<u128> = samples
        .iter()
        .map(|s| Bits::<8>::from_bits_seq(s.value()).map(Bits::to_u128))
        .collect::<Result<Vec<_>, _>>()?;
    assert_eq!(values, vec![0, 1, 3, 6, 10]);
    Ok(())
}

#[test]
fn parallel_counter_and_toggle_run_independently() -> Result<(), Error> {
    let paired = par_sync(counter::<4>()?, toggle_ff()?);
    let inputs: Vec<BitSeq> = (0..4).map(|_| BitSeq::new()).collect();
    let samples = Testbench::new(paired).run(inputs).run()?;
    let got: Vec<(u128, bool)> = samples
        .iter()
        .map(|s| {
            let bits = s.value().as_slice();
            let count = BitSeq::from_vec(bits[..4].to_vec());
            Bits::<4>::from_bits_seq(&count).map(|b| (b.to_u128(), bits[4]))
        })
        .collect::<Result<Vec<_>, _>>()?;
    assert_eq!(got, vec![(0, false), (1, true), (2, false), (3, true)]);
    Ok(())
}

#[test]
fn feedback_and_gate_latches_low() -> Result<(), Error> {
    let (bld, i_in) = HdlGraphBuilder::new().with_wire(WireTy::Bit);
    let (bld, o_fb) = bld.with_wire(WireTy::Bit);
    let (bld, out) = bld.with_wire(WireTy::Bit);
    let bld = bld.with_instruction(Op::Bin(BinOp::And), vec![i_in, o_fb], out)?;
    let f: Sync<CircuitUnit, CircuitTensor<Obj<bool>, Obj<bool>>, Obj<bool>> =
        from_raw(bld.build(), vec![i_in, o_fb], vec![out], BitSeq::new(), 0);
    let closed = feedback_sync(f, BitSeq::from_iter([true]))?;
    let inputs: Vec<BitSeq> = [true, true, false, true, true]
        .iter()
        .map(|b| BitSeq::from_iter([*b]))
        .collect();
    let samples = Testbench::new(closed).run(inputs).run()?;
    let got: Vec<bool> = samples.iter().map(|s| s.value().as_slice()[0]).collect();
    assert_eq!(got, vec![true, true, false, false, false]);
    Ok(())
}
