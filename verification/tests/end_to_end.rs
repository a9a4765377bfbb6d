use hdl_cat::bit_seq::BitSeq;
use hdl_cat::bits::Bits;
use hdl_cat::circuit::coherence::wired_braid;
use hdl_cat::circuit::gates::not_bits;
use hdl_cat::circuit::object::{CircuitTensor, CircuitUnit, Obj};
use hdl_cat::components::{accumulator, counter, down_counter, full_adder, half_adder, toggle_ff};
use hdl_cat::error::Error;
use hdl_cat::hw::Hw;
use hdl_cat::sim::interp::interpret;
use hdl_cat::sim::sample::TimedSample;
use hdl_cat::sim::testbench::Testbench;
use hdl_cat::sync::compose::{compose_sync, par_sync};
use hdl_cat::sync::machine::Sync;
use hdl_cat::verilog::emitter::{emit_graph, emit_sync_graph};

type Inv4 = Sync<CircuitUnit, Obj<Bits<4>>, Obj<Bits<4>>>;

fn decode4(samples: &[TimedSample<BitSeq>]) -> Result<Vec<u128>, Error> {
    samples.iter().map(|s| Bits::<4>::from_bits_seq(s.value()).map(Bits::to_u128)).collect()
}

fn decode8(samples: &[TimedSample<BitSeq>]) -> Result<Vec<u128>, Error> {
    samples.iter().map(|s| Bits::<8>::from_bits_seq(s.value()).map(Bits::to_u128)).collect()
}

#[test]
fn inverter_simulates_and_emits_verilog() -> Result<(), Error> {
    let inv = not_bits::<4>()?;
    let m: Inv4 = Sync::lift_comb(not_bits::<4>()?);
    let inputs = vec![
        Bits::<4>::try_new(0x0)?.to_bits_seq(),
        Bits::<4>::try_new(0xf)?.to_bits_seq(),
        Bits::<4>::try_new(0xa)?.to_bits_seq(),
    ];
    let samples = Testbench::new(m).run(inputs).run()?;
    assert_eq!(samples.len(), 3);
    let v0 = Bits::<4>::from_bits_seq(samples[0].value())?;
    assert_eq!(v0.to_u128(), 0xf);
    let module = emit_graph(inv.graph(), "inv4", inv.inputs(), inv.outputs()).run()?;
    let text = module.render().run()?;
    assert!(text.contains("module inv4"));
    assert!(text.contains("assign"));
    assert!(text.contains("input"));
    assert!(text.contains("output"));
    Ok(())
}

#[test]
fn half_adder_emits_and_simulates() -> Result<(), Error> {
    let ha = half_adder()?;
    assert_eq!(ha.inputs().len(), 2);
    assert_eq!(ha.outputs().len(), 2);
    assert_eq!(ha.graph().instructions().len(), 2);
    let env = interpret(ha.graph(), ha.inputs(), &[BitSeq::from_iter([true]), BitSeq::from_iter([true])])?;
    let sum = &env[ha.outputs()[0].index()];
    let carry = &env[ha.outputs()[1].index()];
    assert_eq!(sum.as_ref().map(|s| s.bit(0)), Some(false));
    assert_eq!(carry.as_ref().map(|s| s.bit(0)), Some(true));
    let module = emit_graph(ha.graph(), "half_adder", ha.inputs(), ha.outputs()).run()?;
    let text = module.render().run()?;
    assert!(text.contains("module half_adder"));
    Ok(())
}

#[test]
fn full_adder_has_five_instructions() -> Result<(), Error> {
    let fa = full_adder()?;
    assert_eq!(fa.graph().instructions().len(), 5);
    Ok(())
}

#[test]
fn compose_sync_of_two_inverters_is_identity() -> Result<(), Error> {
    let ma: Inv4 = Sync::lift_comb(not_bits::<4>()?);
    let mb: Inv4 = Sync::lift_comb(not_bits::<4>()?);
    let composed = compose_sync(ma, mb);
    let inputs = vec![
        Bits::<4>::try_new(0x3)?.to_bits_seq(),
        Bits::<4>::try_new(0x5)?.to_bits_seq(),
        Bits::<4>::try_new(0xa)?.to_bits_seq(),
    ];
    let samples = Testbench::new(composed).run(inputs).run()?;
    assert_eq!(samples.len(), 3);
    assert_eq!(decode4(&samples)?, vec![0x3, 0x5, 0xa]);
    Ok(())
}

#[test]
fn counter_increments_each_cycle() -> Result<(), Error> {
    let c = counter::<8>()?;
    let inputs: Vec<BitSeq> = (0..16).map(|_| BitSeq::new()).collect();
    let samples = Testbench::new(c).run(inputs).run()?;
    assert_eq!(samples.len(), 16);
    assert_eq!(decode8(&samples)?, (0u128..16).collect::<Vec<_>>());
    Ok(())
}

#[test]
fn counter_wraps_at_bit_width() -> Result<(), Error> {
    let c = counter::<4>()?;
    let inputs: Vec<BitSeq> = (0..18).map(|_| BitSeq::new()).collect();
    let samples = Testbench::new(c).run(inputs).run()?;
    let expected: Vec<u128> = (0..16).chain(0..2).collect();
    assert_eq!(decode4(&samples)?, expected);
    Ok(())
}

#[test]
fn counter_emits_verilog_combinational_view() -> Result<(), Error> {
    let c = counter::<8>()?;
    let module = emit_graph(c.graph(), "counter8", c.input_wires(), c.output_wires()).run()?;
    let text = module.render().run()?;
    assert!(text.contains("module counter8"));
    assert!(text.contains("assign"));
    assert!(text.contains('+'));
    Ok(())
}

#[test]
fn counter_emits_stateful_verilog() -> Result<(), Error> {
    let c = counter::<8>()?;
    let module = emit_sync_graph(
        c.graph(),
        "counter8",
        c.state_wire_count(),
        c.input_wires(),
        c.output_wires(),
        c.initial_state(),
    )
    .run()?;
    let text = module.render().run()?;
    assert!(text.contains("module counter8"));
    assert!(text.contains("input clk"));
    assert!(text.contains("input rst"));
    assert!(text.contains("output reg [7:0] w0"));
    assert!(text.contains("always_ff @(posedge clk)"));
    assert!(text.contains("w0 <= 8'd0"));
    assert!(text.contains("w0 <= w2"));
    assert_eq!(text.matches("input [7:0] w0").count(), 0);
    Ok(())
}

#[test]
fn toggle_ff_flips_each_cycle() -> Result<(), Error> {
    let t = toggle_ff()?;
    let inputs: Vec<BitSeq> = (0..5).map(|_| BitSeq::new()).collect();
    let samples = Testbench::new(t).run(inputs).run()?;
    let bits: Vec<bool> = samples.iter().map(|s| s.value().bit(0)).collect();
    assert_eq!(bits, vec![false, true, false, true, false]);
    Ok(())
}

#[test]
fn accumulator_sums_inputs() -> Result<(), Error> {
    let acc = accumulator::<8>()?;
    let inputs: Vec<BitSeq> =
        [3u128, 5, 10, 2].iter().map(|&v| Bits::<8>::try_new(v).map(|b| b.to_bits_seq())).collect::<Result<_, _>>()?;
    let samples = Testbench::new(acc).run(inputs).run()?;
    assert_eq!(decode8(&samples)?, vec![3, 8, 18, 20]);
    Ok(())
}

#[test]
fn down_counter_wraps_correctly() -> Result<(), Error> {
    let d = down_counter::<4>()?;
    let inputs: Vec<BitSeq> = (0..18).map(|_| BitSeq::new()).collect();
    let samples = Testbench::new(d).run(inputs).run()?;
    let expected: Vec<u128> = (0..16u128).rev().chain((0..16u128).rev().take(2)).collect();
    assert_eq!(decode4(&samples)?, expected);
    Ok(())
}

#[test]
fn braid_swaps_tensor_halves_under_simulation() -> Result<(), Error> {
    type A4 = Obj<Bits<4>>;
    type A8 = Obj<Bits<8>>;
    let braid_arrow = wired_braid::<A4, A8>().into_forward();
    let m: Sync<CircuitUnit, CircuitTensor<A4, A8>, CircuitTensor<A8, A4>> = Sync::lift_comb(braid_arrow);
    let a4_bits = Bits::<4>::try_new(0xa)?.to_bits_seq();
    let a8_bits = Bits::<8>::try_new(0x42)?.to_bits_seq();
    let input_bits = a4_bits.concat(a8_bits);
    let samples = Testbench::new(m).run(vec![input_bits]).run()?;
    assert_eq!(samples.len(), 1);
    let out = samples[0].value();
    assert_eq!(out.len(), 12);
    let a8_out = BitSeq::from_vec(out.as_slice().iter().take(8).copied().collect());
    let a4_out = BitSeq::from_vec(out.as_slice().iter().skip(8).take(4).copied().collect());
    assert_eq!(Bits::<8>::from_bits_seq(&a8_out)?.to_u128(), 0x42);
    assert_eq!(Bits::<4>::from_bits_seq(&a4_out)?.to_u128(), 0xa);
    Ok(())
}

#[test]
fn par_sync_runs_two_independent_inverters() -> Result<(), Error> {
    let ma: Inv4 = Sync::lift_comb(not_bits::<4>()?);
    let mb: Inv4 = Sync::lift_comb(not_bits::<4>()?);
    let paired = par_sync(ma, mb);
    let bits_a = Bits::<4>::try_new(0x0)?.to_bits_seq();
    let bits_b = Bits::<4>::try_new(0xf)?.to_bits_seq();
    let samples = Testbench::new(paired).run(vec![bits_a.concat(bits_b)]).run()?;
    assert_eq!(samples.len(), 1);
    let out = samples[0].value();
    assert_eq!(out.len(), 8);
    let low: Vec<bool> = out.as_slice().iter().take(4).copied().collect();
    assert_eq!(low, vec![true, true, true, true]);
    let high: Vec<bool> = out.as_slice().iter().skip(4).take(4).copied().collect();
    assert_eq!(high, vec![false, false, false, false]);
    Ok(())
}

#[test]
fn deferred_sync_emission_refuses_wrong_initial_state() -> Result<(), Error> {
    let c = counter::<8>()?;
    let result = emit_sync_graph(
        c.graph(),
        "counter8",
        c.state_wire_count(),
        c.input_wires(),
        c.output_wires(),
        &BitSeq::from_iter([true]),
    )
    .run();
    assert!(matches!(result, Err(Error::WidthMismatch { .. })));
    Ok(())
}
