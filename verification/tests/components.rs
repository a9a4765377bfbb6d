use hdl_cat::bit_seq::BitSeq;
use hdl_cat::bits::Bits;
use hdl_cat::components::{accumulator, counter, down_counter, full_adder, half_adder, shift_register_left, toggle_ff};
use hdl_cat::error::Error;
use hdl_cat::hw::Hw;
use hdl_cat::sim::testbench::Testbench;

fn empties(n: usize) -> Vec<BitSeq> {
    (0..n).map(|_| BitSeq::new()).collect()
}

#[test]
fn accumulator_has_one_state_and_one_input_wire() -> Result<(), Error> {
    let acc = accumulator::<8>()?;
    assert_eq!(acc.state_wire_count(), 1);
    assert_eq!(acc.input_wires().len(), 2);
    assert_eq!(acc.output_wires().len(), 2);
    Ok(())
}

#[test]
fn accumulator_initial_state_is_zero() -> Result<(), Error> {
    let acc = accumulator::<8>()?;
    assert_eq!(acc.initial_state().len(), 8);
    assert!(acc.initial_state().as_slice().iter().all(|b| !*b));
    Ok(())
}

#[test]
fn accumulator_has_one_add_instruction() -> Result<(), Error> {
    let acc = accumulator::<4>()?;
    assert_eq!(acc.graph().instructions().len(), 1);
    Ok(())
}

#[test]
fn half_adder_builds() -> Result<(), Error> {
    let ha = half_adder()?;
    assert_eq!(ha.inputs().len(), 2);
    assert_eq!(ha.outputs().len(), 2);
    assert_eq!(ha.graph().instructions().len(), 2);
    Ok(())
}

#[test]
fn half_adder_sum_and_carry_exist() -> Result<(), Error> {
    let ha = half_adder()?;
    assert_eq!(ha.graph().wires().len(), 4);
    Ok(())
}

#[test]
fn full_adder_builds() -> Result<(), Error> {
    let fa = full_adder()?;
    assert_eq!(fa.inputs().len(), 3);
    assert_eq!(fa.outputs().len(), 2);
    assert_eq!(fa.graph().instructions().len(), 5);
    Ok(())
}

#[test]
fn counter_has_one_state_wire() -> Result<(), Error> {
    let c = counter::<8>()?;
    assert_eq!(c.state_wire_count(), 1);
    Ok(())
}

#[test]
fn counter_initial_state_is_zero() -> Result<(), Error> {
    let c = counter::<8>()?;
    assert_eq!(c.initial_state().len(), 8);
    assert!(c.initial_state().as_slice().iter().all(|b| !*b));
    Ok(())
}

#[test]
fn counter_has_two_instructions() -> Result<(), Error> {
    let c = counter::<4>()?;
    assert_eq!(c.graph().instructions().len(), 2);
    Ok(())
}

#[test]
fn down_counter_initial_state_is_all_ones() -> Result<(), Error> {
    let d = down_counter::<4>()?;
    assert_eq!(d.initial_state().len(), 4);
    assert!(d.initial_state().as_slice().iter().all(|b| *b));
    Ok(())
}

#[test]
fn down_counter_has_const_and_sub() -> Result<(), Error> {
    let d = down_counter::<8>()?;
    assert_eq!(d.graph().instructions().len(), 2);
    Ok(())
}

#[test]
fn shift_register_rejects_width_below_two() {
    assert!(shift_register_left::<1>().is_err());
    assert!(shift_register_left::<0>().is_err());
}

#[test]
fn shift_register_has_two_instructions() -> Result<(), Error> {
    let s = shift_register_left::<8>()?;
    assert_eq!(s.graph().instructions().len(), 2);
    Ok(())
}

#[test]
fn shift_register_state_is_n_bits() -> Result<(), Error> {
    let s = shift_register_left::<4>()?;
    assert_eq!(s.initial_state().len(), 4);
    Ok(())
}

#[test]
fn toggle_has_one_state_wire() -> Result<(), Error> {
    let t = toggle_ff()?;
    assert_eq!(t.state_wire_count(), 1);
    Ok(())
}

#[test]
fn toggle_initial_state_is_false() -> Result<(), Error> {
    let t = toggle_ff()?;
    assert_eq!(t.initial_state().len(), 1);
    assert!(!t.initial_state().bit(0));
    Ok(())
}

#[test]
fn toggle_has_one_not_instruction() -> Result<(), Error> {
    let t = toggle_ff()?;
    assert_eq!(t.graph().instructions().len(), 1);
    Ok(())
}

#[test]
fn counter_law_counts_and_wraps() -> Result<(), Error> {
    let samples = Testbench::new(counter::<2>()?).simulate(empties(6))?;
    let values: Vec<u128> =
        samples.iter().map(|s| Bits::<2>::from_bits_seq(s.value()).map(|b| b.to_u128())).collect::<Result<_, _>>()?;
    assert_eq!(values, vec![0, 1, 2, 3, 0, 1]);
    Ok(())
}

#[test]
fn down_counter_law_starts_at_all_ones() -> Result<(), Error> {
    let samples = Testbench::new(down_counter::<3>()?).simulate(empties(10))?;
    let values: Vec<u128> =
        samples.iter().map(|s| Bits::<3>::from_bits_seq(s.value()).map(|b| b.to_u128())).collect::<Result<_, _>>()?;
    assert_eq!(values, vec![7, 6, 5, 4, 3, 2, 1, 0, 7, 6]);
    Ok(())
}

#[test]
fn accumulator_law_sums_inputs_modulo_width() -> Result<(), Error> {
    let inputs: Vec<BitSeq> =
        [5u128, 9, 3, 2].iter().map(|v| Bits::<4>::new_wrapping(*v).to_bits_seq()).collect();
    let samples = Testbench::new(accumulator::<4>()?).simulate(inputs)?;
    let values: Vec<u128> =
        samples.iter().map(|s| Bits::<4>::from_bits_seq(s.value()).map(|b| b.to_u128())).collect::<Result<_, _>>()?;
    assert_eq!(values, vec![5, 14, 1, 3]);
    Ok(())
}

#[test]
fn toggle_law_alternates() -> Result<(), Error> {
    let samples = Testbench::new(toggle_ff()?).simulate(empties(5))?;
    let values: Vec<bool> = samples.iter().map(|s| s.value().bit(0)).collect();
    assert_eq!(values, vec![false, true, false, true, false]);
    Ok(())
}

#[test]
fn shift_register_shifts_in_bits() -> Result<(), Error> {
    let inputs: Vec<BitSeq> = [true, false, true, true].iter().map(|b| BitSeq::from_iter([*b])).collect();
    let samples = Testbench::new(shift_register_left::<4>()?).simulate(inputs)?;
    let values: Vec<u128> =
        samples.iter().map(|s| Bits::<4>::from_bits_seq(s.value()).map(|b| b.to_u128())).collect::<Result<_, _>>()?;
    assert_eq!(values, vec![0, 1, 2, 5]);
    Ok(())
}

#[test]
fn shift_register_law_holds_bitwise() -> Result<(), Error> {
    let s = shift_register_left::<3>()?;
    let bits = [true, true, false, true, false];
    let inputs: Vec<BitSeq> = bits.iter().map(|b| BitSeq::from_iter([*b])).collect();
    let samples = Testbench::new(s).run(inputs).run()?;
    for (k, sample) in samples.iter().enumerate() {
        for i in 0..3 {
            let expected = if i < k { bits[k - 1 - i] } else { false };
            assert_eq!(sample.value().bit(i), expected, "cycle {k}, bit {i}");
        }
    }
    assert_eq!(samples.len(), 5);
    Ok(())
}
