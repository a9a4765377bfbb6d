use hdl_cat::bits::Bits;
use hdl_cat::circuit::arrow::{compose_arrows, identity_arrow, primitive_arrow, tensor_arrows, CircuitArrow};
use hdl_cat::circuit::category::{wired_identity, Circuit};
use hdl_cat::circuit::coherence::{wired_associator, wired_braid, wired_left_unitor, wired_right_unitor};
use hdl_cat::circuit::gates::{
    add_bits, and_bit, and_bits, eq_bits, lt_bits, mul_bits, not_bit, not_bits, or_bit, or_bits, sub_bits, xor_bits,
};
use hdl_cat::circuit::object::{CircuitTensor, CircuitUnit, Obj, Object};
use hdl_cat::error::Error;
use hdl_cat::ir::op::{BinOp, Op};
use hdl_cat::ir::wire::WireTy;

type And4 = CircuitArrow<CircuitTensor<Obj<Bits<4>>, Obj<Bits<4>>>, Obj<Bits<4>>>;
type Not4 = CircuitArrow<Obj<Bits<4>>, Obj<Bits<4>>>;

fn and4() -> Result<And4, Error> {
    primitive_arrow(vec![WireTy::Bits(4), WireTy::Bits(4)], Op::Bin(BinOp::And), WireTy::Bits(4))
}

fn not4() -> Result<Not4, Error> {
    primitive_arrow(vec![WireTy::Bits(4)], Op::Not, WireTy::Bits(4))
}

#[test]
fn identity_arrow_has_matching_io() {
    let id = identity_arrow::<Obj<Bits<8>>>();
    assert_eq!(id.inputs().len(), 1);
    assert_eq!(id.outputs().len(), 1);
    assert_eq!(id.inputs()[0], id.outputs()[0]);
    assert_eq!(id.graph().instructions().len(), 0);
}

#[test]
fn primitive_and_has_correct_shape() -> Result<(), Error> {
    let g = and4()?;
    assert_eq!(g.inputs().len(), 2);
    assert_eq!(g.outputs().len(), 1);
    assert_eq!(g.graph().instructions().len(), 1);
    assert_eq!(g.graph().wires().len(), 3);
    Ok(())
}

#[test]
fn primitive_with_wrong_arity_fails() {
    let r: Result<Not4, Error> = primitive_arrow(vec![WireTy::Bits(4), WireTy::Bits(4)], Op::Not, WireTy::Bits(4));
    assert!(r.is_err());
}

#[test]
fn compose_not_not_merges_graphs() -> Result<(), Error> {
    let nf = not4()?;
    let ng = not4()?;
    let composed = compose_arrows(nf, ng);
    assert_eq!(composed.inputs().len(), 1);
    assert_eq!(composed.outputs().len(), 1);
    assert_eq!(composed.graph().instructions().len(), 2);
    Ok(())
}

#[test]
fn compose_feeds_first_output_into_second() -> Result<(), Error> {
    let composed = compose_arrows(not4()?, not4()?);
    let instrs = composed.graph().instructions();
    assert_eq!(instrs[1].inputs()[0], instrs[0].output());
    assert_eq!(composed.outputs()[0], instrs[1].output());
    Ok(())
}

#[test]
fn tensor_of_primitives_pairs_inputs() -> Result<(), Error> {
    let a = not4()?;
    let b = not4()?;
    let paired = tensor_arrows(a, b);
    assert_eq!(paired.inputs().len(), 2);
    assert_eq!(paired.outputs().len(), 2);
    assert_eq!(paired.graph().instructions().len(), 2);
    Ok(())
}

#[test]
fn identity_then_primitive_keeps_primitive() -> Result<(), Error> {
    let id: CircuitArrow<Obj<Bits<4>>, Obj<Bits<4>>> = identity_arrow();
    let n = not4()?;
    let composed = compose_arrows(id, n);
    assert_eq!(composed.graph().instructions().len(), 1);
    assert_eq!(composed.inputs().len(), 1);
    assert_eq!(composed.outputs().len(), 1);
    Ok(())
}

#[test]
fn category_id_produces_empty_arrow() {
    let marker = Obj::<Bits<4>>::new();
    let id: CircuitArrow<Obj<Bits<4>>, Obj<Bits<4>>> = Circuit::id(&marker);
    assert_eq!(id.graph().instructions().len(), 0);
}

#[test]
fn wired_identity_has_real_wires() {
    let id = wired_identity::<Obj<Bits<8>>>();
    assert_eq!(id.inputs().len(), 1);
    assert_eq!(id.graph().wires().len(), 1);
}

type Pair4 = CircuitTensor<Obj<Bits<4>>, Obj<Bits<4>>>;

#[test]
fn monoidal_tensor_of_wired_ids_has_two_wires() {
    let a = wired_identity::<Obj<Bits<4>>>();
    let b = wired_identity::<Obj<Bits<4>>>();
    let paired: CircuitArrow<Pair4, Pair4> = Circuit::tensor_map(a, b);
    assert_eq!(paired.inputs().len(), 2);
    assert_eq!(paired.outputs().len(), 2);
}

type A4 = Obj<Bits<4>>;
type A8 = Obj<Bits<8>>;
type AB = CircuitTensor<Obj<Bits<4>>, Obj<Bits<8>>>;

#[test]
fn associator_has_no_instructions() {
    let iso = wired_associator::<A4, A8, A4>();
    assert_eq!(iso.forward().graph().instructions().len(), 0);
    assert_eq!(iso.backward().graph().instructions().len(), 0);
}

#[test]
fn associator_declares_all_wires() {
    let iso = wired_associator::<A4, A8, A4>();
    assert_eq!(iso.forward().graph().wires().len(), 3);
    assert_eq!(iso.forward().inputs().len(), 3);
    assert_eq!(iso.forward().outputs().len(), 3);
}

#[test]
fn associator_input_equals_output() {
    let iso = wired_associator::<A4, A4, A4>();
    assert_eq!(iso.forward().inputs(), iso.forward().outputs());
}

#[test]
fn left_unitor_is_passthrough_on_a() {
    let iso = wired_left_unitor::<A8>();
    assert_eq!(iso.forward().inputs().len(), <A8 as Object>::WIDTH / 8);
    assert_eq!(iso.forward().inputs(), iso.forward().outputs());
}

#[test]
fn right_unitor_is_passthrough_on_a() {
    let iso = wired_right_unitor::<A8>();
    assert_eq!(iso.forward().inputs().len(), 1);
    assert_eq!(iso.forward().inputs(), iso.forward().outputs());
}

#[test]
fn braid_swaps_single_wire_halves() {
    let iso = wired_braid::<A4, A8>();
    let inputs = iso.forward().inputs();
    let outputs = iso.forward().outputs();
    assert_eq!(inputs.len(), 2);
    assert_eq!(outputs.len(), 2);
    assert_eq!(outputs[0], inputs[1]);
    assert_eq!(outputs[1], inputs[0]);
}

#[test]
fn braid_backward_swaps_opposite_direction() {
    let iso = wired_braid::<A4, A8>();
    let inputs = iso.backward().inputs();
    let outputs = iso.backward().outputs();
    assert_eq!(inputs.len(), 2);
    assert_eq!(outputs.len(), 2);
    assert_eq!(outputs[0], inputs[1]);
    assert_eq!(outputs[1], inputs[0]);
}

#[test]
fn braid_on_tensor_objects_swaps_blocks() {
    let iso = wired_braid::<AB, A4>();
    let inputs = iso.forward().inputs();
    let outputs = iso.forward().outputs();
    assert_eq!(inputs.len(), 3);
    assert_eq!(outputs.len(), 3);
    assert_eq!(outputs[0], inputs[2]);
    assert_eq!(outputs[1], inputs[0]);
    assert_eq!(outputs[2], inputs[1]);
}

#[test]
fn braid_twice_restores_order() {
    let iso = wired_braid::<AB, A4>();
    let fwd = iso.forward();
    let back = iso.backward();
    let once: Vec<usize> = fwd.outputs().iter().map(|w| w.index()).collect();
    assert_eq!(back.inputs().len(), once.len());
    let pos: Vec<usize> = back.outputs().iter().map(|w| {
        back.inputs().iter().position(|x| x == w).unwrap_or(usize::MAX)
    }).collect();
    let restored: Vec<usize> = pos.iter().map(|p| once[*p]).collect();
    let original: Vec<usize> = fwd.inputs().iter().map(|w| w.index()).collect();
    assert_eq!(restored, original);
}

#[test]
fn not_bits_builds() -> Result<(), Error> {
    let n = not_bits::<8>()?;
    assert_eq!(n.inputs().len(), 1);
    assert_eq!(n.outputs().len(), 1);
    assert_eq!(n.graph().instructions().len(), 1);
    Ok(())
}

#[test]
fn and_bits_builds() -> Result<(), Error> {
    let a = and_bits::<4>()?;
    assert_eq!(a.inputs().len(), 2);
    assert_eq!(a.outputs().len(), 1);
    Ok(())
}

#[test]
fn all_binary_gates_build() -> Result<(), Error> {
    let _ = and_bits::<4>()?;
    let _ = or_bits::<4>()?;
    let _ = xor_bits::<4>()?;
    let _ = add_bits::<4>()?;
    let _ = sub_bits::<4>()?;
    let _ = mul_bits::<4>()?;
    Ok(())
}

#[test]
fn comparators_produce_bool_output() -> Result<(), Error> {
    let eq = eq_bits::<8>()?;
    let lt = lt_bits::<8>()?;
    assert_eq!(eq.outputs().len(), 1);
    assert_eq!(lt.outputs().len(), 1);
    assert_eq!(eq.graph().wires()[2], WireTy::Bit);
    Ok(())
}

#[test]
fn bit_gates_build() -> Result<(), Error> {
    let _ = not_bit()?;
    let _ = and_bit()?;
    let _ = or_bit()?;
    Ok(())
}

#[test]
fn obj_width_reads_hw_width() {
    assert_eq!(<Obj<Bits<8>> as Object>::WIDTH, 8);
    assert_eq!(<Obj<bool> as Object>::WIDTH, 1);
}

#[test]
fn tensor_width_sums_operands() {
    type T = CircuitTensor<Obj<Bits<4>>, Obj<Bits<4>>>;
    assert_eq!(<T as Object>::WIDTH, 8);
}

#[test]
fn nested_tensor_sums_recursively() {
    type T = CircuitTensor<CircuitTensor<Obj<Bits<2>>, Obj<Bits<2>>>, Obj<Bits<4>>>;
    assert_eq!(<T as Object>::WIDTH, 8);
}

#[test]
fn unit_has_zero_width() {
    assert_eq!(<CircuitUnit as Object>::WIDTH, 0);
}

#[test]
fn tensor_with_unit_preserves_width() {
    type T1 = CircuitTensor<Obj<Bits<8>>, CircuitUnit>;
    type T2 = CircuitTensor<CircuitUnit, Obj<Bits<8>>>;
    assert_eq!(<T1 as Object>::WIDTH, 8);
    assert_eq!(<T2 as Object>::WIDTH, 8);
}

#[test]
fn objects_convert_into_circuit() {
    let _: Circuit = Obj::<Bits<8>>::new().into();
    let _: Circuit = CircuitTensor::<Obj<Bits<4>>, Obj<Bits<4>>>::new().into();
    let _: Circuit = CircuitUnit::new().into();
}

fn same_arrow<A, B>(x: &CircuitArrow<A, B>, y: &CircuitArrow<A, B>) {
    assert_eq!(x.graph().wires(), y.graph().wires());
    assert_eq!(x.graph().instructions(), y.graph().instructions());
    assert_eq!(x.inputs(), y.inputs());
    assert_eq!(x.outputs(), y.outputs());
}

#[test]
fn composition_is_associative() -> Result<(), Error> {
    let left = compose_arrows(compose_arrows(not4()?, not4()?), not4()?);
    let right = compose_arrows(not4()?, compose_arrows(not4()?, not4()?));
    same_arrow(&left, &right);
    assert_eq!(left.graph().instructions().len(), 3);
    Ok(())
}

#[test]
fn tensor_is_associative() -> Result<(), Error> {
    let left = tensor_arrows(tensor_arrows(not4()?, and4()?), not4()?);
    let right = tensor_arrows(not4()?, tensor_arrows(and4()?, not4()?));
    assert_eq!(left.graph().wires(), right.graph().wires());
    assert_eq!(left.graph().instructions(), right.graph().instructions());
    assert_eq!(left.inputs(), right.inputs());
    assert_eq!(left.outputs(), right.outputs());
    assert_eq!(left.inputs().len(), 4);
    Ok(())
}

#[test]
fn empty_identity_is_a_tensor_unit() -> Result<(), Error> {
    let unit: CircuitArrow<CircuitUnit, CircuitUnit> = Circuit::id(&CircuitUnit);
    let f = not4()?;
    let g = not4()?;
    let left = Circuit::tensor_map(unit, f);
    assert_eq!(left.graph().wires(), g.graph().wires());
    assert_eq!(left.graph().instructions(), g.graph().instructions());
    assert_eq!(left.inputs(), g.inputs());
    assert_eq!(left.outputs(), g.outputs());
    Ok(())
}
