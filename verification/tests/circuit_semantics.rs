use hdl_cat::bit_seq::BitSeq;
use hdl_cat::bits::Bits;
use hdl_cat::circuit::arrow::compose_arrows;
use hdl_cat::circuit::category::wired_identity;
use hdl_cat::circuit::coherence::wired_braid;
use hdl_cat::circuit::gates::not_bits;
use hdl_cat::circuit::object::Obj;
use hdl_cat::error::Error;
use hdl_cat::sim::interp::{interpret, read_env};

fn bits(v: &[bool]) -> BitSeq {
    BitSeq::from_vec(v.to_vec())
}

#[test]
fn wired_identity_then_inverter_inverts() -> Result<(), Error> {
    let c = compose_arrows(wired_identity::<Obj<Bits<4>>>(), not_bits::<4>()?);
    let env = interpret(c.graph(), c.inputs(), &[bits(&[true, false, true, true])])?;
    let out = read_env(&env, c.outputs()[0])?;
    assert_eq!(out.as_slice(), &[false, true, false, false]);
    Ok(())
}

#[test]
fn inverter_then_wired_identity_inverts() -> Result<(), Error> {
    let c = compose_arrows(not_bits::<4>()?, wired_identity::<Obj<Bits<4>>>());
    let env = interpret(c.graph(), c.inputs(), &[bits(&[false, false, true, false])])?;
    let out = read_env(&env, c.outputs()[0])?;
    assert_eq!(out.as_slice(), &[true, true, false, true]);
    Ok(())
}

#[test]
fn braid_swaps_the_values_it_carries() -> Result<(), Error> {
    let iso = wired_braid::<Obj<Bits<2>>, Obj<Bits<3>>>();
    let b = iso.forward();
    let env = interpret(b.graph(), b.inputs(), &[bits(&[true, false]), bits(&[false, true, true])])?;
    let first = read_env(&env, b.outputs()[0])?;
    let second = read_env(&env, b.outputs()[1])?;
    assert_eq!(first.as_slice(), &[false, true, true]);
    assert_eq!(second.as_slice(), &[true, false]);
    Ok(())
}
