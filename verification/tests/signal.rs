use hdl_cat::bits::Bits;
use hdl_cat::error::Error;
use hdl_cat::signal::signal::repeat_clone;
use hdl_cat::signal::{Blue, ClockDomain, Red, Reset, Signal};

fn bits(v: u128) -> Result<Bits<8>, Error> {
    Bits::<8>::try_new(v)
}

#[test]
fn red_name() {
    assert_eq!(Red::NAME, "red");
}

#[test]
fn blue_name() {
    assert_eq!(Blue::NAME, "blue");
}

#[test]
fn domain_types_are_zero_sized() {
    assert_eq!(core::mem::size_of::<Red>(), 0);
    assert_eq!(core::mem::size_of::<Blue>(), 0);
}

#[test]
fn from_vec_then_collect_round_trips() -> Result<(), Error> {
    let s: Signal<Red, Bits<8>> = Signal::from_vec(vec![bits(1)?, bits(2)?, bits(3)?]);
    let v = s.collect().run()?;
    assert_eq!(v.len(), 3);
    assert_eq!(v[0].to_u128(), 1);
    assert_eq!(v[2].to_u128(), 3);
    Ok(())
}

#[test]
fn empty_signal_collects_to_empty() -> Result<(), Error> {
    let s: Signal<Red, Bits<8>> = Signal::empty();
    let v = s.collect().run()?;
    assert!(v.is_empty());
    Ok(())
}

#[test]
fn constant_n_produces_n_copies() -> Result<(), Error> {
    let s: Signal<Red, Bits<8>> = Signal::constant_n(&bits(42)?, 4);
    let v = s.collect().run()?;
    assert_eq!(v.len(), 4);
    assert!(v.iter().all(|b| b.to_u128() == 42));
    Ok(())
}

#[test]
fn map_doubles_each_sample() -> Result<(), Error> {
    let s: Signal<Red, Bits<8>> = Signal::from_vec(vec![bits(1)?, bits(2)?, bits(3)?]);
    let doubled = s.map(|b| b + b);
    let v = doubled.collect().run()?;
    assert_eq!(v[0].to_u128(), 2);
    assert_eq!(v[1].to_u128(), 4);
    assert_eq!(v[2].to_u128(), 6);
    Ok(())
}

#[test]
fn take_truncates() -> Result<(), Error> {
    let s: Signal<Red, Bits<8>> = Signal::from_vec(vec![bits(1)?, bits(2)?, bits(3)?, bits(4)?]);
    let v = s.take(2).collect().run()?;
    assert_eq!(v.len(), 2);
    assert_eq!(v[1].to_u128(), 2);
    Ok(())
}

#[test]
fn concat_joins_signals() -> Result<(), Error> {
    let a: Signal<Red, Bits<8>> = Signal::from_vec(vec![bits(1)?, bits(2)?]);
    let b: Signal<Red, Bits<8>> = Signal::from_vec(vec![bits(3)?, bits(4)?]);
    let v = a.concat(b).collect().run()?;
    assert_eq!(v.len(), 4);
    assert_eq!(v[2].to_u128(), 3);
    Ok(())
}

#[test]
fn delay_prepends_initial_sample() -> Result<(), Error> {
    let s: Signal<Red, Bits<8>> = Signal::from_vec(vec![bits(10)?, bits(20)?, bits(30)?]);
    let d = s.delay(bits(0)?);
    let v = d.collect().run()?;
    assert_eq!(v.len(), 4);
    assert_eq!(v[0].to_u128(), 0);
    assert_eq!(v[1].to_u128(), 10);
    assert_eq!(v[3].to_u128(), 30);
    Ok(())
}

#[test]
fn reset_deasserted_for_n_is_all_false() -> Result<(), Error> {
    let r: Reset<Red> = Reset::deasserted_for(3);
    let v = r.into_signal().collect().run()?;
    assert_eq!(v, vec![false, false, false]);
    Ok(())
}

#[test]
fn reset_asserted_for_n_is_all_true() -> Result<(), Error> {
    let r: Reset<Red> = Reset::asserted_for(2);
    let v = r.into_signal().collect().run()?;
    assert_eq!(v, vec![true, true]);
    Ok(())
}

#[test]
fn repeat_clone_makes_n_copies() {
    assert_eq!(repeat_clone(&7u8, 3), vec![7u8, 7, 7]);
    assert!(repeat_clone(&7u8, 0).is_empty());
}

#[test]
fn stream_round_trip_keeps_samples() -> Result<(), Error> {
    let s: Signal<Blue, bool> = Signal::from_vec(vec![true, false]);
    let back: Signal<Blue, bool> = Signal::from_stream(s.into_stream());
    assert_eq!(back.collect().run()?, vec![true, false]);
    let r: Reset<Blue> = Reset::from_signal(Signal::from_vec(vec![false, true]));
    assert_eq!(r.into_signal().collect().run()?, vec![false, true]);
    Ok(())
}
