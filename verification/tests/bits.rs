use hdl_cat::bits::{Bits, SignedBits};
use hdl_cat::error::Error;

#[test]
fn bits_zero_is_zero() {
    assert_eq!(Bits::<8>::zero().to_u128(), 0);
}

#[test]
fn max_value_is_all_ones() {
    assert_eq!(Bits::<8>::max_value().to_u128(), 0xff);
    assert_eq!(Bits::<4>::max_value().to_u128(), 0xf);
    assert_eq!(Bits::<1>::max_value().to_u128(), 0x1);
    assert_eq!(Bits::<0>::max_value().to_u128(), 0);
}

#[test]
fn bits_try_new_rejects_overflow() {
    assert!(Bits::<4>::try_new(16).is_err());
    assert!(Bits::<4>::try_new(0xffff).is_err());
}

#[test]
fn try_new_accepts_in_range() -> Result<(), Error> {
    let b = Bits::<4>::try_new(15)?;
    assert_eq!(b.to_u128(), 15);
    Ok(())
}

#[test]
fn new_wrapping_masks_high_bits() {
    assert_eq!(Bits::<4>::new_wrapping(0xff).to_u128(), 0xf);
    assert_eq!(Bits::<8>::new_wrapping(0x1_0000).to_u128(), 0);
}

#[test]
fn display_shows_decimal() -> Result<(), Error> {
    let b = Bits::<8>::try_new(42)?;
    assert_eq!(b.to_display_string(), "42");
    Ok(())
}

#[test]
fn debug_shows_hex_with_width() -> Result<(), Error> {
    let b = Bits::<8>::try_new(0xab)?;
    assert_eq!(b.debug_string(), "Bits<8>(0xab)");
    Ok(())
}

#[test]
fn bits_add_sub_mul_wrap_modulo_width() {
    let x = Bits::<8>::new_wrapping(200);
    let y = Bits::<8>::new_wrapping(100);
    assert_eq!((x + y).to_u128(), 44);
    assert_eq!((y - x).to_u128(), 156);
    assert_eq!((x * y).to_u128(), (200 * 100) % 256);
}

#[test]
fn bits_bitwise_ops() {
    let x = Bits::<8>::new_wrapping(0b1100_1010);
    let y = Bits::<8>::new_wrapping(0b1010_0110);
    assert_eq!((x & y).to_u128(), 0b1000_0010);
    assert_eq!((x | y).to_u128(), 0b1110_1110);
    assert_eq!((x ^ y).to_u128(), 0b0110_1100);
    assert_eq!((!x).to_u128(), 0b0011_0101);
    assert_eq!((x ^ x).to_u128(), 0);
    assert_eq!((x & x).to_u128(), 0b1100_1010);
}

#[test]
fn bits_shifts() {
    let x = Bits::<8>::new_wrapping(0b1011_0001);
    assert_eq!((x << 1).to_u128(), 0b0110_0010);
    assert_eq!((x >> 4).to_u128(), 0b1011);
    assert_eq!((x << 128).to_u128(), 0);
    assert_eq!((x >> 200).to_u128(), 0);
}

#[test]
fn bits_array_round_trip() {
    let x = Bits::<12>::new_wrapping(0xa5c);
    let arr = x.as_bits();
    assert!(!arr[0]);
    assert!(arr[2]);
    let y = Bits::<12>::from_bool_array(arr);
    assert_eq!(y.to_u128(), 0xa5c);
}

#[test]
fn bits_default_is_zero() {
    let d: Bits<8> = Default::default();
    assert_eq!(d.to_u128(), 0);
}

#[test]
fn signed_zero_is_zero() {
    assert_eq!(SignedBits::<8>::zero().to_i128(), 0);
}

#[test]
fn min_max_for_various_widths() {
    assert_eq!(SignedBits::<4>::min_value().to_i128(), -8);
    assert_eq!(SignedBits::<4>::max_value().to_i128(), 7);
    assert_eq!(SignedBits::<8>::min_value().to_i128(), -128);
    assert_eq!(SignedBits::<8>::max_value().to_i128(), 127);
    assert_eq!(SignedBits::<0>::min_value().to_i128(), 0);
    assert_eq!(SignedBits::<0>::max_value().to_i128(), 0);
}

#[test]
fn signed_try_new_rejects_overflow() {
    assert!(SignedBits::<4>::try_new(8).is_err());
    assert!(SignedBits::<4>::try_new(-9).is_err());
    assert!(SignedBits::<8>::try_new(128).is_err());
    assert!(SignedBits::<8>::try_new(-129).is_err());
}

#[test]
fn try_new_accepts_boundaries() -> Result<(), Error> {
    let lo = SignedBits::<4>::try_new(-8)?;
    let hi = SignedBits::<4>::try_new(7)?;
    assert_eq!(lo.to_i128(), -8);
    assert_eq!(hi.to_i128(), 7);
    Ok(())
}

#[test]
fn to_bits_round_trips() -> Result<(), Error> {
    let s = SignedBits::<4>::try_new(-1)?;
    let u = s.to_bits();
    assert_eq!(u.to_u128(), 0xf);
    let back = SignedBits::<4>::from_bits(u);
    assert_eq!(back.to_i128(), -1);
    Ok(())
}

#[test]
fn from_bits_sign_extends() {
    assert_eq!(SignedBits::<4>::from_bits(Bits::<4>::new_wrapping(0x8)).to_i128(), -8);
    assert_eq!(SignedBits::<4>::from_bits(Bits::<4>::new_wrapping(0x7)).to_i128(), 7);
    assert_eq!(SignedBits::<4>::from_bits(Bits::<4>::new_wrapping(0x0)).to_i128(), 0);
}

#[test]
fn neg_of_min_wraps_to_min() -> Result<(), Error> {
    let min = SignedBits::<4>::try_new(-8)?;
    assert_eq!((-min).to_i128(), -8);
    Ok(())
}

#[test]
fn new_wrapping_masks_and_sign_extends() {
    assert_eq!(SignedBits::<4>::new_wrapping(0x7).to_i128(), 7);
    assert_eq!(SignedBits::<4>::new_wrapping(0x8).to_i128(), -8);
    assert_eq!(SignedBits::<4>::new_wrapping(0xff).to_i128(), -1);
    assert_eq!(SignedBits::<4>::new_wrapping(0x10).to_i128(), 0);
}

#[test]
fn debug_shows_signed_value() -> Result<(), Error> {
    let s = SignedBits::<8>::try_new(-42)?;
    assert_eq!(s.debug_string(), "SignedBits<8>(-42)");
    assert_eq!(s.to_display_string(), "-42");
    Ok(())
}

#[test]
fn signed_add_sub_wrap() {
    let x = SignedBits::<8>::new_wrapping(100);
    let y = SignedBits::<8>::new_wrapping(100);
    assert_eq!((x + y).to_i128(), -56);
    let a = SignedBits::<8>::new_wrapping(-100);
    assert_eq!((a - y).to_i128(), 56);
    let m = SignedBits::<4>::try_new(-8).map(|v| v * SignedBits::<4>::new_wrapping(-1));
    assert_eq!(m.map(|v| v.to_i128()).unwrap_or(0), -8);
}

#[test]
fn signed_and_unsigned_patterns_round_trip_at_every_value() -> Result<(), Error> {
    for v in -8i128..8 {
        let s = SignedBits::<4>::try_new(v)?;
        assert_eq!(SignedBits::<4>::from_bits(s.to_bits()).to_i128(), v);
    }
    for x in 0u128..16 {
        let b = Bits::<4>::try_new(x)?;
        assert_eq!(SignedBits::<4>::from_bits(b).to_bits().to_u128(), x);
    }
    Ok(())
}
