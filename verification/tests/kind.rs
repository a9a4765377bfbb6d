use hdl_cat::bit_seq::BitSeq;
use hdl_cat::bits::{Bits, SignedBits};
use hdl_cat::error::Error;
use hdl_cat::hw::Hw;
use hdl_cat::ty_desc::{EnumVariant, StructField, TypeDesc};

#[test]
fn empty_sequence_has_zero_length() {
    assert!(BitSeq::new().is_empty());
    assert_eq!(BitSeq::new().len(), 0);
}

#[test]
fn from_iter_preserves_order() {
    let s = BitSeq::from_iter([true, false, true]);
    assert_eq!(s.len(), 3);
    assert!(s.bit(0));
    assert!(!s.bit(1));
    assert!(s.bit(2));
}

#[test]
fn bit_out_of_bounds_is_false() {
    let s = BitSeq::from_iter([true]);
    assert!(!s.bit(5));
}

#[test]
fn concat_joins_sequences() {
    let a = BitSeq::from_iter([true, false]);
    let b = BitSeq::from_iter([false, true]);
    let c = a.concat(b);
    assert_eq!(c.len(), 4);
    assert_eq!(c.as_slice(), &[true, false, false, true]);
}

#[test]
fn split_at_yields_matching_lengths() {
    let s = BitSeq::from_iter([true, false, true, false]);
    let (head, tail) = s.split_at(2);
    assert_eq!(head.len(), 2);
    assert_eq!(tail.len(), 2);
    assert_eq!(head.as_slice(), &[true, false]);
    assert_eq!(tail.as_slice(), &[true, false]);
}

#[test]
fn split_at_clamps_to_length() {
    let s = BitSeq::from_iter([true, false]);
    let (head, tail) = s.split_at(10);
    assert_eq!(head.len(), 2);
    assert_eq!(tail.len(), 0);
}

#[test]
fn debug_shows_bits() {
    let s = BitSeq::from_iter([true, false, true]);
    assert_eq!(s.debug_string(), "BitSeq[1, 0, 1]");
}

#[test]
fn bool_round_trips_through_bits_seq() -> Result<(), Error> {
    let v = true;
    let seq = v.to_bits_seq();
    assert_eq!(seq.len(), 1);
    let back = bool::from_bits_seq(&seq)?;
    assert_eq!(back, v);
    Ok(())
}

#[test]
fn unit_round_trips() -> Result<(), Error> {
    let seq = ().to_bits_seq();
    assert_eq!(seq.len(), 0);
    <()>::from_bits_seq(&seq)?;
    Ok(())
}

#[test]
fn bits_round_trip() -> Result<(), Error> {
    let v = Bits::<8>::try_new(0xab)?;
    let seq = v.to_bits_seq();
    assert_eq!(seq.len(), 8);
    let back = Bits::<8>::from_bits_seq(&seq)?;
    assert_eq!(back.to_u128(), 0xab);
    Ok(())
}

#[test]
fn signed_bits_round_trip() -> Result<(), Error> {
    let v = SignedBits::<8>::try_new(-42)?;
    let seq = v.to_bits_seq();
    assert_eq!(seq.len(), 8);
    let back = SignedBits::<8>::from_bits_seq(&seq)?;
    assert_eq!(back.to_i128(), -42);
    Ok(())
}

#[test]
fn bool_from_wrong_width_fails() {
    let too_long = bool::to_bits_seq(&true).concat(bool::to_bits_seq(&false));
    assert!(bool::from_bits_seq(&too_long).is_err());
}

#[test]
fn bits_from_wrong_width_fails() {
    let seq = BitSeq::from_iter([true, false, true]);
    assert!(Bits::<8>::from_bits_seq(&seq).is_err());
}

#[test]
fn widths_match_type_desc() {
    assert_eq!(<bool as Hw>::WIDTH, TypeDesc::Bool.width());
    assert_eq!(<Bits<16> as Hw>::WIDTH, TypeDesc::Bits { n: 16 }.width());
    assert_eq!(<SignedBits<7> as Hw>::WIDTH, TypeDesc::Signed { n: 7 }.width());
    assert_eq!(<() as Hw>::WIDTH, 0);
}

#[test]
fn pair_bool_bits_round_trips() -> Result<(), Error> {
    let v: (bool, Bits<4>) = (true, Bits::<4>::try_new(0xa)?);
    let seq = v.to_bits_seq();
    assert_eq!(seq.len(), 5);
    let back: (bool, Bits<4>) = Hw::from_bits_seq(&seq)?;
    assert!(back.0);
    assert_eq!(back.1.to_u128(), 0xa);
    Ok(())
}

#[test]
fn triple_round_trips() -> Result<(), Error> {
    let v: (Bits<2>, Bits<3>, bool) = (Bits::<2>::try_new(0b10)?, Bits::<3>::try_new(0b101)?, true);
    let seq = v.to_bits_seq();
    assert_eq!(seq.len(), 6);
    let back: (Bits<2>, Bits<3>, bool) = Hw::from_bits_seq(&seq)?;
    assert_eq!(back.0.to_u128(), 0b10);
    assert_eq!(back.1.to_u128(), 0b101);
    assert!(back.2);
    Ok(())
}

#[test]
fn quad_round_trips() -> Result<(), Error> {
    let v: (bool, bool, bool, bool) = (true, false, true, false);
    let seq = v.to_bits_seq();
    assert_eq!(seq.len(), 4);
    let back: (bool, bool, bool, bool) = Hw::from_bits_seq(&seq)?;
    assert_eq!(back, v);
    Ok(())
}

#[test]
fn array_of_bits_round_trips() -> Result<(), Error> {
    let v: [Bits<4>; 3] = [Bits::<4>::try_new(0x1)?, Bits::<4>::try_new(0x2)?, Bits::<4>::try_new(0x3)?];
    let seq = v.to_bits_seq();
    assert_eq!(seq.len(), 12);
    let back: [Bits<4>; 3] = Hw::from_bits_seq(&seq)?;
    assert_eq!(back[0].to_u128(), 0x1);
    assert_eq!(back[1].to_u128(), 0x2);
    assert_eq!(back[2].to_u128(), 0x3);
    Ok(())
}

#[test]
fn empty_array_has_zero_width() -> Result<(), Error> {
    let v: [bool; 0] = [];
    let seq = v.to_bits_seq();
    assert_eq!(seq.len(), 0);
    let _back: [bool; 0] = Hw::from_bits_seq(&seq)?;
    Ok(())
}

#[test]
fn array_of_bool_width_matches() {
    assert_eq!(<[bool; 8] as Hw>::WIDTH, 8);
}

#[test]
fn array_from_wrong_width_fails() {
    let seq = BitSeq::from_iter([true, false, true]);
    let r: Result<[Bits<2>; 2], Error> = Hw::from_bits_seq(&seq);
    assert!(r.is_err());
}

#[test]
fn tuple_type_desc_is_tuple_variant() {
    let d = <(bool, Bits<4>) as Hw>::type_desc();
    assert!(matches!(d, TypeDesc::Tuple(_)));
    assert_eq!(d.width(), 5);
}

#[test]
fn array_type_desc_is_array_variant() {
    let d = <[Bits<8>; 4] as Hw>::type_desc();
    assert!(matches!(d, TypeDesc::Array { len: 4, .. }));
    assert_eq!(d.width(), 32);
}

#[test]
fn wrong_width_fails_tuple() {
    let seq = BitSeq::from_iter([true, false, true]);
    let r: Result<(bool, bool), Error> = Hw::from_bits_seq(&seq);
    assert!(r.is_err());
}

#[test]
fn bool_width_is_one() {
    assert_eq!(TypeDesc::Bool.width(), 1);
}

#[test]
fn bits_width_matches_parameter() {
    assert_eq!(TypeDesc::Bits { n: 12 }.width(), 12);
    assert_eq!(TypeDesc::Signed { n: 32 }.width(), 32);
}

#[test]
fn tuple_width_sums_components() {
    let t = TypeDesc::Tuple(vec![TypeDesc::Bool, TypeDesc::Bits { n: 4 }, TypeDesc::Signed { n: 3 }]);
    assert_eq!(t.width(), 8);
}

#[test]
fn array_width_is_product() {
    let t = TypeDesc::Array { elem: Box::new(TypeDesc::Bits { n: 8 }), len: 4 };
    assert_eq!(t.width(), 32);
}

#[test]
fn struct_width_sums_fields() {
    let t = TypeDesc::Struct {
        name: "Packet".to_string(),
        fields: vec![
            StructField::new("header", TypeDesc::Bits { n: 8 }),
            StructField::new("payload", TypeDesc::Bits { n: 16 }),
        ],
    };
    assert_eq!(t.width(), 24);
}

#[test]
fn enum_width_discriminant_plus_max_payload() {
    let t = TypeDesc::Enum {
        name: "Msg".to_string(),
        variants: vec![
            EnumVariant::new("Ping", vec![]),
            EnumVariant::new("Data", vec![TypeDesc::Bits { n: 16 }]),
            EnumVariant::new("Ack", vec![TypeDesc::Bits { n: 4 }]),
        ],
    };
    assert_eq!(t.width(), 18);
}

#[test]
fn empty_enum_has_zero_width() {
    let t = TypeDesc::Enum { name: "Never".to_string(), variants: vec![] };
    assert_eq!(t.width(), 0);
}

#[test]
fn single_variant_enum_has_no_discriminant() {
    let t = TypeDesc::Enum { name: "Only".to_string(), variants: vec![EnumVariant::new("A", vec![TypeDesc::Bool])] };
    assert_eq!(t.width(), 1);
}

#[test]
fn display_formats_nested_tuple() {
    let t = TypeDesc::Tuple(vec![TypeDesc::Bits { n: 4 }, TypeDesc::Bool]);
    assert_eq!(t.to_display_string(), "(Bits<4>, bool)");
}

#[test]
fn display_formats_array() {
    let t = TypeDesc::Array { elem: Box::new(TypeDesc::Bool), len: 8 };
    assert_eq!(t.to_display_string(), "[bool; 8]");
}
