use hdl_cat::error::{Cycle, Error, SignalName, TypeName, Width};

#[test]
fn width_mismatch_displays_both_widths() {
    let e = Error::WidthMismatch { expected: Width::new(8), actual: Width::new(4) };
    assert_eq!(e.to_display_string(), "width mismatch: expected 8 bit(s), got 4 bit(s)");
}

#[test]
fn type_mismatch_displays_both_names() {
    let e = Error::TypeMismatch { expected: TypeName::new("Bits<8>"), actual: TypeName::new("Bits<4>") };
    assert_eq!(e.to_display_string(), "type mismatch: expected Bits<8>, got Bits<4>");
}

#[test]
fn clock_domain_mismatch_displays_message() {
    assert_eq!(Error::ClockDomainMismatch.to_display_string(), "clock domain mismatch");
}

#[test]
fn undefined_signal_displays_name() {
    let e = Error::UndefinedSignal { name: SignalName::new("clk") };
    assert_eq!(e.to_display_string(), "undefined signal: clk");
}

#[test]
fn immature_sim_displays_cycle() {
    let e = Error::ImmatureSim { cycle: Cycle::new(0) };
    assert_eq!(e.to_display_string(), "simulation read before first clock edge at cycle 0");
}

#[test]
fn overflow_displays_width() {
    let e = Error::Overflow { width: Width::new(16) };
    assert_eq!(e.to_display_string(), "arithmetic overflow at 16 bit(s)");
}

#[test]
fn from_io_error_wraps_without_loss() {
    let io = std::io::Error::new(std::io::ErrorKind::NotFound, "nope");
    let e: Error = io.into();
    let msg = e.to_display_string();
    assert!(msg.starts_with("I/O error: "));
    assert!(msg.contains("nope"));
}

#[test]
fn question_mark_propagates_parse_int_into_error() -> Result<(), Error> {
    let n: i32 = "42".parse()?;
    assert_eq!(n, 42);
    Ok(())
}

#[test]
fn parse_int_error_displays_with_prefix() {
    let r: Result<i32, std::num::ParseIntError> = "x".parse();
    let e: Error = match r {
        Ok(_) => Error::ClockDomainMismatch,
        Err(p) => p.into(),
    };
    assert!(e.to_display_string().starts_with("parse-int error: "));
}

#[test]
fn unsupported_in_circom_displays_reason() {
    let e = Error::UnsupportedInCircom("reg");
    assert_eq!(e.to_display_string(), "unsupported in circom: reg");
}

#[test]
fn width_round_trips_through_accessor() {
    assert_eq!(Width::new(12).bits(), 12);
    assert_eq!(Width::new(12).to_display_string(), "12 bit(s)");
}

#[test]
fn cycle_round_trips_through_accessor() {
    assert_eq!(Cycle::new(7).index(), 7);
    assert_eq!(Cycle::new(7).to_display_string(), "cycle 7");
}

#[test]
fn type_name_round_trips_through_accessor() {
    assert_eq!(TypeName::new("Bool").as_str(), "Bool");
}

#[test]
fn signal_name_round_trips_through_accessor() {
    assert_eq!(SignalName::new("rst").as_str(), "rst");
}
