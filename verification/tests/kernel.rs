use hdl_cat::bits::Bits;
use hdl_cat::circuit::arrow::CircuitArrow;
use hdl_cat::circuit::object::{CircuitTensor, CircuitUnit, Obj};
use hdl_cat::error::Error;
use hdl_cat::hw::Hw;
use hdl_cat::ir::op::BinOp;
use hdl_cat::kernel::{
    compile_kernel, scalar_ty_from_path, Kernel, KernelError, KernelExpr, KernelLet, KernelParam, KernelTy, ScalarTyError,
};
use hdl_cat::sim::testbench::Testbench;
use hdl_cat::sync::machine::Sync;

type Pair<T> = CircuitTensor<Obj<T>, Obj<T>>;
type Triple<T> = CircuitTensor<CircuitTensor<Obj<T>, Obj<T>>, Obj<T>>;

fn var(n: &str) -> KernelExpr {
    KernelExpr::Var(n.to_string())
}

fn bin(op: BinOp, a: KernelExpr, b: KernelExpr) -> KernelExpr {
    KernelExpr::Bin(op, Box::new(a), Box::new(b))
}

fn param(n: &str, w: u32) -> KernelParam {
    KernelParam { name: n.to_string(), ty: KernelTy::Bits(w) }
}

/// `let x = a ^ b; x + a` over `Bits<8>`.
fn xor_then_add() -> Result<CircuitArrow<Pair<Bits<8>>, Obj<Bits<8>>>, KernelError> {
    let k = Kernel {
        params: vec![param("a", 8), param("b", 8)],
        lets: vec![KernelLet { name: "x".to_string(), value: bin(BinOp::Xor, var("a"), var("b")) }],
        body: bin(BinOp::Add, var("x"), var("a")),
        output: KernelTy::Bits(8),
    };
    compile_kernel(&k)
}

/// `a & b` over `Bits<4>`.
fn single_and() -> Result<CircuitArrow<Pair<Bits<4>>, Obj<Bits<4>>>, KernelError> {
    let k = Kernel {
        params: vec![param("a", 4), param("b", 4)],
        lets: Vec::new(),
        body: bin(BinOp::And, var("a"), var("b")),
        output: KernelTy::Bits(4),
    };
    compile_kernel(&k)
}

/// `a + b + c` over `Bits<4>`.
fn triple() -> Result<CircuitArrow<Triple<Bits<4>>, Obj<Bits<4>>>, KernelError> {
    let k = Kernel {
        params: vec![param("a", 4), param("b", 4), param("c", 4)],
        lets: Vec::new(),
        body: bin(BinOp::Add, bin(BinOp::Add, var("a"), var("b")), var("c")),
        output: KernelTy::Bits(4),
    };
    compile_kernel(&k)
}

#[test]
fn xor_then_add_builds_correct_arrow() -> Result<(), KernelError> {
    let arrow = xor_then_add()?;
    assert_eq!(arrow.graph().instructions().len(), 2);
    assert_eq!(arrow.inputs().len(), 2);
    assert_eq!(arrow.outputs().len(), 1);
    Ok(())
}

#[test]
fn single_and_has_one_instruction() -> Result<(), KernelError> {
    let arrow = single_and()?;
    assert_eq!(arrow.graph().instructions().len(), 1);
    assert_eq!(arrow.inputs().len(), 2);
    Ok(())
}

#[test]
fn triple_add_builds() -> Result<(), KernelError> {
    let arrow = triple()?;
    assert_eq!(arrow.graph().instructions().len(), 2);
    assert_eq!(arrow.inputs().len(), 3);
    assert_eq!(arrow.outputs().len(), 1);
    Ok(())
}

#[test]
fn xor_then_add_simulates_correctly() -> Result<(), Error> {
    let arrow = xor_then_add().expect("kernel compiles");
    let m: Sync<CircuitUnit, _, Obj<Bits<8>>> = Sync::lift_comb(arrow);
    let a_bits = Bits::<8>::try_new(0x0f)?.to_bits_seq();
    let b_bits = Bits::<8>::try_new(0x33)?.to_bits_seq();
    let combined = a_bits.concat(b_bits);
    let samples = Testbench::new(m).run(vec![combined]).run()?;
    assert_eq!(samples.len(), 1);
    let result = Bits::<8>::from_bits_seq(samples[0].value())?;
    assert_eq!(result.to_u128(), 0x4b);
    Ok(())
}

#[test]
fn triple_simulates_correctly() -> Result<(), Error> {
    let arrow = triple().expect("kernel compiles");
    let m: Sync<CircuitUnit, _, Obj<Bits<4>>> = Sync::lift_comb(arrow);
    let a = Bits::<4>::try_new(1)?.to_bits_seq();
    let b = Bits::<4>::try_new(2)?.to_bits_seq();
    let c = Bits::<4>::try_new(3)?.to_bits_seq();
    let combined = a.concat(b).concat(c);
    let samples = Testbench::new(m).run(vec![combined]).run()?;
    let result = Bits::<4>::from_bits_seq(samples[0].value())?;
    assert_eq!(result.to_u128(), 6);
    Ok(())
}

#[test]
fn kernel_without_parameters_is_refused() {
    let k = Kernel { params: Vec::new(), lets: Vec::new(), body: var("a"), output: KernelTy::Bool };
    let r: Result<CircuitArrow<Obj<bool>, Obj<bool>>, KernelError> = compile_kernel(&k);
    assert!(matches!(r, Err(KernelError::NoParameters)));
}

#[test]
fn unknown_identifier_is_named() {
    let k = Kernel {
        params: vec![param("a", 4)],
        lets: vec![KernelLet { name: "y".to_string(), value: KernelExpr::Not(Box::new(var("zz"))) }],
        body: var("y"),
        output: KernelTy::Bits(4),
    };
    let r: Result<CircuitArrow<Obj<Bits<4>>, Obj<Bits<4>>>, KernelError> = compile_kernel(&k);
    assert_eq!(r.err(), Some(KernelError::UnknownIdentifier("zz".to_string())));
}

#[test]
fn bare_parameter_body_has_no_instructions() -> Result<(), KernelError> {
    let k = Kernel { params: vec![param("a", 4)], lets: Vec::new(), body: var("a"), output: KernelTy::Bits(4) };
    let arrow: CircuitArrow<Obj<Bits<4>>, Obj<Bits<4>>> = compile_kernel(&k)?;
    assert_eq!(arrow.graph().instructions().len(), 0);
    assert_eq!(arrow.inputs(), arrow.outputs());
    Ok(())
}

#[test]
fn scalar_types_are_recognised_from_their_paths() {
    assert_eq!(scalar_ty_from_path(&"bool".to_string(), None), Ok(KernelTy::Bool));
    assert_eq!(scalar_ty_from_path(&"Bits".to_string(), Some(8)), Ok(KernelTy::Bits(8)));
    assert_eq!(scalar_ty_from_path(&"SignedBits".to_string(), Some(4)), Ok(KernelTy::Signed(4)));
    assert_eq!(scalar_ty_from_path(&"Bits".to_string(), None), Err(ScalarTyError::MissingWidth));
    assert_eq!(scalar_ty_from_path(&"u8".to_string(), Some(8)), Err(ScalarTyError::Unsupported));
}
