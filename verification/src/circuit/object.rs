//! Objects of the circuit category: typed wire bundles.

use vstd::prelude::*;
use core::marker::PhantomData;

use crate::bits::{Bits, SignedBits};
use crate::error::saturating_u32;
use crate::hw::Hw;
use crate::ir::wire::WireTy;

verus! {

/// A hardware type that lowers to a single IR wire.
pub trait Scalar: Hw {
    /// The wire type of this scalar.
    spec fn scalar_ty() -> WireTy;

    /// The wire type of this scalar.
    fn wire_ty() -> (r: WireTy)
        ensures
            r == Self::scalar_ty(),
    ;
}

impl Scalar for bool {
    open spec fn scalar_ty() -> WireTy {
        WireTy::Bit
    }

    fn wire_ty() -> (r: WireTy) {
        WireTy::Bit
    }
}

impl<const N: usize> Scalar for Bits<N> {
    open spec fn scalar_ty() -> WireTy {
        WireTy::Bits(saturating_u32(N as nat))
    }

    fn wire_ty() -> (r: WireTy) {
        if N <= u32::MAX as usize {
            WireTy::Bits(N as u32)
        } else {
            WireTy::Bits(u32::MAX)
        }
    }
}

impl<const N: usize> Scalar for SignedBits<N> {
    open spec fn scalar_ty() -> WireTy {
        WireTy::Signed(saturating_u32(N as nat))
    }

    fn wire_ty() -> (r: WireTy) {
        if N <= u32::MAX as usize {
            WireTy::Signed(N as u32)
        } else {
            WireTy::Signed(u32::MAX)
        }
    }
}

/// An object of the circuit category: a fixed list of typed wires.
pub trait Object: Sized {
    /// The total bit width.
    const WIDTH: usize;

    /// The wire types, in order.
    spec fn layout() -> Seq<WireTy>;

    /// The wire types, in order.
    fn wire_layout() -> (r: Vec<WireTy>)
        ensures
            r@ == Self::layout(),
    ;
}

/// The object carried by a single scalar wire of type `T`.
#[derive(Debug)]
pub struct Obj<T>(PhantomData<T>);

impl<T> Obj<T> {
    /// The (zero-sized) object marker.
    pub fn new() -> (r: Self) {
        Obj(PhantomData)
    }
}

impl<T> Clone for Obj<T> {
    fn clone(&self) -> (r: Self) {
        Obj(PhantomData)
    }
}

impl<T: Scalar> Object for Obj<T> {
    const WIDTH: usize = T::WIDTH;

    open spec fn layout() -> Seq<WireTy> {
        seq![T::scalar_ty()]
    }

    fn wire_layout() -> (r: Vec<WireTy>) {
        let mut v: Vec<WireTy> = Vec::new();
        v.push(T::wire_ty());
        proof {
            assert(v@ =~= seq![T::scalar_ty()]);
        }
        v
    }
}

/// The tensor (side-by-side) of two objects: `A`'s wires, then `B`'s.
#[derive(Debug)]
pub struct CircuitTensor<A, B>(PhantomData<(A, B)>);

impl<A, B> CircuitTensor<A, B> {
    /// The (zero-sized) object marker.
    pub fn new() -> (r: Self) {
        CircuitTensor(PhantomData)
    }
}

impl<A, B> Clone for CircuitTensor<A, B> {
    fn clone(&self) -> (r: Self) {
        CircuitTensor(PhantomData)
    }
}

impl<A: Object, B: Object> Object for CircuitTensor<A, B> {
    const WIDTH: usize = A::WIDTH + B::WIDTH;

    open spec fn layout() -> Seq<WireTy> {
        A::layout() + B::layout()
    }

    fn wire_layout() -> (r: Vec<WireTy>) {
        let mut a = A::wire_layout();
        let mut b = B::wire_layout();
        a.append(&mut b);
        a
    }
}

/// The monoidal unit: no wires.
#[derive(Debug, Clone, Copy)]
pub struct CircuitUnit;

impl CircuitUnit {
    /// The unit object.
    pub fn new() -> (r: Self) {
        CircuitUnit
    }
}

impl Object for CircuitUnit {
    const WIDTH: usize = 0;

    open spec fn layout() -> Seq<WireTy> {
        Seq::empty()
    }

    fn wire_layout() -> (r: Vec<WireTy>) {
        let v: Vec<WireTy> = Vec::new();
        proof {
            assert(v@ =~= Seq::<WireTy>::empty());
        }
        v
    }
}

} // verus!
