//! Bit-precise integers: `Bits<N>` (unsigned) and `SignedBits<N>`
//! (two's complement), both with wrap-around arithmetic modulo `2^N`,
//! and the width masks they are built on.

use vstd::prelude::*;
use vstd::arithmetic::power2::{pow2, lemma_pow2_pos, lemma_pow2_unfold, lemma2_to64};
use vstd::std_specs::ops::{AddSpecImpl, SubSpecImpl, MulSpecImpl, BitAndSpecImpl, BitOrSpecImpl, BitXorSpecImpl, NotSpecImpl, NegSpecImpl, ShlSpecImpl, ShrSpecImpl};
use core::ops::{Add, BitAnd, BitOr, BitXor, Mul, Neg, Not, Shl, Shr, Sub};

use crate::arith::{
    bits_val, val_bits, modulus, mask_spec, lemma_mask_is_mod, lemma_shl_one, lemma_pow2_128_bound,
    lemma_pow2_two_to_128, lemma_mod_of_wrapped, lemma_bits_val_push,
    lemma_bit_of_u128, lemma_or_high_bit,
};
use crate::error::Error;
use crate::text::{decimal, decimal_string, hex, push_decimal, push_hex, push_signed_decimal, signed_decimal};

verus! {

/// The `n`-bit mask as a `u128`: `0` for `n == 0`, `2^n - 1` for
/// `1 <= n <= 127`, `u128::MAX` from `128` on.
pub fn mask(n: usize) -> (r: u128)
    ensures
        r == mask_spec(n as nat),
{
    if n == 0 {
        proof {
            lemma2_to64();
        }
        0
    } else if n < 128 {
        proof {
            lemma_shl_one(n as u128);
            lemma_pow2_128_bound(n as nat);
            lemma_pow2_pos(n as nat);
        }
        (1u128 << (n as u128)) - 1
    } else {
        u128::MAX
    }
}

/// `2^(min(n, 128) - 1)` for `n > 0`, else `0`.
pub open spec fn sign_bit_spec(n: nat) -> u128 {
    if n == 0 {
        0
    } else {
        pow2(((if n <= 128 { n } else { 128 }) - 1) as nat) as u128
    }
}

/// The sign-bit mask: only bit `N-1` set (bit 127 from `N = 129` on).
pub fn sign_bit(n: usize) -> (r: u128)
    ensures
        r == sign_bit_spec(n as nat),
{
    if n == 0 {
        0
    } else if n <= 128 {
        proof {
            lemma_shl_one((n - 1) as u128);
        }
        1u128 << ((n - 1) as u128)
    } else {
        proof {
            lemma_shl_one(127);
        }
        1u128 << 127u128
    }
}

/// The two's-complement value of the low `n` bits of `low`
/// (`n` capped at 128).
pub open spec fn sign_extend_spec(low: u128, n: nat) -> int {
    let k = if n <= 128 { n } else { 128 };
    let l = (low as nat) % pow2(k);
    if k > 0 && l >= pow2((k - 1) as nat) {
        l - pow2(k)
    } else {
        l as int
    }
}

/// Sign-extend the low `n` bits of `low` into an `i128`.
pub fn sign_extend(low: u128, n: usize) -> (r: i128)
    ensures
        r as int == sign_extend_spec(low, n as nat),
{
    let k: usize = if n <= 128 { n } else { 128 };
    let m = mask(k);
    let l = low & m;
    let sign = sign_bit(k);
    proof {
        lemma_mask_is_mod(low, k as nat);
        lemma_pow2_two_to_128();
        lemma_pow2_pos(k as nat);
        lemma2_to64();
        lemma_pow2_unfold(128);
        vstd::arithmetic::power2::lemma_pow2_adds(63, 64);
        if k > 0 {
            lemma_pow2_pos((k - 1) as nat);
            lemma_pow2_unfold(k as nat);
            lemma_pow2_128_bound((k - 1) as nat);
        }
    }
    if k == 0 {
        0
    } else if l >= sign {
        if k == 128 {
            if l == sign {
                proof {
                    lemma_pow2_unfold(128);
                }
                i128::MIN
            } else {
                let mag = (u128::MAX - l) + 1;
                -(mag as i128)
            }
        } else {
            proof {
                lemma_pow2_128_bound(k as nat);
                lemma_shl_one(k as u128);
                if k < 127 {
                    vstd::arithmetic::power2::lemma_pow2_strictly_increases(k as nat, 127);
                }
                lemma_pow2_unfold(128);
                vstd::arithmetic::power2::lemma_pow2_strictly_increases((k - 1) as nat, 127);
            }
            let top: u128 = 1u128 << (k as u128);
            let mag = top - l;
            -(mag as i128)
        }
    } else {
        proof {
            if k < 128 {
                vstd::arithmetic::power2::lemma_pow2_strictly_increases((k - 1) as nat, 127);
            } else {
                lemma_pow2_unfold(128);
            }
            lemma2_to64();
            vstd::arithmetic::power2::lemma_pow2_adds(63, 64);
        }
        l as i128
    }
}

/// An unsigned `N`-bit integer, `N <= 128`, with wrap-around
/// arithmetic modulo `2^N`.
#[derive(Clone, Copy, PartialEq, Eq, Hash, PartialOrd, Ord, Debug)]
pub struct Bits<const N: usize> {
    value: u128,
}

impl<const N: usize> Bits<N> {
    #[verifier::type_invariant]
    spec fn inv(self) -> bool {
        (self.value as nat) < modulus(N as nat)
    }

    /// The unsigned value held.
    pub closed spec fn value(self) -> nat {
        if (self.value as nat) < modulus(N as nat) {
            self.value as nat
        } else {
            0
        }
    }

    /// The `Bits<N>` value whose raw word is `v`.
    pub closed spec fn of_value(v: nat) -> Bits<N> {
        Bits { value: v as u128 }
    }

    pub proof fn lemma_of_value(v: nat)
        requires
            v < modulus(N as nat),
        ensures
            Self::of_value(v).value() == v,
    {
        lemma_pow2_two_to_128();
        if N < 128 {
            lemma_pow2_128_bound(N as nat);
        }
    }

    pub proof fn lemma_value_bound(self)
        ensures
            self.value() < modulus(N as nat),
            self.value() <= u128::MAX,
    {
        lemma_pow2_two_to_128();
        lemma_pow2_pos(if N <= 128 { N as nat } else { 128 });
        if N < 128 {
            lemma_pow2_128_bound(N as nat);
        }
    }

    /// The decimal text of the value, e.g. `42`.
    pub fn to_display_string(self) -> (r: String)
        ensures
            r@ == decimal(self.value()),
    {
        proof {
            use_type_invariant(self);
        }
        decimal_string(self.value)
    }

    /// The debug text `Bits<N>(0x..)`, the value in lower-case hex.
    pub fn debug_string(self) -> (r: String)
        ensures
            r@ == "Bits<"@ + decimal(N as nat) + ">(0x"@ + hex(self.value()) + ")"@,
    {
        proof {
            use_type_invariant(self);
        }
        let mut s = String::new();
        s.append("Bits<");
        push_decimal(&mut s, N as u128);
        s.append(">(0x");
        push_hex(&mut s, self.value);
        s.append(")");
        proof {
            assert(s@ =~= "Bits<"@ + decimal(N as nat) + ">(0x"@ + hex(self.value()) + ")"@);
        }
        s
    }

    /// The zero value.
    pub fn zero() -> (r: Self)
        ensures
            r.value() == 0,
    {
        proof {
            lemma_pow2_pos(if N <= 128 { N as nat } else { 128 });
        }
        Bits { value: 0 }
    }

    /// Construct from a raw `u128`, keeping the low `N` bits.
    pub fn new_wrapping(v: u128) -> (r: Self)
        ensures
            r.value() == (v as nat) % modulus(N as nat),
    {
        let k: usize = if N <= 128 { N } else { 128 };
        let m = mask(k);
        proof {
            lemma_mask_is_mod(v, k as nat);
            lemma_pow2_pos(k as nat);
        }
        Bits { value: v & m }
    }

    /// Construct from a raw `u128`; fails when `v` has a bit set at or
    /// above bit `N`.
    pub fn try_new(v: u128) -> (r: Result<Self, Error>)
        requires
            N <= 128,
        ensures
            r is Ok <==> (v as nat) < modulus(N as nat),
            r matches Ok(b) ==> b.value() == v,
            r matches Err(e) ==> e.is_width_mismatch(N as nat, 128),
    {
        let m = mask(N);
        proof {
            lemma_mask_is_mod(v, N as nat);
            lemma_pow2_pos(N as nat);
            if (v as nat) < modulus(N as nat) {
                vstd::arithmetic::div_mod::lemma_small_mod(v as nat, modulus(N as nat));
            } else {
                vstd::arithmetic::div_mod::lemma_mod_bound(v as int, modulus(N as nat) as int);
            }
        }
        if v & m == v {
            Ok(Bits { value: v })
        } else {
            Err(Error::width_mismatch(N, 128))
        }
    }

    /// The raw underlying value.
    pub fn to_u128(self) -> (r: u128)
        ensures
            r as nat == self.value(),
    {
        proof {
            use_type_invariant(self);
        }
        self.value
    }

    /// All `N` bits set.
    pub fn max_value() -> (r: Self)
        ensures
            r.value() == modulus(N as nat) - 1,
    {
        let k: usize = if N <= 128 { N } else { 128 };
        let m = mask(k);
        proof {
            lemma_pow2_two_to_128();
            lemma_pow2_pos(k as nat);
            if k < 128 {
                lemma_pow2_128_bound(k as nat);
            }
        }
        Bits { value: m }
    }

    /// The value as `N` booleans, LSB first.
    pub fn as_bits(self) -> (r: [bool; N])
        requires
            N <= 128,
        ensures
            r@ == val_bits(self.value(), N as nat),
    {
        proof {
            use_type_invariant(self);
        }
        let mut arr = [false; N];
        let mut i: usize = 0;
        while i < N
            invariant
                i <= N,
                N <= 128,
                arr@.len() == N,
                self.value() == self.value as nat,
                forall|j: int| 0 <= j < i ==> arr@[j] == val_bits(self.value(), N as nat)[j],
            decreases N - i,
        {
            let b = (self.value >> (i as u128)) & 1 == 1;
            proof {
                lemma_bit_of_u128(self.value, i as u128);
            }
            arr[i] = b;
            i = i + 1;
        }
        assert(arr@ =~= val_bits(self.value(), N as nat));
        arr
    }

    /// Rebuild from `N` booleans, LSB first.
    pub fn from_bool_array(arr: [bool; N]) -> (r: Self)
        requires
            N <= 128,
        ensures
            r.value() == bits_val(arr@),
    {
        let mut acc: u128 = 0;
        let mut i: usize = 0;
        proof {
            lemma2_to64();
            assert(arr@.take(0) =~= Seq::<bool>::empty());
        }
        while i < N
            invariant
                i <= N,
                N <= 128,
                arr@.len() == N,
                acc as nat == bits_val(arr@.take(i as int)),
                (acc as nat) < pow2(i as nat),
            decreases N - i,
        {
            proof {
                assert(arr@.take(i + 1) =~= arr@.take(i as int).push(arr@[i as int]));
                lemma_bits_val_push(arr@.take(i as int), arr@[i as int]);
                lemma_pow2_unfold((i + 1) as nat);
            }
            if arr[i] {
                proof {
                    lemma_or_high_bit(acc, i as u128);
                }
                acc = acc | (1u128 << (i as u128));
            }
            i = i + 1;
        }
        proof {
            assert(arr@.take(N as int) =~= arr@);
            lemma_pow2_two_to_128();
            if N < 128 {
                lemma_pow2_128_bound(N as nat);
            }
        }
        Bits { value: acc }
    }

}

impl<const N: usize> Shl<usize> for Bits<N> {
    type Output = Self;

    /// Bitwise shift left by `rhs`, dropping bits above `N`; zero from
    /// a shift of 128 on.
    fn shl(self, rhs: usize) -> (r: Self)
        ensures
            rhs >= 128 ==> r.value() == 0,
            rhs < 128 ==> r.value() == ((self.value() as u128) << (rhs as u128)) as nat % modulus(N as nat),
    {
        let k: usize = if N <= 128 { N } else { 128 };
        proof {
            lemma_pow2_pos(k as nat);
            use_type_invariant(self);
        }
        if rhs >= 128 {
            Bits { value: 0 }
        } else {
            let shifted = self.value << (rhs as u128);
            proof {
                lemma_mask_is_mod(shifted, k as nat);
            }
            Bits { value: shifted & mask(k) }
        }
    }
}

impl<const N: usize> ShlSpecImpl<usize> for Bits<N> {
    open spec fn obeys_shl_spec() -> bool {
        true
    }

    open spec fn shl_req(self, rhs: usize) -> bool {
        true
    }

    open spec fn shl_spec(self, rhs: usize) -> Self {
        if rhs >= 128 {
            Self::of_value(0)
        } else {
            Self::of_value(((self.value() as u128) << (rhs as u128)) as nat % modulus(N as nat))
        }
    }
}

impl<const N: usize> Shr<usize> for Bits<N> {
    type Output = Self;

    /// Bitwise shift right by `rhs`; zero from a shift of 128 on.
    fn shr(self, rhs: usize) -> (r: Self)
        ensures
            rhs >= 128 ==> r.value() == 0,
            rhs < 128 ==> r.value() == self.value() / pow2(rhs as nat),
    {
        let k: usize = if N <= 128 { N } else { 128 };
        proof {
            lemma_pow2_pos(k as nat);
            use_type_invariant(self);
        }
        if rhs >= 128 {
            Bits { value: 0 }
        } else {
            let shifted = self.value >> (rhs as u128);
            proof {
                vstd::bits::lemma_u128_shr_is_div(self.value, rhs as u128);
                lemma_pow2_pos(rhs as nat);
                vstd::arithmetic::div_mod::lemma_div_is_ordered_by_denominator(self.value as int, 1, pow2(rhs as nat) as int);
            }
            Bits { value: shifted }
        }
    }
}

impl<const N: usize> ShrSpecImpl<usize> for Bits<N> {
    open spec fn obeys_shr_spec() -> bool {
        true
    }

    open spec fn shr_req(self, rhs: usize) -> bool {
        true
    }

    open spec fn shr_spec(self, rhs: usize) -> Self {
        if rhs >= 128 {
            Self::of_value(0)
        } else {
            Self::of_value(self.value() / pow2(rhs as nat))
        }
    }
}

impl<const N: usize> Add for Bits<N> {
    type Output = Self;

    fn add(self, rhs: Self) -> (r: Self) {
        let k: usize = if N <= 128 { N } else { 128 };
        let w = self.value.wrapping_add(rhs.value);
        proof {
            use_type_invariant(self);
            use_type_invariant(rhs);
            lemma_pow2_two_to_128();
            lemma_pow2_pos(k as nat);
            vstd::arithmetic::div_mod::lemma_fundamental_div_mod_converse_mod(
                self.value + rhs.value,
                pow2(128) as int,
                if self.value + rhs.value > u128::MAX { 1 } else { 0 },
                w as int,
            );
            lemma_mod_of_wrapped(self.value + rhs.value, w, k as nat);
            lemma_mask_is_mod(w, k as nat);
        }
        Bits { value: w & mask(k) }
    }
}

impl<const N: usize> AddSpecImpl for Bits<N> {
    open spec fn obeys_add_spec() -> bool {
        true
    }

    open spec fn add_req(self, rhs: Self) -> bool {
        true
    }

    open spec fn add_spec(self, rhs: Self) -> Self {
        Self::of_value((self.value() + rhs.value()) % modulus(N as nat))
    }
}

impl<const N: usize> Sub for Bits<N> {
    type Output = Self;

    fn sub(self, rhs: Self) -> (r: Self) {
        let k: usize = if N <= 128 { N } else { 128 };
        let w = self.value.wrapping_sub(rhs.value);
        proof {
            use_type_invariant(self);
            use_type_invariant(rhs);
            lemma_pow2_two_to_128();
            lemma_pow2_pos(k as nat);
            vstd::arithmetic::div_mod::lemma_fundamental_div_mod_converse_mod(
                self.value - rhs.value,
                pow2(128) as int,
                if self.value - rhs.value < 0 { -1 } else { 0 },
                w as int,
            );
            lemma_mod_of_wrapped(self.value - rhs.value, w, k as nat);
            lemma_mask_is_mod(w, k as nat);
        }
        Bits { value: w & mask(k) }
    }
}

impl<const N: usize> SubSpecImpl for Bits<N> {
    open spec fn obeys_sub_spec() -> bool {
        true
    }

    open spec fn sub_req(self, rhs: Self) -> bool {
        true
    }

    open spec fn sub_spec(self, rhs: Self) -> Self {
        Self::of_value(((self.value() - rhs.value()) % (modulus(N as nat) as int)) as nat)
    }
}

impl<const N: usize> Mul for Bits<N> {
    type Output = Self;

    fn mul(self, rhs: Self) -> (r: Self) {
        let k: usize = if N <= 128 { N } else { 128 };
        let w = self.value.wrapping_mul(rhs.value);
        proof {
            use_type_invariant(self);
            use_type_invariant(rhs);
            lemma_pow2_two_to_128();
            lemma_pow2_pos(k as nat);
            lemma_mod_of_wrapped(self.value * rhs.value, w, k as nat);
            lemma_mask_is_mod(w, k as nat);
        }
        Bits { value: w & mask(k) }
    }
}

impl<const N: usize> MulSpecImpl for Bits<N> {
    open spec fn obeys_mul_spec() -> bool {
        true
    }

    open spec fn mul_req(self, rhs: Self) -> bool {
        true
    }

    open spec fn mul_spec(self, rhs: Self) -> Self {
        Self::of_value((self.value() * rhs.value()) % modulus(N as nat))
    }
}

impl<const N: usize> BitAnd for Bits<N> {
    type Output = Self;

    fn bitand(self, rhs: Self) -> (r: Self) {
        proof {
            use_type_invariant(self);
            use_type_invariant(rhs);
            let (a, b) = (self.value, rhs.value);
            assert(a & b <= a) by (bit_vector);
        }
        Bits { value: self.value & rhs.value }
    }
}

impl<const N: usize> BitAndSpecImpl for Bits<N> {
    open spec fn obeys_bitand_spec() -> bool {
        true
    }

    open spec fn bitand_req(self, rhs: Self) -> bool {
        true
    }

    open spec fn bitand_spec(self, rhs: Self) -> Self {
        Self::of_value(((self.value() as u128) & (rhs.value() as u128)) as nat)
    }
}

impl<const N: usize> BitOr for Bits<N> {
    type Output = Self;

    fn bitor(self, rhs: Self) -> (r: Self) {
        let k: usize = if N <= 128 { N } else { 128 };
        let m = mask(k);
        proof {
            use_type_invariant(self);
            use_type_invariant(rhs);
            lemma_pow2_pos(k as nat);
            lemma_mask_is_mod(self.value, k as nat);
            lemma_mask_is_mod(rhs.value, k as nat);
            lemma_mask_is_mod(self.value | rhs.value, k as nat);
            vstd::arithmetic::div_mod::lemma_small_mod(self.value as nat, pow2(k as nat));
            vstd::arithmetic::div_mod::lemma_small_mod(rhs.value as nat, pow2(k as nat));
            let (a, b) = (self.value, rhs.value);
            assert((a & m == a && b & m == b) ==> (a | b) & m == a | b) by (bit_vector);
        }
        Bits { value: self.value | rhs.value }
    }
}

impl<const N: usize> BitOrSpecImpl for Bits<N> {
    open spec fn obeys_bitor_spec() -> bool {
        true
    }

    open spec fn bitor_req(self, rhs: Self) -> bool {
        true
    }

    open spec fn bitor_spec(self, rhs: Self) -> Self {
        Self::of_value(((self.value() as u128) | (rhs.value() as u128)) as nat)
    }
}

impl<const N: usize> BitXor for Bits<N> {
    type Output = Self;

    fn bitxor(self, rhs: Self) -> (r: Self) {
        let k: usize = if N <= 128 { N } else { 128 };
        let m = mask(k);
        proof {
            use_type_invariant(self);
            use_type_invariant(rhs);
            lemma_pow2_pos(k as nat);
            lemma_mask_is_mod(self.value, k as nat);
            lemma_mask_is_mod(rhs.value, k as nat);
            lemma_mask_is_mod(self.value ^ rhs.value, k as nat);
            vstd::arithmetic::div_mod::lemma_small_mod(self.value as nat, pow2(k as nat));
            vstd::arithmetic::div_mod::lemma_small_mod(rhs.value as nat, pow2(k as nat));
            let (a, b) = (self.value, rhs.value);
            assert((a & m == a && b & m == b) ==> (a ^ b) & m == a ^ b) by (bit_vector);
        }
        Bits { value: self.value ^ rhs.value }
    }
}

impl<const N: usize> BitXorSpecImpl for Bits<N> {
    open spec fn obeys_bitxor_spec() -> bool {
        true
    }

    open spec fn bitxor_req(self, rhs: Self) -> bool {
        true
    }

    open spec fn bitxor_spec(self, rhs: Self) -> Self {
        Self::of_value(((self.value() as u128) ^ (rhs.value() as u128)) as nat)
    }
}

impl<const N: usize> Not for Bits<N> {
    type Output = Self;

    fn not(self) -> (r: Self) {
        let k: usize = if N <= 128 { N } else { 128 };
        let m = mask(k);
        proof {
            use_type_invariant(self);
            lemma_pow2_pos(k as nat);
            lemma_mask_is_mod(!self.value, k as nat);
            vstd::arithmetic::div_mod::lemma_mod_bound((!self.value) as int, pow2(k as nat) as int);
        }
        Bits { value: !self.value & m }
    }
}

impl<const N: usize> NotSpecImpl for Bits<N> {
    open spec fn obeys_not_spec() -> bool {
        true
    }

    open spec fn not_req(self) -> bool {
        true
    }

    open spec fn not_spec(self) -> Self {
        Self::of_value((!(self.value() as u128) & mask_spec(if N <= 128 { N as nat } else { 128 })) as nat)
    }
}

/// A two's-complement signed `N`-bit integer, `N <= 128`, with
/// wrap-around arithmetic modulo `2^N`.
#[derive(Clone, Copy, PartialEq, Eq, Hash, PartialOrd, Ord, Debug)]
pub struct SignedBits<const N: usize> {
    value: i128,
}

/// The least value of an `n`-bit two's-complement integer.
pub open spec fn two_comp_lo(n: nat) -> int {
    if n == 0 {
        0
    } else {
        -(pow2(((if n <= 128 { n } else { 128 }) - 1) as nat) as int)
    }
}

/// The greatest value of an `n`-bit two's-complement integer.
pub open spec fn two_comp_hi(n: nat) -> int {
    if n == 0 {
        0
    } else {
        pow2(((if n <= 128 { n } else { 128 }) - 1) as nat) - 1
    }
}

/// The `n`-bit two's-complement wrap of an integer.
pub open spec fn wrap_signed(v: int, n: nat) -> int {
    let k = if n <= 128 { n } else { 128 };
    let l = v % (pow2(k) as int);
    if k > 0 && l >= pow2((k - 1) as nat) {
        l - pow2(k)
    } else {
        l
    }
}

impl<const N: usize> SignedBits<N> {
    #[verifier::type_invariant]
    spec fn inv(self) -> bool {
        two_comp_lo(N as nat) <= self.value <= two_comp_hi(N as nat)
    }

    /// The signed value held.
    pub closed spec fn value(self) -> int {
        if two_comp_lo(N as nat) <= self.value <= two_comp_hi(N as nat) {
            self.value as int
        } else {
            0
        }
    }

    pub closed spec fn of_value(v: int) -> SignedBits<N> {
        SignedBits { value: v as i128 }
    }

    pub proof fn lemma_value_bound(self)
        ensures
            two_comp_lo(N as nat) <= self.value() <= two_comp_hi(N as nat),
    {
        let k: nat = if N <= 128 { N as nat } else { 128 };
        if k > 0 {
            lemma_pow2_pos((k - 1) as nat);
        }
    }

    proof fn lemma_wrap_in_range(v: int)
        ensures
            two_comp_lo(N as nat) <= wrap_signed(v, N as nat) <= two_comp_hi(N as nat),
    {
        let k: nat = if N <= 128 { N as nat } else { 128 };
        lemma_pow2_pos(k);
        if k > 0 {
            lemma_pow2_unfold(k);
            lemma_pow2_pos((k - 1) as nat);
        } else {
            lemma2_to64();
        }
    }

    /// Construct from an `i128`, wrapping to `N` bits.
    pub fn new_wrapping(v: i128) -> (r: Self)
        ensures
            r.value() == wrap_signed(v as int, N as nat),
    {
        let k: usize = if N <= 128 { N } else { 128 };
        let u = v as u128;
        let m = mask(k);
        let masked = u & m;
        let r = sign_extend(masked, k);
        proof {
            lemma_pow2_two_to_128();
            lemma_pow2_pos(k as nat);
            lemma_mask_is_mod(u, k as nat);
            lemma_mask_is_mod(masked, k as nat);
            vstd::arithmetic::div_mod::lemma_mod_twice(u as int, pow2(k as nat) as int);
            assert((v as u128) as int == (v as int) % (pow2(128) as int)) by {
                assert(v >= 0 ==> (v as u128) as int == v as int) by (bit_vector);
                assert(v < 0 ==> (v as u128) as int == v as int + 0x1_0000_0000_0000_0000_0000_0000_0000_0000int) by (bit_vector);
                if v >= 0 {
                    vstd::arithmetic::div_mod::lemma_small_mod(v as nat, pow2(128));
                } else {
                    vstd::arithmetic::div_mod::lemma_fundamental_div_mod_converse_mod(v as int, pow2(128) as int, -1, (v as u128) as int);
                }
            }
            lemma_mod_of_wrapped(v as int, u, k as nat);
            Self::lemma_wrap_in_range(v as int);
        }
        SignedBits { value: r }
    }

    /// Construct from an `i128`; fails outside `[min, max]`.
    pub fn try_new(v: i128) -> (r: Result<Self, Error>)
        requires
            N <= 128,
        ensures
            r is Ok <==> two_comp_lo(N as nat) <= v <= two_comp_hi(N as nat),
            r matches Ok(b) ==> b.value() == v,
            r matches Err(e) ==> e.is_width_mismatch(N as nat, 128),
    {
        let lo = Self::min_i128();
        let hi = Self::max_i128();
        if lo <= v && v <= hi {
            Ok(SignedBits { value: v })
        } else {
            Err(Error::width_mismatch(N, 128))
        }
    }

    fn min_i128() -> (r: i128)
        ensures
            r == two_comp_lo(N as nat),
    {
        let k: usize = if N <= 128 { N } else { 128 };
        let sb = sign_bit(k);
        proof {
            if k > 0 {
                lemma_pow2_two_to_128();
                lemma_pow2_unfold(k as nat);
                lemma_pow2_pos(k as nat);
                if k < 128 {
                    lemma_pow2_128_bound(k as nat);
                    vstd::arithmetic::power2::lemma_pow2_strictly_increases((k - 1) as nat, 127);
                }
                lemma2_to64();
                vstd::arithmetic::power2::lemma_pow2_adds(63, 64);
            }
        }
        if k == 0 {
            0
        } else if k == 128 {
            i128::MIN
        } else {
            -(sb as i128)
        }
    }

    fn max_i128() -> (r: i128)
        ensures
            r == two_comp_hi(N as nat),
    {
        let k: usize = if N <= 128 { N } else { 128 };
        let sb = sign_bit(k);
        proof {
            if k > 0 {
                lemma_pow2_two_to_128();
                lemma_pow2_unfold(k as nat);
                lemma_pow2_pos(k as nat);
                if k < 128 {
                    lemma_pow2_128_bound(k as nat);
                    vstd::arithmetic::power2::lemma_pow2_strictly_increases((k - 1) as nat, 127);
                }
                lemma2_to64();
                vstd::arithmetic::power2::lemma_pow2_adds(63, 64);
            }
        }
        if k == 0 {
            0
        } else if k == 128 {
            i128::MAX
        } else {
            (sb - 1) as i128
        }
    }

    /// The decimal text of the value, e.g. `-42`.
    pub fn to_display_string(self) -> (r: String)
        ensures
            r@ == signed_decimal(self.value()),
    {
        proof {
            use_type_invariant(self);
        }
        let mut s = String::new();
        push_signed_decimal(&mut s, self.value);
        proof {
            assert(s@ =~= signed_decimal(self.value()));
        }
        s
    }

    /// The debug text `SignedBits<N>(v)`, the value in decimal.
    pub fn debug_string(self) -> (r: String)
        ensures
            r@ == "SignedBits<"@ + decimal(N as nat) + ">("@ + signed_decimal(self.value()) + ")"@,
    {
        proof {
            use_type_invariant(self);
        }
        let mut s = String::new();
        s.append("SignedBits<");
        push_decimal(&mut s, N as u128);
        s.append(">(");
        push_signed_decimal(&mut s, self.value);
        s.append(")");
        proof {
            assert(s@ =~= "SignedBits<"@ + decimal(N as nat) + ">("@ + signed_decimal(self.value()) + ")"@);
        }
        s
    }

    /// The zero value.
    pub fn zero() -> (r: Self)
        ensures
            r.value() == 0,
    {
        proof {
            let k: nat = if N <= 128 { N as nat } else { 128 };
            if k > 0 {
                lemma_pow2_pos((k - 1) as nat);
            }
        }
        SignedBits { value: 0 }
    }

    /// The raw sign-extended value.
    pub fn to_i128(self) -> (r: i128)
        ensures
            r as int == self.value(),
    {
        proof {
            use_type_invariant(self);
        }
        self.value
    }

    /// The least representable value: `-2^(N-1)`, or `0` for `N == 0`.
    pub fn min_value() -> (r: Self)
        ensures
            r.value() == two_comp_lo(N as nat),
    {
        let v = Self::min_i128();
        proof {
            let k: nat = if N <= 128 { N as nat } else { 128 };
            if k > 0 {
                lemma_pow2_pos((k - 1) as nat);
            }
        }
        SignedBits { value: v }
    }

    /// The greatest representable value: `2^(N-1) - 1`, or `0`.
    pub fn max_value() -> (r: Self)
        ensures
            r.value() == two_comp_hi(N as nat),
    {
        let v = Self::max_i128();
        proof {
            let k: nat = if N <= 128 { N as nat } else { 128 };
            if k > 0 {
                lemma_pow2_pos((k - 1) as nat);
            }
        }
        SignedBits { value: v }
    }

    /// The unsigned value of the `N`-bit pattern of the signed value
    /// `v`: `v` modulo `2^N`.
    pub open spec fn pattern_of(v: int) -> nat {
        (v % (modulus(N as nat) as int)) as nat
    }

    /// The signed value the `N`-bit pattern with unsigned value `x`
    /// reads as in two's complement.
    pub open spec fn read_pattern(x: nat) -> int {
        sign_extend_spec(x as u128, N as nat)
    }

    /// The round trips of [`SignedBits::to_bits`] and
    /// [`SignedBits::from_bits`]: `from_bits(s.to_bits())` has the value
    /// of `s` (so is `s`), and `from_bits(b).to_bits()` has the value of
    /// `b` (so is `b`), for every width `N`.
    pub proof fn lemma_bits_round_trip(s: Self, b: Bits<N>)
        ensures
            Self::read_pattern(Self::pattern_of(s.value())) == s.value(),
            Self::pattern_of(Self::read_pattern(b.value())) == b.value(),
    {
        let k: nat = if N <= 128 { N as nat } else { 128 };
        let m = pow2(k) as int;
        lemma_pow2_pos(k);
        lemma_pow2_two_to_128();
        if k < 128 {
            lemma_pow2_128_bound(k);
        }
        assert(m <= u128::MAX + 1);
        s.lemma_value_bound();
        b.lemma_value_bound();
        let v = s.value();
        if k > 0 {
            lemma_pow2_unfold(k);
            lemma_pow2_pos((k - 1) as nat);
        }
        let h = if k > 0 { pow2((k - 1) as nat) as int } else { 0 };
        assert(k > 0 ==> m == 2 * h);
        if v >= 0 {
            vstd::arithmetic::div_mod::lemma_small_mod(v as nat, m as nat);
            let p = (v % m) as nat;
            assert(p == v);
            vstd::arithmetic::div_mod::lemma_small_mod(p, m as nat);
        } else {
            vstd::arithmetic::div_mod::lemma_mod_add_multiples_vanish(v, m);
            vstd::arithmetic::div_mod::lemma_small_mod((v + m) as nat, m as nat);
            let p = (v % m) as nat;
            assert(p == v + m);
            vstd::arithmetic::div_mod::lemma_small_mod(p, m as nat);
        }
        let x = b.value();
        vstd::arithmetic::div_mod::lemma_small_mod(x, m as nat);
        if k > 0 && x >= h {
            vstd::arithmetic::div_mod::lemma_mod_sub_multiples_vanish(x as int, m);
        }
    }

    /// The same bit pattern read as unsigned.
    pub fn to_bits(self) -> (r: Bits<N>)
        ensures
            r.value() == Self::pattern_of(self.value()),
    {
        let u = self.value as u128;
        let r = Bits::<N>::new_wrapping(u);
        proof {
            use_type_invariant(self);
            lemma_pow2_two_to_128();
            let k: nat = if N <= 128 { N as nat } else { 128 };
            lemma_pow2_pos(k);
            let v = self.value;
            assert((v as u128) as int == (v as int) % (pow2(128) as int)) by {
                assert(v >= 0 ==> (v as u128) as int == v as int) by (bit_vector);
                assert(v < 0 ==> (v as u128) as int == v as int + 0x1_0000_0000_0000_0000_0000_0000_0000_0000int) by (bit_vector);
                if v >= 0 {
                    vstd::arithmetic::div_mod::lemma_small_mod(v as nat, pow2(128));
                } else {
                    vstd::arithmetic::div_mod::lemma_fundamental_div_mod_converse_mod(v as int, pow2(128) as int, -1, (v as u128) as int);
                }
            }
            lemma_mod_of_wrapped(v as int, u, k);
        }
        r
    }

    /// Read a `Bits<N>` pattern as two's complement.
    pub fn from_bits(b: Bits<N>) -> (r: Self)
        ensures
            r.value() == Self::read_pattern(b.value()),
    {
        let k: usize = if N <= 128 { N } else { 128 };
        let v = sign_extend(b.to_u128(), k);
        proof {
            b.lemma_value_bound();
            lemma_pow2_pos(k as nat);
            if k > 0 {
                lemma_pow2_unfold(k as nat);
                lemma_pow2_pos((k - 1) as nat);
            } else {
                lemma2_to64();
            }
        }
        SignedBits { value: v }
    }
}

impl<const N: usize> Add for SignedBits<N> {
    type Output = Self;

    fn add(self, rhs: Self) -> (r: Self) {
        let s = self.value.wrapping_add(rhs.value);
        proof {
            use_type_invariant(self);
            use_type_invariant(rhs);
            lemma_i128_wrapped_add(self.value, rhs.value);
            Self::lemma_wrapped_i128(self.value + rhs.value, s);
        }
        let r = Self::new_wrapping(s);
        proof {
            use_type_invariant(r);
        }
        r
    }
}

/// The difference between a 128-bit wrapped result and the exact
/// result is a multiple of `2^128`.
proof fn lemma_multiple_of_range(d: int, q: int)
    requires
        d == q * (pow2(128) as int),
    ensures
        d % (pow2(128) as int) == 0,
{
    lemma_pow2_pos(128);
    vstd::arithmetic::div_mod::lemma_mod_multiples_basic(q, pow2(128) as int);
}

proof fn lemma_i128_wrapped_add(x: i128, y: i128)
    ensures
        ((x.wrapping_add(y)) as int - (x + y)) % (pow2(128) as int) == 0,
{
    lemma_pow2_two_to_128();
    let q: int = if x + y > i128::MAX { -1 } else if x + y < i128::MIN { 1 } else { 0 };
    lemma_multiple_of_range(x.wrapping_add(y) as int - (x + y), q);
}

proof fn lemma_i128_wrapped_sub(x: i128, y: i128)
    ensures
        ((x.wrapping_sub(y)) as int - (x - y)) % (pow2(128) as int) == 0,
{
    lemma_pow2_two_to_128();
    let q: int = if x - y > i128::MAX { -1 } else if x - y < i128::MIN { 1 } else { 0 };
    lemma_multiple_of_range(x.wrapping_sub(y) as int - (x - y), q);
}

proof fn lemma_i128_wrapped_mul(x: i128, y: i128)
    ensures
        ((x.wrapping_mul(y)) as int - (x * y)) % (pow2(128) as int) == 0,
{
    lemma_pow2_two_to_128();
    let r = pow2(128) as int;
    let p = x * y;
    vstd::arithmetic::div_mod::lemma_fundamental_div_mod(p, r);
    vstd::arithmetic::div_mod::lemma_mod_bound(p, r);
    let q: int = if p % r > i128::MAX { -(p / r) - 1 } else { -(p / r) };
    assert(x.wrapping_mul(y) as int - p == q * r) by {
        vstd::arithmetic::mul::lemma_mul_is_distributive_add_other_way(r, -(p / r), -1);
        vstd::arithmetic::mul::lemma_mul_unary_negation(p / r, r);
    }
    lemma_multiple_of_range(x.wrapping_mul(y) as int - p, q);
}

impl<const N: usize> SignedBits<N> {
    /// Wrapping a 128-bit two's-complement result to `N` bits agrees
    /// with wrapping the exact result.
    proof fn lemma_wrapped_i128(exact: int, wrapped: i128)
        requires
            (wrapped as int - exact) % (pow2(128) as int) == 0,
        ensures
            wrap_signed(wrapped as int, N as nat) == wrap_signed(exact, N as nat),
    {
        let k: nat = if N <= 128 { N as nat } else { 128 };
        lemma_pow2_two_to_128();
        lemma_pow2_pos(k);
        let d = (128 - k) as nat;
        vstd::arithmetic::power2::lemma_pow2_adds(k, d);
        lemma_pow2_pos(d);
        let q = (wrapped as int - exact) / (pow2(128) as int);
        vstd::arithmetic::div_mod::lemma_fundamental_div_mod(wrapped as int - exact, pow2(128) as int);
        assert(wrapped as int == exact + q * (pow2(128) as int));
        assert(q * (pow2(128) as int) == (q * pow2(d)) * pow2(k)) by {
            vstd::arithmetic::mul::lemma_mul_is_associative(q, pow2(d) as int, pow2(k) as int);
            vstd::arithmetic::mul::lemma_mul_is_commutative(pow2(d) as int, pow2(k) as int);
        }
        vstd::arithmetic::div_mod::lemma_mod_multiples_vanish(q * pow2(d), exact, pow2(k) as int);
    }
}

impl<const N: usize> AddSpecImpl for SignedBits<N> {
    open spec fn obeys_add_spec() -> bool {
        true
    }

    open spec fn add_req(self, rhs: Self) -> bool {
        true
    }

    open spec fn add_spec(self, rhs: Self) -> Self {
        Self::of_value(wrap_signed(self.value() + rhs.value(), N as nat))
    }
}

impl<const N: usize> Sub for SignedBits<N> {
    type Output = Self;

    fn sub(self, rhs: Self) -> (r: Self) {
        let s = self.value.wrapping_sub(rhs.value);
        proof {
            use_type_invariant(self);
            use_type_invariant(rhs);
            lemma_i128_wrapped_sub(self.value, rhs.value);
            Self::lemma_wrapped_i128(self.value - rhs.value, s);
        }
        let r = Self::new_wrapping(s);
        proof {
            use_type_invariant(r);
        }
        r
    }
}

impl<const N: usize> SubSpecImpl for SignedBits<N> {
    open spec fn obeys_sub_spec() -> bool {
        true
    }

    open spec fn sub_req(self, rhs: Self) -> bool {
        true
    }

    open spec fn sub_spec(self, rhs: Self) -> Self {
        Self::of_value(wrap_signed(self.value() - rhs.value(), N as nat))
    }
}

impl<const N: usize> Mul for SignedBits<N> {
    type Output = Self;

    fn mul(self, rhs: Self) -> (r: Self) {
        let s = self.value.wrapping_mul(rhs.value);
        proof {
            use_type_invariant(self);
            use_type_invariant(rhs);
            lemma_i128_wrapped_mul(self.value, rhs.value);
            Self::lemma_wrapped_i128(self.value * rhs.value, s);
        }
        let r = Self::new_wrapping(s);
        proof {
            use_type_invariant(r);
        }
        r
    }
}

impl<const N: usize> MulSpecImpl for SignedBits<N> {
    open spec fn obeys_mul_spec() -> bool {
        true
    }

    open spec fn mul_req(self, rhs: Self) -> bool {
        true
    }

    open spec fn mul_spec(self, rhs: Self) -> Self {
        Self::of_value(wrap_signed(self.value() * rhs.value(), N as nat))
    }
}

impl<const N: usize> Neg for SignedBits<N> {
    type Output = Self;

    fn neg(self) -> (r: Self) {
        let s = 0i128.wrapping_sub(self.value);
        proof {
            use_type_invariant(self);
            lemma_i128_wrapped_sub(0, self.value);
            Self::lemma_wrapped_i128(0 - self.value, s);
        }
        let r = Self::new_wrapping(s);
        proof {
            use_type_invariant(r);
        }
        r
    }
}

impl<const N: usize> NegSpecImpl for SignedBits<N> {
    open spec fn obeys_neg_spec() -> bool {
        true
    }

    open spec fn neg_req(self) -> bool {
        true
    }

    open spec fn neg_spec(self) -> Self {
        Self::of_value(wrap_signed(-self.value(), N as nat))
    }
}

impl<const N: usize> Default for Bits<N> {
    fn default() -> (r: Self)
        ensures
            r.value() == 0,
    {
        Self::zero()
    }
}

impl<const N: usize> Default for SignedBits<N> {
    fn default() -> (r: Self)
        ensures
            r.value() == 0,
    {
        Self::zero()
    }
}

} // verus!
