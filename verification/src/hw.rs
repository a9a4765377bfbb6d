//! The [`Hw`] trait: types with a finite-width hardware bit encoding,
//! and its implementations for `bool`, `()`, [`Bits`], [`SignedBits`]
//! and tuples of up to four components.

use vstd::prelude::*;
use vstd::arithmetic::power2::{pow2, lemma_pow2_pos, lemma_pow2_strictly_increases};
use vstd::arithmetic::div_mod::{lemma_small_mod, lemma_mod_sub_multiples_vanish};

use crate::arith::{bits_val, val_bits, modulus, u128_of_bits, bits_of_u128, lemma_bits_val_bound,
    lemma_bits_val_of_val_bits, lemma_val_bits_of_bits_val, lemma_pow2_two_to_128};
use crate::bit_seq::BitSeq;
use crate::bits::{Bits, SignedBits, sign_extend_spec};
use crate::error::{Error, Width, saturating_u32};
use crate::ty_desc::{TypeDesc, width_of, sum_width};
use vstd::pervasive::unreached;

verus! {

/// A type representable as a finite-width sequence of hardware bits
/// (LSB first).
///
/// Every implementation obeys: the encoding of a value has exactly the
/// type's width; the type descriptor has that width; `WIDTH` equals it
/// whenever it fits a `usize`; decoding accepts exactly the sequences
/// `decodes` describes, and what it returns encodes back to its input;
/// and every encoding decodes.
pub trait Hw: Sized {
    /// The bit width of this type.
    const WIDTH: usize;

    /// The bit width as a natural number.
    spec fn width_nat() -> nat;

    /// The bit encoding of a value.
    spec fn encode(&self) -> Seq<bool>;

    /// The bit sequences that decode to a value.
    spec fn decodes(bits: Seq<bool>) -> bool;

    /// `WIDTH` agrees with the width when the width fits a `usize`, and
    /// only sequences of the right width decode.
    proof fn lemma_width(bits: Seq<bool>)
        ensures
            Self::width_nat() <= usize::MAX ==> Self::WIDTH as nat == Self::width_nat(),
            Self::decodes(bits) ==> bits.len() == Self::width_nat(),
    ;

    /// Every encoding has the type's width and decodes.
    proof fn lemma_encode(v: Self)
        ensures
            v.encode().len() == Self::width_nat(),
            Self::decodes(v.encode()),
    ;

    /// A runtime description of the type's structure.
    fn type_desc() -> (r: TypeDesc)
        ensures
            width_of(r) == Self::width_nat(),
    ;

    /// Serialize to a bit sequence (LSB first).
    fn to_bits_seq(&self) -> (r: BitSeq)
        ensures
            r@ == self.encode(),
    ;

    /// Deserialize from a bit sequence; fails with a width mismatch when
    /// the length is wrong.
    fn from_bits_seq(bits: &BitSeq) -> (r: Result<Self, Error>)
        ensures
            r is Ok <==> Self::decodes(bits@),
            r matches Ok(v) ==> v.encode() == bits@,
            (Self::width_nat() <= usize::MAX && bits@.len() != Self::width_nat()) ==> (r matches Err(e)
                && e.is_width_mismatch(Self::width_nat(), bits@.len() as nat)),
    ;
}

impl Hw for bool {
    const WIDTH: usize = 1;

    open spec fn width_nat() -> nat {
        1
    }

    open spec fn encode(&self) -> Seq<bool> {
        seq![*self]
    }

    open spec fn decodes(bits: Seq<bool>) -> bool {
        bits.len() == 1
    }

    proof fn lemma_width(bits: Seq<bool>) {
    }

    proof fn lemma_encode(v: Self) {
    }

    fn type_desc() -> (r: TypeDesc)
        ensures
            r == TypeDesc::Bool,
    {
        TypeDesc::Bool
    }

    fn to_bits_seq(&self) -> (r: BitSeq) {
        BitSeq::from_iter([*self])
    }

    fn from_bits_seq(bits: &BitSeq) -> (r: Result<Self, Error>)
        ensures
            r matches Ok(v) ==> v == bits@[0],
    {
        if bits.len() == 1 {
            let b = bits.bit(0);
            proof {
                assert(seq![b] =~= bits@);
            }
            Ok(b)
        } else {
            Err(Error::width_mismatch(1, bits.len()))
        }
    }
}

impl Hw for () {
    const WIDTH: usize = 0;

    open spec fn width_nat() -> nat {
        0
    }

    open spec fn encode(&self) -> Seq<bool> {
        Seq::empty()
    }

    open spec fn decodes(bits: Seq<bool>) -> bool {
        bits.len() == 0
    }

    proof fn lemma_width(bits: Seq<bool>) {
    }

    proof fn lemma_encode(v: Self) {
    }

    fn type_desc() -> (r: TypeDesc)
        ensures
            r matches TypeDesc::Tuple(ts) && ts@.len() == 0,
    {
        let v: Vec<TypeDesc> = Vec::new();
        proof {
            assert(v@ =~= Seq::<TypeDesc>::empty());
            assert(sum_width(v@) == 0);
        }
        TypeDesc::Tuple(v)
    }

    fn to_bits_seq(&self) -> (r: BitSeq) {
        BitSeq::new()
    }

    fn from_bits_seq(bits: &BitSeq) -> (r: Result<Self, Error>) {
        if bits.is_empty() {
            proof {
                assert(bits@ =~= Seq::<bool>::empty());
            }
            Ok(())
        } else {
            Err(Error::width_mismatch(0, bits.len()))
        }
    }
}

/// Values below `modulus(n)` are their own residue modulo `2^n`.
pub proof fn lemma_below_modulus(v: nat, n: nat)
    requires
        v < modulus(n),
    ensures
        v < pow2(n),
        v % pow2(n) == v,
{
    lemma_pow2_pos(n);
    if n > 128 {
        lemma_pow2_strictly_increases(128, n);
    }
    lemma_small_mod(v, pow2(n));
}

impl<const N: usize> Hw for Bits<N> {
    const WIDTH: usize = N;

    open spec fn width_nat() -> nat {
        N as nat
    }

    open spec fn encode(&self) -> Seq<bool> {
        val_bits(self.value(), N as nat)
    }

    open spec fn decodes(bits: Seq<bool>) -> bool {
        bits.len() == N && bits_val(bits) < modulus(N as nat)
    }

    proof fn lemma_width(bits: Seq<bool>) {
    }

    proof fn lemma_encode(v: Self) {
        v.lemma_value_bound();
        lemma_below_modulus(v.value(), N as nat);
        lemma_bits_val_of_val_bits(v.value(), N as nat);
    }

    fn type_desc() -> (r: TypeDesc)
        ensures
            r == (TypeDesc::Bits { n: N }),
    {
        TypeDesc::Bits { n: N }
    }

    fn to_bits_seq(&self) -> (r: BitSeq) {
        BitSeq::from_vec(bits_of_u128(self.to_u128(), N))
    }

    /// Fails with a width mismatch on a wrong length, and with an
    /// overflow when a bit beyond the 128th is set.
    fn from_bits_seq(bits: &BitSeq) -> (r: Result<Self, Error>)
        ensures
            r matches Ok(v) ==> v.value() == bits_val(bits@),
            bits@.len() == N && !Self::decodes(bits@) ==> (r matches Err(e) && e matches Error::Overflow { width }
                && width@ == saturating_u32(N as nat)),
    {
        if bits.len() != N {
            return Err(Error::width_mismatch(N, bits.len()));
        }
        match u128_of_bits(bits.as_slice()) {
            Some(x) => {
                let r = Bits::<N>::new_wrapping(x);
                proof {
                    lemma_pow2_two_to_128();
                    lemma_bits_val_bound(bits@);
                    let k: nat = if N <= 128 { N as nat } else { 128 };
                    lemma_pow2_pos(k);
                    if N <= 128 {
                        lemma_small_mod(x as nat, pow2(N as nat));
                    } else {
                        lemma_small_mod(x as nat, pow2(128));
                    }
                    lemma_val_bits_of_bits_val(bits@);
                }
                Ok(r)
            },
            None => {
                proof {
                    lemma_pow2_two_to_128();
                    if N < 128 {
                        lemma_pow2_strictly_increases(N as nat, 128);
                    }
                }
                Err(Error::Overflow { width: Width::saturating(N) })
            },
        }
    }
}

/// The unsigned residue of a signed value: its `N`-bit pattern read as
/// an unsigned number.
pub open spec fn signed_pattern(v: int, n: nat) -> nat {
    (v % (modulus(n) as int)) as nat
}

/// Sign-extending a pattern below `modulus(n)` and reducing again gives
/// the pattern back.
pub proof fn lemma_sign_extend_pattern(x: u128, n: nat)
    requires
        (x as nat) < modulus(n),
    ensures
        signed_pattern(sign_extend_spec(x, n), n) == x,
{
    let k: nat = if n <= 128 { n } else { 128 };
    lemma_pow2_pos(k);
    lemma_small_mod(x as nat, pow2(k));
    if k > 0 && (x as nat) >= pow2((k - 1) as nat) {
        lemma_mod_sub_multiples_vanish(x as int, pow2(k) as int);
    }
}

impl<const N: usize> Hw for SignedBits<N> {
    const WIDTH: usize = N;

    open spec fn width_nat() -> nat {
        N as nat
    }

    open spec fn encode(&self) -> Seq<bool> {
        val_bits(signed_pattern(self.value(), N as nat), N as nat)
    }

    open spec fn decodes(bits: Seq<bool>) -> bool {
        bits.len() == N && bits_val(bits) < modulus(N as nat)
    }

    proof fn lemma_width(bits: Seq<bool>) {
    }

    proof fn lemma_encode(v: Self) {
        let m = modulus(N as nat);
        let k: nat = if N <= 128 { N as nat } else { 128 };
        lemma_pow2_pos(k);
        let p = signed_pattern(v.value(), N as nat);
        assert(p < m);
        lemma_below_modulus(p, N as nat);
        lemma_bits_val_of_val_bits(p, N as nat);
    }

    fn type_desc() -> (r: TypeDesc)
        ensures
            r == (TypeDesc::Signed { n: N }),
    {
        TypeDesc::Signed { n: N }
    }

    fn to_bits_seq(&self) -> (r: BitSeq) {
        let u = self.to_bits();
        u.to_bits_seq()
    }

    fn from_bits_seq(bits: &BitSeq) -> (r: Result<Self, Error>)
        ensures
            r matches Ok(v) ==> v.value() == sign_extend_spec(bits_val(bits@) as u128, N as nat),
    {
        let unsigned = Bits::<N>::from_bits_seq(bits)?;
        proof {
            unsigned.lemma_value_bound();
            let k: nat = if N <= 128 { N as nat } else { 128 };
            lemma_pow2_pos(k);
            lemma_pow2_two_to_128();
            if N < 128 {
                lemma_pow2_strictly_increases(N as nat, 128);
            }
            lemma_sign_extend_pattern(unsigned.value() as u128, N as nat);
        }
        Ok(SignedBits::<N>::from_bits(unsigned))
    }
}

impl<A: Hw, B: Hw> Hw for (A, B) {
    const WIDTH: usize = A::WIDTH + B::WIDTH;

    open spec fn width_nat() -> nat {
        A::width_nat() + B::width_nat()
    }

    open spec fn encode(&self) -> Seq<bool> {
        self.0.encode() + self.1.encode()
    }

    open spec fn decodes(bits: Seq<bool>) -> bool {
        &&& bits.len() == Self::width_nat()
        &&& A::decodes(bits.take(A::width_nat() as int))
        &&& B::decodes(bits.skip(A::width_nat() as int))
    }

    proof fn lemma_width(bits: Seq<bool>) {
        A::lemma_width(bits);
        B::lemma_width(bits);
    }

    proof fn lemma_encode(v: Self) {
        A::lemma_encode(v.0);
        B::lemma_encode(v.1);
        let e = v.0.encode() + v.1.encode();
        assert(e.take(A::width_nat() as int) =~= v.0.encode());
        assert(e.skip(A::width_nat() as int) =~= v.1.encode());
    }

    fn type_desc() -> (r: TypeDesc) {
        let a = A::type_desc();
        let b = B::type_desc();
        let mut v: Vec<TypeDesc> = Vec::new();
        v.push(a);
        v.push(b);
        proof {
            let s1 = v@.drop_last();
            assert(s1.drop_last() =~= Seq::<TypeDesc>::empty());
            assert(sum_width(s1.drop_last()) == 0);
            assert(s1.last() == a);
            assert(sum_width(s1) == width_of(a));
            assert(sum_width(v@) == width_of(a) + width_of(b));
        }
        let r = TypeDesc::Tuple(v);
        proof {
            assert(width_of(r) == sum_width(v@));
        }
        r
    }

    fn to_bits_seq(&self) -> (r: BitSeq) {
        self.0.to_bits_seq().concat(self.1.to_bits_seq())
    }

    fn from_bits_seq(bits: &BitSeq) -> (r: Result<Self, Error>) {
        proof {
            A::lemma_width(bits@.take(A::width_nat() as int));
            B::lemma_width(bits@.skip(A::width_nat() as int));
        }
        if bits.len() != Self::WIDTH {
            return Err(Error::width_mismatch(Self::WIDTH, bits.len()));
        }
        let (head, tail) = bits.clone().split_at(A::WIDTH);
        proof {
            A::lemma_width(head@);
            B::lemma_width(tail@);
            assert(head@ + tail@ =~= bits@);
        }
        let a = A::from_bits_seq(&head)?;
        let b = B::from_bits_seq(&tail)?;
        proof {
            assert(bits@.take(A::width_nat() as int) =~= head@);
            assert(bits@.skip(A::width_nat() as int) =~= tail@);
        }
        Ok((a, b))
    }
}

/// `sum_width` of a list built by pushes is the sum of the pushed widths.
proof fn lemma_sum_width_push(s: Seq<TypeDesc>, t: TypeDesc)
    ensures
        sum_width(s.push(t)) == sum_width(s) + width_of(t),
{
    assert(s.push(t).drop_last() =~= s);
}

impl<A: Hw, B: Hw, C: Hw> Hw for (A, B, C) {
    const WIDTH: usize = A::WIDTH + B::WIDTH + C::WIDTH;

    open spec fn width_nat() -> nat {
        A::width_nat() + B::width_nat() + C::width_nat()
    }

    open spec fn encode(&self) -> Seq<bool> {
        self.0.encode() + self.1.encode() + self.2.encode()
    }

    open spec fn decodes(bits: Seq<bool>) -> bool {
        let wa = A::width_nat() as int;
        let wb = B::width_nat() as int;
        &&& bits.len() == Self::width_nat()
        &&& A::decodes(bits.take(wa))
        &&& B::decodes(bits.subrange(wa, wa + wb))
        &&& C::decodes(bits.skip(wa + wb))
    }

    proof fn lemma_width(bits: Seq<bool>) {
        A::lemma_width(bits);
        B::lemma_width(bits);
        C::lemma_width(bits);
    }

    proof fn lemma_encode(v: Self) {
        A::lemma_encode(v.0);
        B::lemma_encode(v.1);
        C::lemma_encode(v.2);
        let wa = A::width_nat() as int;
        let wb = B::width_nat() as int;
        let e = v.0.encode() + v.1.encode() + v.2.encode();
        assert(e.take(wa) =~= v.0.encode());
        assert(e.subrange(wa, wa + wb) =~= v.1.encode());
        assert(e.skip(wa + wb) =~= v.2.encode());
    }

    fn type_desc() -> (r: TypeDesc) {
        let a = A::type_desc();
        let b = B::type_desc();
        let c = C::type_desc();
        let mut v: Vec<TypeDesc> = Vec::new();
        proof {
            assert(v@ =~= Seq::<TypeDesc>::empty());
        }
        v.push(a);
        proof {
            lemma_sum_width_push(Seq::<TypeDesc>::empty(), a);
        }
        let ghost v1 = v@;
        v.push(b);
        proof {
            lemma_sum_width_push(v1, b);
        }
        let ghost v2 = v@;
        v.push(c);
        proof {
            lemma_sum_width_push(v2, c);
        }
        let r = TypeDesc::Tuple(v);
        proof {
            assert(width_of(r) == sum_width(v@));
        }
        r
    }

    fn to_bits_seq(&self) -> (r: BitSeq) {
        self.0.to_bits_seq().concat(self.1.to_bits_seq()).concat(self.2.to_bits_seq())
    }

    fn from_bits_seq(bits: &BitSeq) -> (r: Result<Self, Error>) {
        let ghost wa = A::width_nat() as int;
        let ghost wb = B::width_nat() as int;
        proof {
            A::lemma_width(bits@.take(wa));
            B::lemma_width(bits@.subrange(wa, wa + wb));
            C::lemma_width(bits@.skip(wa + wb));
        }
        if bits.len() != Self::WIDTH {
            return Err(Error::width_mismatch(Self::WIDTH, bits.len()));
        }
        let (head, rest) = bits.clone().split_at(A::WIDTH);
        let (mid, tail) = rest.split_at(B::WIDTH);
        proof {
            A::lemma_width(head@);
            B::lemma_width(mid@);
            C::lemma_width(tail@);
            assert(head@ + mid@ + tail@ =~= bits@);
            if Self::decodes(bits@) {
                assert(A::WIDTH as nat == A::width_nat());
                assert(B::WIDTH as nat == B::width_nat());
                assert(head@ =~= bits@.take(wa));
                assert(mid@ =~= bits@.subrange(wa, wa + wb));
                assert(tail@ =~= bits@.skip(wa + wb));
            }
        }
        let a = A::from_bits_seq(&head)?;
        let b = B::from_bits_seq(&mid)?;
        let c = C::from_bits_seq(&tail)?;
        proof {
            assert(bits@.take(wa) =~= head@);
            assert(bits@.subrange(wa, wa + wb) =~= mid@);
            assert(bits@.skip(wa + wb) =~= tail@);
        }
        Ok((a, b, c))
    }
}

impl<A: Hw, B: Hw, C: Hw, D: Hw> Hw for (A, B, C, D) {
    const WIDTH: usize = A::WIDTH + B::WIDTH + C::WIDTH + D::WIDTH;

    open spec fn width_nat() -> nat {
        A::width_nat() + B::width_nat() + C::width_nat() + D::width_nat()
    }

    open spec fn encode(&self) -> Seq<bool> {
        self.0.encode() + self.1.encode() + self.2.encode() + self.3.encode()
    }

    open spec fn decodes(bits: Seq<bool>) -> bool {
        let wa = A::width_nat() as int;
        let wb = B::width_nat() as int;
        let wc = C::width_nat() as int;
        &&& bits.len() == Self::width_nat()
        &&& A::decodes(bits.take(wa))
        &&& B::decodes(bits.subrange(wa, wa + wb))
        &&& C::decodes(bits.subrange(wa + wb, wa + wb + wc))
        &&& D::decodes(bits.skip(wa + wb + wc))
    }

    proof fn lemma_width(bits: Seq<bool>) {
        A::lemma_width(bits);
        B::lemma_width(bits);
        C::lemma_width(bits);
        D::lemma_width(bits);
    }

    proof fn lemma_encode(v: Self) {
        A::lemma_encode(v.0);
        B::lemma_encode(v.1);
        C::lemma_encode(v.2);
        D::lemma_encode(v.3);
        let wa = A::width_nat() as int;
        let wb = B::width_nat() as int;
        let wc = C::width_nat() as int;
        let e = v.0.encode() + v.1.encode() + v.2.encode() + v.3.encode();
        assert(e.take(wa) =~= v.0.encode());
        assert(e.subrange(wa, wa + wb) =~= v.1.encode());
        assert(e.subrange(wa + wb, wa + wb + wc) =~= v.2.encode());
        assert(e.skip(wa + wb + wc) =~= v.3.encode());
    }

    fn type_desc() -> (r: TypeDesc) {
        let a = A::type_desc();
        let b = B::type_desc();
        let c = C::type_desc();
        let d = D::type_desc();
        let mut v: Vec<TypeDesc> = Vec::new();
        proof {
            assert(v@ =~= Seq::<TypeDesc>::empty());
        }
        v.push(a);
        proof {
            lemma_sum_width_push(Seq::<TypeDesc>::empty(), a);
        }
        let ghost v1 = v@;
        v.push(b);
        proof {
            lemma_sum_width_push(v1, b);
        }
        let ghost v2 = v@;
        v.push(c);
        proof {
            lemma_sum_width_push(v2, c);
        }
        let ghost v3 = v@;
        v.push(d);
        proof {
            lemma_sum_width_push(v3, d);
        }
        let r = TypeDesc::Tuple(v);
        proof {
            assert(width_of(r) == sum_width(v@));
        }
        r
    }

    fn to_bits_seq(&self) -> (r: BitSeq) {
        self.0.to_bits_seq().concat(self.1.to_bits_seq()).concat(self.2.to_bits_seq()).concat(
            self.3.to_bits_seq(),
        )
    }

    fn from_bits_seq(bits: &BitSeq) -> (r: Result<Self, Error>) {
        let ghost wa = A::width_nat() as int;
        let ghost wb = B::width_nat() as int;
        let ghost wc = C::width_nat() as int;
        proof {
            A::lemma_width(bits@.take(wa));
            B::lemma_width(bits@.subrange(wa, wa + wb));
            C::lemma_width(bits@.subrange(wa + wb, wa + wb + wc));
            D::lemma_width(bits@.skip(wa + wb + wc));
        }
        if bits.len() != Self::WIDTH {
            return Err(Error::width_mismatch(Self::WIDTH, bits.len()));
        }
        let (ha, r1) = bits.clone().split_at(A::WIDTH);
        let (hb, r2) = r1.split_at(B::WIDTH);
        let (hc, hd) = r2.split_at(C::WIDTH);
        proof {
            A::lemma_width(ha@);
            B::lemma_width(hb@);
            C::lemma_width(hc@);
            D::lemma_width(hd@);
            assert(ha@ + hb@ + hc@ + hd@ =~= bits@);
            if Self::decodes(bits@) {
                assert(A::WIDTH as nat == A::width_nat());
                assert(B::WIDTH as nat == B::width_nat());
                assert(C::WIDTH as nat == C::width_nat());
                assert(ha@ =~= bits@.take(wa));
                assert(hb@ =~= bits@.subrange(wa, wa + wb));
                assert(hc@ =~= bits@.subrange(wa + wb, wa + wb + wc));
                assert(hd@ =~= bits@.skip(wa + wb + wc));
            }
        }
        let a = A::from_bits_seq(&ha)?;
        let b = B::from_bits_seq(&hb)?;
        let c = C::from_bits_seq(&hc)?;
        let d = D::from_bits_seq(&hd)?;
        proof {
            assert(bits@.take(wa) =~= ha@);
            assert(bits@.subrange(wa, wa + wb) =~= hb@);
            assert(bits@.subrange(wa + wb, wa + wb + wc) =~= hc@);
            assert(bits@.skip(wa + wb + wc) =~= hd@);
        }
        Ok((a, b, c, d))
    }
}

/// The concatenated encodings of a sequence of values.
pub open spec fn encode_all<T: Hw>(s: Seq<T>) -> Seq<bool>
    decreases s.len(),
{
    if s.len() == 0 {
        Seq::empty()
    } else {
        encode_all(s.drop_last()) + s.last().encode()
    }
}

/// The `i`-th `w`-bit chunk of `bits`.
pub open spec fn chunk(bits: Seq<bool>, w: nat, i: int) -> Seq<bool> {
    bits.subrange(i * w, (i + 1) * w)
}

proof fn lemma_encode_all_len<T: Hw>(s: Seq<T>)
    ensures
        encode_all(s).len() == s.len() * T::width_nat(),
    decreases s.len(),
{
    if s.len() > 0 {
        lemma_encode_all_len(s.drop_last());
        T::lemma_encode(s.last());
        let n = s.len() as int;
        let w = T::width_nat() as int;
        assert((n - 1) * w + w == n * w) by (nonlinear_arith);
    }
}

proof fn lemma_encode_all_chunk<T: Hw>(s: Seq<T>, i: int)
    requires
        0 <= i < s.len(),
    ensures
        chunk(encode_all(s), T::width_nat(), i) == s[i].encode(),
    decreases s.len(),
{
    let n = s.len() as int;
    let w = T::width_nat() as int;
    lemma_encode_all_len(s.drop_last());
    T::lemma_encode(s.last());
    let e = encode_all(s.drop_last());
    if i == n - 1 {
        assert(encode_all(s).subrange(i * w, (i + 1) * w) =~= s.last().encode()) by {
            assert((i + 1) * w == i * w + w) by (nonlinear_arith);
        }
    } else {
        lemma_encode_all_chunk(s.drop_last(), i);
        assert((i + 1) * w <= (n - 1) * w) by (nonlinear_arith)
            requires
                i + 1 <= n - 1,
                w >= 0,
        ;
        assert(0 <= i * w) by (nonlinear_arith)
            requires
                i >= 0,
                w >= 0,
        ;
        assert(i * w <= (i + 1) * w) by (nonlinear_arith)
            requires
                w >= 0,
        ;
        assert(encode_all(s).subrange(i * w, (i + 1) * w) =~= e.subrange(i * w, (i + 1) * w));
    }
}

proof fn lemma_encode_all_of_chunks<T: Hw>(s: Seq<T>, bits: Seq<bool>)
    requires
        bits.len() == s.len() * T::width_nat(),
        forall|i: int| 0 <= i < s.len() ==> (#[trigger] s[i]).encode() == chunk(bits, T::width_nat(), i),
    ensures
        encode_all(s) == bits,
    decreases s.len(),
{
    let n = s.len() as int;
    let w = T::width_nat() as int;
    if n == 0 {
        assert(0 * w == 0) by (nonlinear_arith);
        assert(bits =~= Seq::<bool>::empty());
    } else {
        assert((n - 1) * w + w == n * w) by (nonlinear_arith);
        assert(0 <= (n - 1) * w) by (nonlinear_arith)
            requires
                n >= 1,
                w >= 0,
        ;
        let head = bits.take((n - 1) * w);
        assert forall|i: int| 0 <= i < s.drop_last().len() implies (#[trigger] s.drop_last()[i]).encode() == chunk(
            head,
            T::width_nat(),
            i,
        ) by {
            assert(s.drop_last()[i] == s[i]);
            assert((i + 1) * w <= (n - 1) * w) by (nonlinear_arith)
                requires
                    i + 1 <= n - 1,
                    w >= 0,
            ;
            assert(0 <= i * w) by (nonlinear_arith)
                requires
                    i >= 0,
                    w >= 0,
            ;
            assert(i * w <= (i + 1) * w) by (nonlinear_arith)
                requires
                    w >= 0,
            ;
            assert(chunk(head, T::width_nat(), i) =~= chunk(bits, T::width_nat(), i));
        }
        lemma_encode_all_of_chunks(s.drop_last(), head);
        assert(s.last() == s[n - 1]);
        assert(s.last().encode() == chunk(bits, T::width_nat(), n - 1));
        assert(head + chunk(bits, T::width_nat(), n - 1) =~= bits);
    }
}

proof fn lemma_chunk_len(bits: Seq<bool>, w: nat, i: int)
    requires
        0 <= i,
        (i + 1) * w <= bits.len(),
    ensures
        chunk(bits, w, i).len() == w,
{
    assert(0 <= i * w <= (i + 1) * w && (i + 1) * w - i * w == w) by (nonlinear_arith)
        requires
            0 <= i,
    ;
}

/// `Vec` to array conversion (`<[T; N]>::try_from`): succeeds exactly
/// when the vector has `N` elements, keeping them in order; otherwise
/// hands the vector back.
#[verifier::external_body]
fn array_from_vec<T, const N: usize>(v: Vec<T>) -> (r: Result<[T; N], Vec<T>>)
    ensures
        r is Ok <==> v@.len() == N,
        r matches Ok(a) ==> a@ == v@,
        r matches Err(w) ==> w@ == v@,
{
    <[T; N]>::try_from(v)
}

impl<T: Hw, const N: usize> Hw for [T; N] {
    const WIDTH: usize = T::WIDTH * N;

    open spec fn width_nat() -> nat {
        T::width_nat() * (N as nat)
    }

    open spec fn encode(&self) -> Seq<bool> {
        encode_all(self@)
    }

    open spec fn decodes(bits: Seq<bool>) -> bool {
        &&& bits.len() == Self::width_nat()
        &&& forall|i: int| 0 <= i < N ==> T::decodes(#[trigger] chunk(bits, T::width_nat(), i))
    }

    proof fn lemma_width(bits: Seq<bool>) {
        T::lemma_width(bits);
        if N > 0 && Self::width_nat() <= usize::MAX {
            assert(T::width_nat() <= T::width_nat() * (N as nat)) by (nonlinear_arith)
                requires
                    N > 0,
            ;
        }
    }

    proof fn lemma_encode(v: Self) {
        broadcast use vstd::array::group_array_axioms;

        lemma_encode_all_len(v@);
        assert forall|i: int| 0 <= i < N implies T::decodes(#[trigger] chunk(v.encode(), T::width_nat(), i)) by {
            lemma_encode_all_chunk(v@, i);
            T::lemma_encode(v@[i]);
        }
    }

    fn type_desc() -> (r: TypeDesc)
        ensures
            r matches TypeDesc::Array { elem, len } && len == N && width_of(*elem) == T::width_nat(),
    {
        TypeDesc::Array { elem: Box::new(T::type_desc()), len: N }
    }

    fn to_bits_seq(&self) -> (r: BitSeq) {
        broadcast use vstd::array::group_array_axioms;

        let mut acc = BitSeq::new();
        let mut i: usize = 0;
        proof {
            assert(self@.take(0) =~= Seq::<T>::empty());
        }
        while i < N
            invariant
                i <= N,
                self@.len() == N,
                acc@ == encode_all(self@.take(i as int)),
            decreases N - i,
        {
            let e = self[i].to_bits_seq();
            acc = acc.concat(e);
            proof {
                assert(self@.take(i + 1).drop_last() =~= self@.take(i as int));
                assert(self@.take(i + 1).last() == self@[i as int]);
            }
            i = i + 1;
        }
        proof {
            assert(self@.take(i as int) =~= self@);
        }
        acc
    }

    fn from_bits_seq(bits: &BitSeq) -> (r: Result<Self, Error>) {
        broadcast use vstd::array::group_array_axioms;

        let w = T::WIDTH;
        proof {
            T::lemma_width(bits@);
            if N > 0 && T::width_nat() * (N as nat) <= usize::MAX {
                assert(T::width_nat() <= T::width_nat() * (N as nat)) by (nonlinear_arith)
                    requires
                        N > 0,
                ;
            }
        }
        let total = match w.checked_mul(N) {
            Some(t) => t,
            None => {
                proof {
                    if N > 0 && T::width_nat() <= usize::MAX {
                        assert(w * N > usize::MAX);
                    }
                }
                return Err(Error::width_mismatch(usize::MAX, bits.len()));
            },
        };
        if bits.len() != total {
            proof {
                if Self::decodes(bits@) && N > 0 {
                    assert(T::width_nat() <= T::width_nat() * (N as nat)) by (nonlinear_arith)
                        requires
                            N > 0,
                    ;
                }
            }
            return Err(Error::width_mismatch(total, bits.len()));
        }
        let mut elems: Vec<T> = Vec::new();
        let mut i: usize = 0;
        while i < N
            invariant
                i <= N,
                total == w * N,
                bits@.len() == total,
                T::width_nat() <= usize::MAX ==> w == T::width_nat(),
                elems@.len() == i,
                forall|k: int| 0 <= k < i ==> T::decodes(#[trigger] chunk(bits@, w as nat, k)),
                forall|k: int| 0 <= k < i ==> (#[trigger] elems@[k]).encode() == chunk(bits@, w as nat, k),
            decreases N - i,
        {
            proof {
                assert((i + 1) * w <= N * w) by (nonlinear_arith)
                    requires
                        i + 1 <= N,
                ;
                assert(i * w <= (i + 1) * w) by (nonlinear_arith);
                assert((i + 1) * w == i * w + w) by (nonlinear_arith);
            }
            let lo = i * w;
            let hi = lo + w;
            let c = bits.sub(lo, hi);
            match T::from_bits_seq(&c) {
                Ok(v) => {
                    elems.push(v);
                },
                Err(e) => {
                    proof {
                        T::lemma_width(c@);
                        if Self::decodes(bits@) {
                            assert(T::width_nat() * (N as nat) == w * N);
                            assert(T::width_nat() == w) by (nonlinear_arith)
                                requires
                                    T::width_nat() * (N as nat) == w * N,
                                    N > 0,
                            ;
                            assert(T::decodes(chunk(bits@, T::width_nat(), i as int)));
                        }
                        if Self::width_nat() <= usize::MAX {
                            assert(T::width_nat() <= T::width_nat() * (N as nat)) by (nonlinear_arith)
                                requires
                                    N > 0,
                            ;
                        }
                    }
                    return Err(e);
                },
            }
            i = i + 1;
        }
        proof {
            if N > 0 {
                assert(T::decodes(chunk(bits@, w as nat, 0)));
                T::lemma_width(chunk(bits@, w as nat, 0));
                assert(w as int <= w * N) by (nonlinear_arith)
                    requires
                        N > 0,
                ;
                lemma_chunk_len(bits@, w as nat, 0);
                assert(w == T::width_nat());
                assert(elems@.len() * T::width_nat() == w * N) by (nonlinear_arith)
                    requires
                        elems@.len() == N,
                        w == T::width_nat(),
                ;
            } else {
                assert(T::width_nat() * 0 == 0) by (nonlinear_arith);
                assert(w * 0 == 0) by (nonlinear_arith);
                assert(elems@.len() * T::width_nat() == 0) by (nonlinear_arith)
                    requires
                        elems@.len() == 0,
                ;
            }
            lemma_encode_all_of_chunks(elems@, bits@);
        }
        match array_from_vec::<T, N>(elems) {
            Ok(a) => Ok(a),
            Err(_) => unreached(),
        }
    }
}

} // verus!
