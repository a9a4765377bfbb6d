//! Natural-number meaning of LSB-first bit sequences, and the `u128`
//! facts that connect machine words to that meaning.

use vstd::prelude::*;
use vstd::arithmetic::power2::{pow2, lemma_pow2_pos, lemma_pow2_unfold, lemma_pow2_strictly_increases, lemma2_to64};
use vstd::arithmetic::div_mod::{lemma_div_denominator, lemma_mod_breakdown, lemma_small_mod, lemma_fundamental_div_mod};
use vstd::bits::lemma_u128_shr_is_div;

verus! {

/// The unsigned value of an LSB-first bit sequence.
pub open spec fn bits_val(s: Seq<bool>) -> nat
    decreases s.len(),
{
    if s.len() == 0 {
        0
    } else {
        (if s[0] { 1nat } else { 0nat }) + 2 * bits_val(s.drop_first())
    }
}

/// The `n` low bits of `v`, LSB first.
pub open spec fn val_bits(v: nat, n: nat) -> Seq<bool> {
    Seq::new(n, |i: int| (v / pow2(i as nat)) % 2 == 1)
}

/// `2^min(n, 128)`: the number of values an `n`-bit word can hold.
pub open spec fn modulus(n: nat) -> nat {
    pow2(if n <= 128 { n } else { 128 })
}

/// The low-`n`-bits mask as a `u128`.
pub open spec fn mask_spec(n: nat) -> u128 {
    if n >= 128 {
        u128::MAX
    } else {
        (pow2(n) - 1) as u128
    }
}

pub proof fn lemma_bits_val_bound(s: Seq<bool>)
    ensures
        bits_val(s) < pow2(s.len()),
    decreases s.len(),
{
    if s.len() == 0 {
        lemma2_to64();
    } else {
        lemma_bits_val_bound(s.drop_first());
        lemma_pow2_unfold(s.len());
    }
}

pub proof fn lemma_bits_val_push(s: Seq<bool>, b: bool)
    ensures
        bits_val(s.push(b)) == bits_val(s) + (if b { pow2(s.len()) } else { 0 }),
    decreases s.len(),
{
    if s.len() == 0 {
        lemma2_to64();
        assert(s.push(b).drop_first() =~= Seq::<bool>::empty());
        assert(bits_val(Seq::<bool>::empty()) == 0);
        assert(s.push(b)[0] == b);
    } else {
        assert(s.push(b).drop_first() =~= s.drop_first().push(b));
        assert(s.push(b)[0] == s[0]);
        lemma_bits_val_push(s.drop_first(), b);
        lemma_pow2_unfold(s.len());
    }
}

pub proof fn lemma_val_bits_drop_first(v: nat, n: nat)
    requires
        n > 0,
    ensures
        val_bits(v, n).drop_first() =~= val_bits(v / 2, (n - 1) as nat),
        val_bits(v, n)[0] == (v % 2 == 1),
{
    lemma2_to64();
    assert(v / pow2(0) == v);
    assert forall|i: int| 0 <= i < n - 1 implies #[trigger] val_bits(v, n).drop_first()[i]
        == val_bits(v / 2, (n - 1) as nat)[i] by {
        lemma_pow2_pos(i as nat);
        lemma_pow2_unfold((i + 1) as nat);
        lemma_div_denominator(v as int, 2, pow2(i as nat) as int);
        assert(v / pow2((i + 1) as nat) == (v / 2) / pow2(i as nat));
    }
}

/// Reading back the low `n` bits of `v` gives `v mod 2^n`.
pub proof fn lemma_bits_val_of_val_bits(v: nat, n: nat)
    ensures
        bits_val(val_bits(v, n)) == v % pow2(n),
    decreases n,
{
    lemma2_to64();
    if n == 0 {
    } else {
        lemma_val_bits_drop_first(v, n);
        lemma_bits_val_of_val_bits(v / 2, (n - 1) as nat);
        lemma_pow2_unfold(n);
        lemma_pow2_pos((n - 1) as nat);
        lemma_mod_breakdown(v as int, 2, pow2((n - 1) as nat) as int);
    }
}

/// A bit sequence is recovered from its value.
pub proof fn lemma_val_bits_of_bits_val(s: Seq<bool>)
    ensures
        val_bits(bits_val(s), s.len()) =~= s,
    decreases s.len(),
{
    lemma2_to64();
    if s.len() > 0 {
        let v = bits_val(s);
        lemma_val_bits_drop_first(v, s.len());
        assert(v / 2 == bits_val(s.drop_first()));
        lemma_val_bits_of_bits_val(s.drop_first());
        assert forall|i: int| 0 <= i < s.len() implies #[trigger] val_bits(v, s.len())[i] == s[i] by {
            if i > 0 {
                assert(val_bits(v, s.len())[i] == val_bits(v, s.len()).drop_first()[i - 1]);
            }
        }
    }
}

/// Two sequences of equal length with equal values are equal.
pub proof fn lemma_bits_val_injective(a: Seq<bool>, b: Seq<bool>)
    requires
        a.len() == b.len(),
        bits_val(a) == bits_val(b),
    ensures
        a == b,
{
    lemma_val_bits_of_bits_val(a);
    lemma_val_bits_of_bits_val(b);
}

pub proof fn lemma_shl_one(i: u128)
    requires
        i < 128,
    ensures
        (1u128 << i) == pow2(i as nat),
    decreases i,
{
    lemma2_to64();
    if i == 0 {
        assert(1u128 << 0u128 == 1) by (bit_vector);
    } else {
        lemma_shl_one((i - 1) as u128);
        let j = (i - 1) as u128;
        assert((1u128 << i) == (1u128 << j) * 2) by (bit_vector)
            requires
                j < 127,
                i == j + 1,
        ;
        lemma_pow2_unfold(i as nat);
    }
}

pub proof fn lemma_pow2_128_bound(n: nat)
    requires
        n < 128,
    ensures
        pow2(n) <= u128::MAX,
        pow2(n) < pow2(128),
        pow2(128) == u128::MAX + 1,
{
    lemma_pow2_two_to_128();
    lemma_pow2_strictly_increases(n, 128);
}

pub proof fn lemma_pow2_two_to_128()
    ensures
        pow2(128) == u128::MAX + 1,
{
    lemma2_to64();
    vstd::arithmetic::power2::lemma_pow2_adds(64, 64);
}

/// `x & mask(n)` is `x mod 2^n`.
pub proof fn lemma_mask_is_mod(x: u128, n: nat)
    requires
        n <= 128,
    ensures
        (x & mask_spec(n)) as nat == x as nat % pow2(n),
    decreases n,
{
    lemma_pow2_two_to_128();
    lemma2_to64();
    if n == 128 {
        assert(x & u128::MAX == x) by (bit_vector);
        lemma_small_mod(x as nat, pow2(128));
    } else if n == 0 {
        assert(x & 0 == 0) by (bit_vector);
    } else {
        lemma_pow2_128_bound(n);
        lemma_pow2_unfold(n);
        lemma_pow2_pos((n - 1) as nat);
        let m = mask_spec(n);
        let y = x / 2;
        lemma_mask_is_mod(y, (n - 1) as nat);
        assert(m / 2 == mask_spec((n - 1) as nat));
        assert(m % 2 == 1);
        assert(x & m == ((y & (m / 2)) * 2 + ((x % 2) & (m % 2))) as u128) by (bit_vector)
            requires
                y == x / 2,
        ;
        assert((x % 2) & 1 == x % 2) by (bit_vector);
        lemma_mod_breakdown(x as int, 2, pow2((n - 1) as nat) as int);
    }
}

/// Shifting right then taking the low bit reads bit `i`.
pub proof fn lemma_bit_of_u128(v: u128, i: u128)
    requires
        i < 128,
    ensures
        ((v >> i) & 1 == 1) == ((v as nat / pow2(i as nat)) % 2 == 1),
{
    lemma_u128_shr_is_div(v, i);
    let s = v >> i;
    assert(s & 1 == s % 2) by (bit_vector);
}

/// Setting bit `i` of a value below `2^i` adds `2^i`.
pub proof fn lemma_or_high_bit(acc: u128, i: u128)
    requires
        i < 128,
        acc < pow2(i as nat),
    ensures
        acc | (1u128 << i) == acc + pow2(i as nat),
        acc + pow2(i as nat) <= u128::MAX,
{
    lemma_shl_one(i);
    lemma_pow2_128_bound(i as nat);
    lemma_pow2_unfold((i + 1) as nat);
    if i < 127 {
        lemma_pow2_128_bound((i + 1) as nat);
    } else {
        lemma_pow2_two_to_128();
    }
    assert(acc < (1u128 << i) ==> acc | (1u128 << i) == acc + (1u128 << i)) by (bit_vector)
        requires
            i < 128,
    ;
}

/// `x mod 2^n` for a wrapped 128-bit result equals the exact result mod `2^n`.
pub proof fn lemma_mod_of_wrapped(exact: int, wrapped: u128, n: nat)
    requires
        n <= 128,
        wrapped as int == exact % pow2(128) as int,
    ensures
        wrapped as nat % pow2(n) == exact % (pow2(n) as int),
{
    lemma_pow2_two_to_128();
    lemma_pow2_pos(n);
    if n == 128 {
        vstd::arithmetic::div_mod::lemma_mod_twice(exact, pow2(128) as int);
    } else {
        let d = (128 - n) as nat;
        vstd::arithmetic::power2::lemma_pow2_adds(n, d);
        lemma_pow2_pos(d);
        vstd::arithmetic::div_mod::lemma_mod_mod(exact, pow2(n) as int, pow2(d) as int);
        assert(n + d == 128);
        vstd::arithmetic::mul::lemma_mul_is_commutative(pow2(n) as int, pow2(d) as int);
    }
}

/// A prefix of a bit sequence is worth no more than the whole.
pub proof fn lemma_bits_val_prefix_le(s: Seq<bool>, k: int)
    requires
        0 <= k <= s.len(),
    ensures
        bits_val(s.take(k)) <= bits_val(s),
    decreases s.len(),
{
    if k < s.len() {
        let d = s.drop_last();
        assert(s =~= d.push(s.last()));
        lemma_bits_val_push(d, s.last());
        assert(d.take(k) =~= s.take(k));
        lemma_bits_val_prefix_le(d, k);
    } else {
        assert(s.take(k) =~= s);
    }
}

/// Bits `i >= 128` of a `u128` are zero.
pub proof fn lemma_high_bits_zero(v: u128, i: nat)
    requires
        i >= 128,
    ensures
        (v as nat / pow2(i)) % 2 == 0,
{
    lemma_pow2_two_to_128();
    if i > 128 {
        lemma_pow2_strictly_increases(128, i);
    }
    lemma_pow2_pos(i);
    vstd::arithmetic::div_mod::lemma_basic_div(v as int, pow2(i) as int);
}

/// The `n` low bits of `v`, LSB first (zeros beyond bit 127).
pub fn bits_of_u128(v: u128, n: usize) -> (r: Vec<bool>)
    ensures
        r@ == val_bits(v as nat, n as nat),
{
    let mut out: Vec<bool> = Vec::new();
    let mut i: usize = 0;
    while i < n
        invariant
            i <= n,
            out@.len() == i,
            forall|j: int| 0 <= j < i ==> out@[j] == val_bits(v as nat, n as nat)[j],
        decreases n - i,
    {
        let b = if i < 128 {
            proof {
                lemma_bit_of_u128(v, i as u128);
            }
            (v >> (i as u128)) & 1 == 1
        } else {
            proof {
                lemma_high_bits_zero(v, i as nat);
            }
            false
        };
        out.push(b);
        i = i + 1;
    }
    assert(out@ =~= val_bits(v as nat, n as nat));
    out
}

/// The value of an LSB-first bit slice, or `None` when it exceeds
/// `u128::MAX`.
pub fn u128_of_bits(s: &[bool]) -> (r: Option<u128>)
    ensures
        r is Some <==> bits_val(s@) <= u128::MAX,
        r matches Some(x) ==> x == bits_val(s@),
{
    let mut acc: u128 = 0;
    let mut i: usize = 0;
    proof {
        lemma2_to64();
        assert(s@.take(0) =~= Seq::<bool>::empty());
    }
    while i < s.len()
        invariant
            i <= s@.len(),
            acc as nat == bits_val(s@.take(i as int)),
            i <= 128 ==> (acc as nat) < pow2(i as nat),
            i > 128 ==> (acc as nat) < pow2(128),
        decreases s@.len() - i,
    {
        proof {
            assert(s@.take(i + 1) =~= s@.take(i as int).push(s@[i as int]));
            lemma_bits_val_push(s@.take(i as int), s@[i as int]);
            lemma_pow2_unfold((i + 1) as nat);
            lemma_pow2_pos(i as nat);
        }
        if s[i] {
            if i >= 128 {
                proof {
                    lemma_pow2_two_to_128();
                    if i > 128 {
                        lemma_pow2_strictly_increases(128, i as nat);
                    }
                    lemma_bits_val_prefix_le(s@, i + 1);
                }
                return None;
            }
            proof {
                lemma_or_high_bit(acc, i as u128);
            }
            acc = acc | (1u128 << (i as u128));
        } else {
            proof {
                if i >= 128 {
                    lemma_pow2_two_to_128();
                } else if i < 127 {
                    lemma_pow2_128_bound((i + 1) as nat);
                } else {
                    lemma_pow2_two_to_128();
                }
            }
        }
        i = i + 1;
    }
    proof {
        assert(s@.take(i as int) =~= s@);
        lemma_pow2_two_to_128();
        if i <= 128 {
            if i < 128 {
                lemma_pow2_128_bound(i as nat);
            }
        }
    }
    Some(acc)
}

} // verus!
