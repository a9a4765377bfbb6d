//! `BitSeq`: the LSB-first bit buffer every hardware value passes
//! through during simulation, serialization and code generation.

use vstd::prelude::*;

verus! {

/// An ordered, LSB-first sequence of bits.
#[derive(PartialEq, Eq, Hash, Debug)]
pub struct BitSeq {
    bits: Vec<bool>,
}

impl View for BitSeq {
    type V = Seq<bool>;

    closed spec fn view(&self) -> Seq<bool> {
        self.bits@
    }
}

impl Clone for BitSeq {
    fn clone(&self) -> (r: Self)
        ensures
            r@ == self@,
    {
        BitSeq { bits: self.bits.clone() }
    }
}

impl Default for BitSeq {
    fn default() -> (r: Self)
        ensures
            r@ == Seq::<bool>::empty(),
    {
        BitSeq::new()
    }
}

/// The debug text of a bit sequence: `BitSeq[1, 0, 1]`.
pub open spec fn bits_debug(s: Seq<bool>) -> Seq<char> {
    "BitSeq["@ + bits_joined(s) + "]"@
}

/// Bits rendered as `1`/`0` and joined by `", "`.
pub open spec fn bits_joined(s: Seq<bool>) -> Seq<char>
    decreases s.len(),
{
    if s.len() == 0 {
        Seq::empty()
    } else if s.len() == 1 {
        bit_char(s[0])
    } else {
        bits_joined(s.drop_last()) + ", "@ + bit_char(s.last())
    }
}

/// `"1"` or `"0"`.
pub open spec fn bit_char(b: bool) -> Seq<char> {
    if b {
        "1"@
    } else {
        "0"@
    }
}

impl BitSeq {
    /// The empty sequence.
    pub fn new() -> (r: Self)
        ensures
            r@ == Seq::<bool>::empty(),
    {
        BitSeq { bits: Vec::new() }
    }

    /// Wrap a `Vec<bool>`.
    pub fn from_vec(v: Vec<bool>) -> (r: Self)
        ensures
            r@ == v@,
    {
        BitSeq { bits: v }
    }

    /// Build from a fixed array of bits, in order.
    pub fn from_iter<const M: usize>(arr: [bool; M]) -> (r: Self)
        ensures
            r@ == arr@,
    {
        let mut v: Vec<bool> = Vec::new();
        let mut i: usize = 0;
        while i < M
            invariant
                i <= M,
                arr@.len() == M,
                v@ == arr@.take(i as int),
            decreases M - i,
        {
            v.push(arr[i]);
            i = i + 1;
            proof {
                assert(v@ =~= arr@.take(i as int));
            }
        }
        proof {
            assert(arr@.take(M as int) =~= arr@);
        }
        BitSeq { bits: v }
    }

    /// Build from a slice of bits, in order.
    pub fn from_slice(s: &[bool]) -> (r: Self)
        ensures
            r@ == s@,
    {
        let mut v: Vec<bool> = Vec::new();
        let mut i: usize = 0;
        while i < s.len()
            invariant
                i <= s@.len(),
                v@ == s@.take(i as int),
            decreases s@.len() - i,
        {
            v.push(s[i]);
            i = i + 1;
            proof {
                assert(v@ =~= s@.take(i as int));
            }
        }
        proof {
            assert(s@.take(s@.len() as int) =~= s@);
        }
        BitSeq { bits: v }
    }

    /// `n` copies of `b`.
    pub fn filled(b: bool, n: usize) -> (r: Self)
        ensures
            r@ == Seq::new(n as nat, |_i: int| b),
    {
        let mut v: Vec<bool> = Vec::new();
        let mut i: usize = 0;
        while i < n
            invariant
                i <= n,
                v@ == Seq::new(i as nat, |_i: int| b),
            decreases n - i,
        {
            v.push(b);
            i = i + 1;
            proof {
                assert(v@ =~= Seq::new(i as nat, |_i: int| b));
            }
        }
        BitSeq { bits: v }
    }

    /// The number of bits.
    pub fn len(&self) -> (r: usize)
        ensures
            r == self@.len(),
    {
        self.bits.len()
    }

    /// Whether the sequence is empty.
    pub fn is_empty(&self) -> (r: bool)
        ensures
            r == (self@.len() == 0),
    {
        self.bits.len() == 0
    }

    /// The bit at `i`, or `false` past the end.
    pub fn bit(&self, i: usize) -> (r: bool)
        ensures
            r == (i < self@.len() && self@[i as int]),
    {
        if i < self.bits.len() {
            self.bits[i]
        } else {
            false
        }
    }

    /// The underlying slice.
    pub fn as_slice(&self) -> (r: &[bool])
        ensures
            r@ == self@,
    {
        self.bits.as_slice()
    }

    /// Consume into the underlying `Vec<bool>`.
    pub fn into_vec(self) -> (r: Vec<bool>)
        ensures
            r@ == self@,
    {
        self.bits
    }

    /// The bits of `self` followed by the bits of `other`.
    pub fn concat(self, other: Self) -> (r: Self)
        ensures
            r@ == self@ + other@,
    {
        let mut v = self.bits;
        let mut o = other.bits;
        v.append(&mut o);
        BitSeq { bits: v }
    }

    /// Split into the first `min(at, len)` bits and the rest.
    pub fn split_at(self, at: usize) -> (r: (Self, Self))
        ensures
            r.0@ == self@.take(if at <= self@.len() { at as int } else { self@.len() as int }),
            r.1@ == self@.skip(if at <= self@.len() { at as int } else { self@.len() as int }),
    {
        let take = if at <= self.bits.len() { at } else { self.bits.len() };
        let head = self.sub(0, take);
        let tail = self.sub(take, self.bits.len());
        (head, tail)
    }

    /// The bits in `[lo, hi)`.
    pub fn sub(&self, lo: usize, hi: usize) -> (r: Self)
        requires
            lo <= hi <= self@.len(),
        ensures
            r@ == self@.subrange(lo as int, hi as int),
    {
        let mut v: Vec<bool> = Vec::new();
        let mut i: usize = lo;
        while i < hi
            invariant
                lo <= i <= hi,
                hi <= self@.len(),
                v@ == self@.subrange(lo as int, i as int),
            decreases hi - i,
        {
            v.push(self.bits[i]);
            i = i + 1;
            proof {
                assert(v@ =~= self@.subrange(lo as int, i as int));
            }
        }
        BitSeq { bits: v }
    }

    /// Append one bit.
    pub fn push(&mut self, b: bool)
        ensures
            final(self)@ == old(self)@.push(b),
    {
        self.bits.push(b);
    }

    /// The debug text, e.g. `BitSeq[1, 0, 1]`.
    pub fn debug_string(&self) -> (r: String)
        ensures
            r@ == bits_debug(self@),
    {
        let mut s = String::new();
        s.append("BitSeq[");
        let mut i: usize = 0;
        proof {
            reveal_strlit("BitSeq[");
            assert(s@ =~= "BitSeq["@ + bits_joined(self@.take(0)));
        }
        while i < self.bits.len()
            invariant
                i <= self@.len(),
                s@ == "BitSeq["@ + bits_joined(self@.take(i as int)),
            decreases self@.len() - i,
        {
            if i > 0 {
                s.append(", ");
            }
            if self.bits[i] {
                s.append("1");
            } else {
                s.append("0");
            }
            proof {
                let t = self@.take(i + 1);
                assert(t.drop_last() =~= self@.take(i as int));
                assert(t.last() == self@[i as int]);
                if i == 0 {
                    assert(self@.take(0) =~= Seq::<bool>::empty());
                }
            }
            i = i + 1;
        }
        s.append("]");
        proof {
            assert(self@.take(self@.len() as int) =~= self@);
        }
        s
    }
}

} // verus!
