//! Runtime descriptions of hardware types and their bit widths.

use vstd::prelude::*;

use crate::text::{decimal, push_decimal};

verus! {

/// A named field inside a struct descriptor.
#[derive(Debug, PartialEq, Eq, Hash)]
pub struct StructField {
    pub name: String,
    pub ty: TypeDesc,
}

/// A variant inside an enum descriptor.
#[derive(Debug, PartialEq, Eq, Hash)]
pub struct EnumVariant {
    pub name: String,
    pub payload: Vec<TypeDesc>,
}

/// A runtime-visible description of a hardware type's structure.
#[derive(Debug, PartialEq, Eq, Hash)]
pub enum TypeDesc {
    /// One boolean bit.
    Bool,
    /// An unsigned `n`-bit integer.
    Bits { n: usize },
    /// A two's-complement signed `n`-bit integer.
    Signed { n: usize },
    /// A fixed-arity tuple.
    Tuple(Vec<TypeDesc>),
    /// A fixed-length array of identical elements.
    Array { elem: Box<TypeDesc>, len: usize },
    /// A named struct with named fields.
    Struct { name: String, fields: Vec<StructField> },
    /// A tagged union.
    Enum { name: String, variants: Vec<EnumVariant> },
}

/// The number of binary digits of `x` (0 for 0).
pub open spec fn bit_length(x: nat) -> nat
    decreases x,
{
    if x == 0 {
        0
    } else {
        1 + bit_length(x / 2)
    }
}

/// Discriminant bits for an enum of `n` variants: `ceil(log2 n)`.
pub open spec fn discriminant_width(n: nat) -> nat {
    if n <= 1 {
        0
    } else {
        bit_length((n - 1) as nat)
    }
}

/// The bit width of a value of type `t`.
pub open spec fn width_of(t: TypeDesc) -> nat
    decreases t,
{
    match t {
        TypeDesc::Bool => 1,
        TypeDesc::Bits { n } => n as nat,
        TypeDesc::Signed { n } => n as nat,
        TypeDesc::Tuple(ts) => sum_width(ts@),
        TypeDesc::Array { elem, len } => width_of(*elem) * (len as nat),
        TypeDesc::Struct { name, fields } => sum_field_width(fields@),
        TypeDesc::Enum { name, variants } => discriminant_width(variants@.len()) + max_payload(variants@),
    }
}

/// The summed widths of a list of types.
pub open spec fn sum_width(s: Seq<TypeDesc>) -> nat
    decreases s,
{
    if s.len() == 0 {
        0
    } else {
        sum_width(s.drop_last()) + width_of(s.last())
    }
}

/// The summed widths of a list of struct fields.
pub open spec fn sum_field_width(s: Seq<StructField>) -> nat
    decreases s,
{
    if s.len() == 0 {
        0
    } else {
        sum_field_width(s.drop_last()) + width_of(s.last().ty)
    }
}

/// The widest payload among enum variants (0 for none).
pub open spec fn max_payload(s: Seq<EnumVariant>) -> nat
    decreases s,
{
    if s.len() == 0 {
        0
    } else {
        let rest = max_payload(s.drop_last());
        let here = sum_width(s.last().payload@);
        if rest >= here {
            rest
        } else {
            here
        }
    }
}

/// The display text of a type: `bool`, `Bits<n>`, `SignedBits<n>`,
/// `(a, b)`, `[t; n]`, or the declared name.
pub open spec fn display_of(t: TypeDesc) -> Seq<char>
    decreases t,
{
    match t {
        TypeDesc::Bool => "bool"@,
        TypeDesc::Bits { n } => "Bits<"@ + decimal(n as nat) + ">"@,
        TypeDesc::Signed { n } => "SignedBits<"@ + decimal(n as nat) + ">"@,
        TypeDesc::Tuple(ts) => "("@ + display_joined(ts@) + ")"@,
        TypeDesc::Array { elem, len } => "["@ + display_of(*elem) + "; "@ + decimal(len as nat) + "]"@,
        TypeDesc::Struct { name, fields } => name@,
        TypeDesc::Enum { name, variants } => name@,
    }
}

/// Display texts joined by `", "`.
pub open spec fn display_joined(s: Seq<TypeDesc>) -> Seq<char>
    decreases s,
{
    if s.len() == 0 {
        Seq::empty()
    } else if s.len() == 1 {
        display_of(s[0])
    } else {
        display_joined(s.drop_last()) + ", "@ + display_of(s.last())
    }
}

proof fn lemma_sum_width_prefix(s: Seq<TypeDesc>, i: int)
    requires
        0 <= i <= s.len(),
    ensures
        sum_width(s.take(i)) <= sum_width(s),
    decreases s.len(),
{
    if i < s.len() {
        assert(s.drop_last().take(i) =~= s.take(i));
        lemma_sum_width_prefix(s.drop_last(), i);
    } else {
        assert(s.take(i) =~= s);
    }
}

proof fn lemma_sum_field_width_prefix(s: Seq<StructField>, i: int)
    requires
        0 <= i <= s.len(),
    ensures
        sum_field_width(s.take(i)) <= sum_field_width(s),
    decreases s.len(),
{
    if i < s.len() {
        assert(s.drop_last().take(i) =~= s.take(i));
        lemma_sum_field_width_prefix(s.drop_last(), i);
    } else {
        assert(s.take(i) =~= s);
    }
}

fn bit_length_exec(x: usize) -> (r: usize)
    ensures
        r == bit_length(x as nat),
{
    let mut y = x;
    let mut n: usize = 0;
    proof {
        lemma_bit_length_bound(x as nat);
    }
    while y > 0
        invariant
            n + bit_length(y as nat) == bit_length(x as nat),
            n <= 64,
            bit_length(y as nat) + n <= 64,
        decreases y,
    {
        proof {
            lemma_bit_length_bound(y as nat);
        }
        n = n + 1;
        y = y / 2;
    }
    n
}

proof fn lemma_bit_length_bound(x: nat)
    requires
        x <= usize::MAX,
    ensures
        bit_length(x) <= 64,
{
    vstd::arithmetic::power2::lemma2_to64();
    lemma_bit_length_le(x, 64);
}

proof fn lemma_bit_length_le(x: nat, k: nat)
    requires
        x < vstd::arithmetic::power2::pow2(k),
    ensures
        bit_length(x) <= k,
    decreases x,
{
    if x > 0 {
        if k == 0 {
            vstd::arithmetic::power2::lemma2_to64();
        } else {
            vstd::arithmetic::power2::lemma_pow2_unfold(k);
            lemma_bit_length_le(x / 2, (k - 1) as nat);
        }
    }
}

impl StructField {
    /// Construct a new field descriptor.
    pub fn new(name: &str, ty: TypeDesc) -> (r: StructField)
        ensures
            r.name@ == name@,
            r.ty == ty,
    {
        StructField { name: name.to_string(), ty }
    }

    /// The field's name.
    pub fn name(&self) -> (r: &str)
        ensures
            r@ == self.name@,
    {
        self.name.as_str()
    }

    /// The field's type descriptor.
    pub fn ty(&self) -> (r: &TypeDesc)
        ensures
            *r == self.ty,
    {
        &self.ty
    }
}

impl EnumVariant {
    /// Construct a new variant descriptor.
    pub fn new(name: &str, payload: Vec<TypeDesc>) -> (r: EnumVariant)
        ensures
            r.name@ == name@,
            r.payload == payload,
    {
        EnumVariant { name: name.to_string(), payload }
    }

    /// The variant's name.
    pub fn name(&self) -> (r: &str)
        ensures
            r@ == self.name@,
    {
        self.name.as_str()
    }

    /// The payload types (empty for a unit variant).
    pub fn payload(&self) -> (r: &[TypeDesc])
        ensures
            r@ == self.payload@,
    {
        self.payload.as_slice()
    }
}

fn sum_widths_exec(ts: &Vec<TypeDesc>) -> (r: usize)
    requires
        sum_width(ts@) <= usize::MAX,
    ensures
        r == sum_width(ts@),
    decreases ts@, 0nat,
{
    let mut acc: usize = 0;
    let mut i: usize = 0;
    proof {
        assert(ts@.take(0) =~= Seq::<TypeDesc>::empty());
    }
    while i < ts.len()
        invariant
            i <= ts@.len(),
            sum_width(ts@) <= usize::MAX,
            acc == sum_width(ts@.take(i as int)),
        decreases ts@.len() - i,
    {
        proof {
            let t = ts@.take(i + 1);
            assert(t.drop_last() =~= ts@.take(i as int));
            assert(t.last() == ts@[i as int]);
            lemma_sum_width_prefix(ts@, i + 1);
        }
        let w = ts[i].width();
        acc = acc + w;
        i = i + 1;
    }
    proof {
        assert(ts@.take(ts@.len() as int) =~= ts@);
    }
    acc
}

fn sum_field_widths_exec(fs: &Vec<StructField>) -> (r: usize)
    requires
        sum_field_width(fs@) <= usize::MAX,
    ensures
        r == sum_field_width(fs@),
    decreases fs@, 0nat,
{
    let mut acc: usize = 0;
    let mut i: usize = 0;
    proof {
        assert(fs@.take(0) =~= Seq::<StructField>::empty());
    }
    while i < fs.len()
        invariant
            i <= fs@.len(),
            sum_field_width(fs@) <= usize::MAX,
            acc == sum_field_width(fs@.take(i as int)),
        decreases fs@.len() - i,
    {
        proof {
            let t = fs@.take(i + 1);
            assert(t.drop_last() =~= fs@.take(i as int));
            assert(t.last() == fs@[i as int]);
            lemma_sum_field_width_prefix(fs@, i + 1);
        }
        let w = fs[i].ty.width();
        acc = acc + w;
        i = i + 1;
    }
    proof {
        assert(fs@.take(fs@.len() as int) =~= fs@);
    }
    acc
}

proof fn lemma_max_payload_prefix(s: Seq<EnumVariant>, i: int)
    requires
        0 <= i <= s.len(),
    ensures
        max_payload(s.take(i)) <= max_payload(s),
        i < s.len() ==> sum_width(s[i].payload@) <= max_payload(s),
    decreases s.len(),
{
    if s.len() > 0 {
        if i < s.len() {
            assert(s.drop_last().take(i) =~= s.take(i));
            if i < s.len() - 1 {
                assert(s.drop_last()[i] == s[i]);
                lemma_max_payload_prefix(s.drop_last(), i);
            } else {
                lemma_max_payload_prefix(s.drop_last(), i);
            }
        } else {
            assert(s.take(i) =~= s);
        }
    } else {
        assert(s.take(i) =~= s);
    }
}

fn max_payload_exec(vs: &Vec<EnumVariant>) -> (r: usize)
    requires
        max_payload(vs@) <= usize::MAX,
    ensures
        r == max_payload(vs@),
    decreases vs@, 0nat,
{
    let mut best: usize = 0;
    let mut i: usize = 0;
    proof {
        assert(vs@.take(0) =~= Seq::<EnumVariant>::empty());
    }
    while i < vs.len()
        invariant
            i <= vs@.len(),
            max_payload(vs@) <= usize::MAX,
            best == max_payload(vs@.take(i as int)),
        decreases vs@.len() - i,
    {
        proof {
            let t = vs@.take(i + 1);
            assert(t.drop_last() =~= vs@.take(i as int));
            assert(t.last() == vs@[i as int]);
            lemma_max_payload_prefix(vs@, i as int);
        }
        let here = sum_widths_exec(&vs[i].payload);
        if here > best {
            best = here;
        }
        i = i + 1;
    }
    proof {
        assert(vs@.take(vs@.len() as int) =~= vs@);
    }
    best
}

impl TypeDesc {
    /// The total bit width of a value of this type: the sum of the
    /// parts for tuples and structs, element width times length for
    /// arrays, and for enums the discriminant width (`ceil(log2 n)`
    /// for `n` variants) plus the widest payload.
    pub fn width(&self) -> (r: usize)
        requires
            width_of(*self) <= usize::MAX,
        ensures
            r == width_of(*self),
        decreases *self, 1nat,
    {
        match self {
            TypeDesc::Bool => 1,
            TypeDesc::Bits { n } => *n,
            TypeDesc::Signed { n } => *n,
            TypeDesc::Tuple(ts) => sum_widths_exec(ts),
            TypeDesc::Array { elem, len } => {
                if *len == 0 {
                    proof {
                        vstd::arithmetic::mul::lemma_mul_basics(width_of(**elem) as int);
                    }
                    0
                } else {
                    proof {
                        if width_of(**elem) > 0 {
                            vstd::arithmetic::mul::lemma_mul_increases(*len as int, width_of(**elem) as int);
                        }
                        vstd::arithmetic::mul::lemma_mul_is_commutative(*len as int, width_of(**elem) as int);
                    }
                    let w = elem.width();
                    w * *len
                }
            },
            TypeDesc::Struct { name: _, fields } => sum_field_widths_exec(fields),
            TypeDesc::Enum { name: _, variants } => {
                let n = variants.len();
                let d = if n <= 1 {
                    0
                } else {
                    bit_length_exec(n - 1)
                };
                let p = max_payload_exec(variants);
                d + p
            },
        }
    }

    /// Append the display text to `out`.
    pub fn push_display(&self, out: &mut String)
        ensures
            final(out)@ == old(out)@ + display_of(*self),
        decreases *self, 1nat,
    {
        proof {
            reveal_strlit("bool");
            reveal_strlit("Bits<");
            reveal_strlit("SignedBits<");
            reveal_strlit(">");
            reveal_strlit("(");
            reveal_strlit(")");
            reveal_strlit("[");
            reveal_strlit("; ");
            reveal_strlit("]");
            reveal_strlit(", ");
        }
        let ghost start = out@;
        match self {
            TypeDesc::Bool => {
                out.append("bool");
            },
            TypeDesc::Bits { n } => {
                out.append("Bits<");
                push_decimal(out, *n as u128);
                out.append(">");
            },
            TypeDesc::Signed { n } => {
                out.append("SignedBits<");
                push_decimal(out, *n as u128);
                out.append(">");
            },
            TypeDesc::Tuple(ts) => {
                out.append("(");
                push_joined(ts, out);
                out.append(")");
            },
            TypeDesc::Array { elem, len } => {
                out.append("[");
                elem.push_display(out);
                out.append("; ");
                push_decimal(out, *len as u128);
                out.append("]");
            },
            TypeDesc::Struct { name, fields: _ } => {
                out.append(name.as_str());
            },
            TypeDesc::Enum { name, variants: _ } => {
                out.append(name.as_str());
            },
        }
        proof {
            assert(out@ =~= start + display_of(*self));
        }
    }

    /// The display text, e.g. `(Bits<4>, bool)` or `[bool; 8]`.
    pub fn to_display_string(&self) -> (r: String)
        ensures
            r@ == display_of(*self),
    {
        let mut s = String::new();
        self.push_display(&mut s);
        proof {
            assert(Seq::<char>::empty() + display_of(*self) =~= display_of(*self));
        }
        s
    }
}

fn push_joined(ts: &Vec<TypeDesc>, out: &mut String)
    ensures
        final(out)@ == old(out)@ + display_joined(ts@),
    decreases ts@, 0nat,
{
    let ghost start = out@;
    let mut i: usize = 0;
    proof {
        reveal_strlit(", ");
        assert(ts@.take(0) =~= Seq::<TypeDesc>::empty());
        assert(out@ =~= start + display_joined(ts@.take(0)));
    }
    while i < ts.len()
        invariant
            i <= ts@.len(),
            out@ == start + display_joined(ts@.take(i as int)),
        decreases ts@.len() - i,
    {
        if i > 0 {
            out.append(", ");
        }
        ts[i].push_display(out);
        proof {
            let t = ts@.take(i + 1);
            assert(t.drop_last() =~= ts@.take(i as int));
            assert(t.last() == ts@[i as int]);
            if i == 0 {
                assert(t[0] == ts@[0]);
            }
        }
        i = i + 1;
    }
    proof {
        assert(ts@.take(ts@.len() as int) =~= ts@);
    }
}

} // verus!
