//! Kernels: a small expression language over scalar hardware values
//! (`let` bindings, binary gates, `!`) compiled to a combinational
//! circuit, one wire and one instruction per operation.

pub mod semantics;

use vstd::prelude::*;

use crate::circuit::arrow::{ArrowSpec, CircuitArrow, wire_ids};
use crate::ir::builder::HdlGraphBuilder;
use crate::ir::graph::GraphSpec;
use crate::ir::instr::InstrSpec;
use crate::ir::op::{BinOp, Op, OpSpec};
use crate::ir::wire::{WireId, WireTy};
use vstd::pervasive::unreached;

verus! {

/// The scalar type of a kernel parameter or value.
#[derive(Clone, Copy, Debug, PartialEq, Eq, Structural)]
pub enum KernelTy {
    /// `bool`.
    Bool,
    /// `Bits<N>`.
    Bits(u32),
    /// `SignedBits<N>`.
    Signed(u32),
}

/// The wire type carrying a kernel type.
pub open spec fn kty_wire(t: KernelTy) -> WireTy {
    match t {
        KernelTy::Bool => WireTy::Bit,
        KernelTy::Bits(n) => WireTy::Bits(n),
        KernelTy::Signed(n) => WireTy::Signed(n),
    }
}

impl KernelTy {
    /// The wire type carrying this kernel type.
    pub fn wire_ty(self) -> (r: WireTy)
        ensures
            r == kty_wire(self),
    {
        match self {
            KernelTy::Bool => WireTy::Bit,
            KernelTy::Bits(n) => WireTy::Bits(n),
            KernelTy::Signed(n) => WireTy::Signed(n),
        }
    }
}

/// Why a parameter type is refused: `Bits` or `SignedBits` without a
/// width, or a type name the kernel language does not know.
#[derive(Clone, Copy, Debug, PartialEq, Eq, Structural)]
pub enum ScalarTyError {
    MissingWidth,
    Unsupported,
}

/// The kernel type a parameter's type path names, from the path's last
/// segment and the width its generic argument gives: `bool`, or `Bits` /
/// `SignedBits` of that width.
pub open spec fn scalar_ty_spec(name: Seq<char>, width: Option<u32>) -> Result<KernelTy, ScalarTyError> {
    if name == "bool"@ {
        Ok(KernelTy::Bool)
    } else if name == "Bits"@ || name == "SignedBits"@ {
        match width {
            Some(w) => Ok(if name == "Bits"@ { KernelTy::Bits(w) } else { KernelTy::Signed(w) }),
            None => Err(ScalarTyError::MissingWidth),
        }
    } else {
        Err(ScalarTyError::Unsupported)
    }
}

/// Recognise a kernel parameter's type from the last segment `name` of
/// its path and the literal `width` of its generic argument, if any.
pub fn scalar_ty_from_path(name: &String, width: Option<u32>) -> (r: Result<KernelTy, ScalarTyError>)
    ensures
        r == scalar_ty_spec(name@, width),
{
    let b = String::from_str("bool");
    let bits = String::from_str("Bits");
    let signed = String::from_str("SignedBits");
    proof {
        reveal_strlit("bool");
        reveal_strlit("Bits");
        reveal_strlit("SignedBits");
    }
    if *name == b {
        Ok(KernelTy::Bool)
    } else if *name == bits || *name == signed {
        match width {
            Some(w) => if *name == bits {
                Ok(KernelTy::Bits(w))
            } else {
                Ok(KernelTy::Signed(w))
            },
            None => Err(ScalarTyError::MissingWidth),
        }
    } else {
        Err(ScalarTyError::Unsupported)
    }
}

/// The mathematical content of a [`KernelExpr`].
pub ghost enum KernelExprV {
    Var(Seq<char>),
    Bin(BinOp, Box<KernelExprV>, Box<KernelExprV>),
    Not(Box<KernelExprV>),
}

/// A kernel expression.
#[derive(Debug)]
pub enum KernelExpr {
    /// A parameter or `let`-bound name.
    Var(String),
    /// A binary gate; the result has the left operand's type.
    Bin(BinOp, Box<KernelExpr>, Box<KernelExpr>),
    /// Bitwise `!`.
    Not(Box<KernelExpr>),
}

/// The view of a kernel expression.
pub open spec fn kexpr_v(e: KernelExpr) -> KernelExprV
    decreases e,
{
    match e {
        KernelExpr::Var(n) => KernelExprV::Var(n@),
        KernelExpr::Bin(op, a, b) => KernelExprV::Bin(op, Box::new(kexpr_v(*a)), Box::new(kexpr_v(*b))),
        KernelExpr::Not(a) => KernelExprV::Not(Box::new(kexpr_v(*a))),
    }
}

impl View for KernelExpr {
    type V = KernelExprV;

    open spec fn view(&self) -> KernelExprV {
        kexpr_v(*self)
    }
}

/// A kernel parameter: a name and its scalar type.
#[derive(Debug)]
pub struct KernelParam {
    pub name: String,
    pub ty: KernelTy,
}

/// A `let name = value;` binding.
#[derive(Debug)]
pub struct KernelLet {
    pub name: String,
    pub value: KernelExpr,
}

/// A kernel: parameters, `let` bindings in order, the tail expression
/// and the declared result type.
#[derive(Debug)]
pub struct Kernel {
    pub params: Vec<KernelParam>,
    pub lets: Vec<KernelLet>,
    pub body: KernelExpr,
    pub output: KernelTy,
}

/// Why a kernel cannot be compiled.
#[derive(Debug, PartialEq, Eq)]
pub enum KernelError {
    /// The kernel has no parameters.
    NoParameters,
    /// A name is neither a parameter nor bound by an earlier `let`.
    UnknownIdentifier(String),
}

/// The mathematical content of a [`KernelError`].
pub ghost enum KernelErrorV {
    NoParameters,
    UnknownIdentifier(Seq<char>),
}

impl View for KernelError {
    type V = KernelErrorV;

    open spec fn view(&self) -> KernelErrorV {
        match self {
            KernelError::NoParameters => KernelErrorV::NoParameters,
            KernelError::UnknownIdentifier(n) => KernelErrorV::UnknownIdentifier(n@),
        }
    }
}

/// A name in scope: its source name, the wire holding it, its type.
pub type Binding = (Seq<char>, WireId, KernelTy);

/// The most recent binding of `name`.
pub open spec fn lookup(env: Seq<Binding>, name: Seq<char>) -> Option<(WireId, KernelTy)>
    decreases env.len(),
{
    if env.len() == 0 {
        None
    } else if env.last().0 == name {
        Some((env.last().1, env.last().2))
    } else {
        lookup(env.drop_last(), name)
    }
}

/// The graph under construction: a new wire's id is the number of
/// wires before it.
pub open spec fn fresh(g: GraphSpec) -> WireId {
    WireId(g.wires.len() as usize)
}

/// Add a wire of type `t` and the instruction `op(ins) -> new wire`.
pub open spec fn emit(g: GraphSpec, t: KernelTy, op: OpSpec, ins: Seq<WireId>) -> GraphSpec {
    GraphSpec {
        wires: g.wires.push(kty_wire(t)),
        instrs: g.instrs.push(InstrSpec { op, inputs: ins, output: fresh(g) }),
    }
}

/// Compile an expression: operands first (left, then right), then one
/// fresh wire and instruction per operation.  `Err` carries the first
/// unknown name.
pub open spec fn compile_expr_spec(env: Seq<Binding>, g: GraphSpec, e: KernelExprV) -> Result<
    (GraphSpec, WireId, KernelTy),
    Seq<char>,
>
    decreases e,
{
    match e {
        KernelExprV::Var(n) => match lookup(env, n) {
            Some((w, t)) => Ok((g, w, t)),
            None => Err(n),
        },
        KernelExprV::Bin(op, a, b) => match compile_expr_spec(env, g, *a) {
            Err(n) => Err(n),
            Ok((g1, x, tx)) => match compile_expr_spec(env, g1, *b) {
                Err(n) => Err(n),
                Ok((g2, y, _ty)) => Ok((emit(g2, tx, OpSpec::Bin(op), seq![x, y]), fresh(g2), tx)),
            },
        },
        KernelExprV::Not(a) => match compile_expr_spec(env, g, *a) {
            Err(n) => Err(n),
            Ok((g1, x, tx)) => Ok((emit(g1, tx, OpSpec::Not, seq![x]), fresh(g1), tx)),
        },
    }
}

/// Compile `let` bindings in order, each binding its name to the
/// wire of its value.
pub open spec fn compile_lets_spec(env: Seq<Binding>, g: GraphSpec, lets: Seq<(Seq<char>, KernelExprV)>) -> Result<
    (Seq<Binding>, GraphSpec),
    Seq<char>,
>
    decreases lets.len(),
{
    if lets.len() == 0 {
        Ok((env, g))
    } else {
        match compile_lets_spec(env, g, lets.drop_last()) {
            Err(n) => Err(n),
            Ok((env1, g1)) => match compile_expr_spec(env1, g1, lets.last().1) {
                Err(n) => Err(n),
                Ok((g2, w, t)) => Ok((env1.push((lets.last().0, w, t)), g2)),
            },
        }
    }
}

/// The parameters as `(name, type)` pairs.
pub open spec fn params_v(ps: Seq<KernelParam>) -> Seq<(Seq<char>, KernelTy)> {
    ps.map_values(|p: KernelParam| (p.name@, p.ty))
}

/// The `let` bindings as `(name, value)` pairs.
pub open spec fn lets_v(ls: Seq<KernelLet>) -> Seq<(Seq<char>, KernelExprV)> {
    ls.map_values(|l: KernelLet| (l.name@, l.value@))
}

/// One wire per parameter, in order; parameter `i` is bound to wire `i`.
pub open spec fn param_graph(ps: Seq<(Seq<char>, KernelTy)>) -> GraphSpec {
    GraphSpec { wires: ps.map_values(|p: (Seq<char>, KernelTy)| kty_wire(p.1)), instrs: Seq::empty() }
}

/// The initial scope: each parameter bound to its wire.
pub open spec fn param_env(ps: Seq<(Seq<char>, KernelTy)>) -> Seq<Binding> {
    Seq::new(ps.len(), |i: int| (ps[i].0, WireId(i as usize), ps[i].1))
}

/// The circuit of a kernel: parameter wires as inputs, the tail
/// expression's wire as the single output.
pub open spec fn kernel_spec(ps: Seq<(Seq<char>, KernelTy)>, lets: Seq<(Seq<char>, KernelExprV)>, body: KernelExprV) -> Result<
    ArrowSpec,
    KernelErrorV,
> {
    if ps.len() == 0 {
        Err(KernelErrorV::NoParameters)
    } else {
        match compile_lets_spec(param_env(ps), param_graph(ps), lets) {
            Err(n) => Err(KernelErrorV::UnknownIdentifier(n)),
            Ok((env, g)) => match compile_expr_spec(env, g, body) {
                Err(n) => Err(KernelErrorV::UnknownIdentifier(n)),
                Ok((g2, w, _t)) => Ok(ArrowSpec { graph: g2, inputs: wire_ids(0, ps.len()), outputs: seq![w] }),
            },
        }
    }
}

/// The bindings as `(name, wire, type)` views.
pub open spec fn env_v(env: Seq<(String, WireId, KernelTy)>) -> Seq<Binding> {
    env.map_values(|b: (String, WireId, KernelTy)| (b.0@, b.1, b.2))
}

/// The most recent binding of `name`.
fn lookup_env(env: &Vec<(String, WireId, KernelTy)>, name: &String) -> (r: Option<(WireId, KernelTy)>)
    ensures
        r == lookup(env_v(env@), name@),
{
    let mut i: usize = env.len();
    proof {
        assert(env_v(env@).take(i as int) =~= env_v(env@));
    }
    while i > 0
        invariant
            i <= env@.len(),
            lookup(env_v(env@).take(i as int), name@) == lookup(env_v(env@), name@),
        decreases i,
    {
        let ghost t = env_v(env@).take(i as int);
        proof {
            assert(t.drop_last() =~= env_v(env@).take(i - 1));
            assert(t.last() == (env@[i - 1].0@, env@[i - 1].1, env@[i - 1].2));
        }
        if env[i - 1].0 == *name {
            return Some((env[i - 1].1, env[i - 1].2));
        }
        i = i - 1;
    }
    None
}

/// Compile an expression onto the builder (see [`compile_expr_spec`]);
/// `Err` carries the first unknown name.
pub fn compile_expr(b: HdlGraphBuilder, env: &Vec<(String, WireId, KernelTy)>, e: &KernelExpr) -> (r: Result<
    (HdlGraphBuilder, WireId, KernelTy),
    String,
>)
    ensures
        match compile_expr_spec(env_v(env@), b@, e@) {
            Ok((g, w, t)) => r matches Ok(x) && x.0@ == g && x.1 == w && x.2 == t,
            Err(n) => r matches Err(m) && m@ == n,
        },
    decreases e,
{
    match e {
        KernelExpr::Var(n) => match lookup_env(env, n) {
            Some((w, t)) => Ok((b, w, t)),
            None => Err(n.clone()),
        },
        KernelExpr::Bin(op, lhs, rhs) => {
            let (b1, x, tx) = compile_expr(b, env, lhs)?;
            let (b2, y, _ty) = compile_expr(b1, env, rhs)?;
            let (b3, out) = b2.with_wire(tx.wire_ty());
            let ins = vec![x, y];
            proof {
                assert(ins@ =~= seq![x, y]);
            }
            match b3.with_instruction(Op::Bin(*op), ins, out) {
                Ok(b4) => Ok((b4, out, tx)),
                Err(_) => unreached(),
            }
        },
        KernelExpr::Not(inner) => {
            let (b1, x, tx) = compile_expr(b, env, inner)?;
            let (b2, out) = b1.with_wire(tx.wire_ty());
            let ins = vec![x];
            proof {
                assert(ins@ =~= seq![x]);
            }
            match b2.with_instruction(Op::Not, ins, out) {
                Ok(b3) => Ok((b3, out, tx)),
                Err(_) => unreached(),
            }
        },
    }
}

proof fn lemma_lets_err_sticks(env: Seq<Binding>, g: GraphSpec, lets: Seq<(Seq<char>, KernelExprV)>, j: int, n: Seq<char>)
    requires
        0 <= j <= lets.len(),
        compile_lets_spec(env, g, lets.take(j)) == Err::<(Seq<Binding>, GraphSpec), Seq<char>>(n),
    ensures
        compile_lets_spec(env, g, lets) == Err::<(Seq<Binding>, GraphSpec), Seq<char>>(n),
    decreases lets.len(),
{
    if j == lets.len() {
        assert(lets.take(j) =~= lets);
    } else {
        assert(lets.drop_last().take(j) =~= lets.take(j));
        lemma_lets_err_sticks(env, g, lets.drop_last(), j, n);
    }
}

/// Compile a kernel to a circuit: one input wire per parameter, in
/// order; each operation of the `let` values and the tail expression
/// adds one wire (typed as its left operand) and one instruction; the
/// tail's wire is the single output.  Fails on a kernel without
/// parameters and on the first unknown name.
pub fn compile_kernel<I, O>(k: &Kernel) -> (r: Result<CircuitArrow<I, O>, KernelError>)
    ensures
        match kernel_spec(params_v(k.params@), lets_v(k.lets@), k.body@) {
            Ok(a) => r matches Ok(c) && c@ == a,
            Err(e) => r matches Err(x) && x@ == e,
        },
{
    let ghost ps = params_v(k.params@);
    let ghost ls = lets_v(k.lets@);
    if k.params.len() == 0 {
        return Err(KernelError::NoParameters);
    }
    let mut b = HdlGraphBuilder::new();
    let mut env: Vec<(String, WireId, KernelTy)> = Vec::new();
    let mut inputs: Vec<WireId> = Vec::new();
    let mut i: usize = 0;
    proof {
        assert(b@.wires =~= param_graph(ps.take(0)).wires);
        assert(b@.instrs =~= param_graph(ps.take(0)).instrs);
        assert(env_v(env@) =~= param_env(ps.take(0)));
        assert(inputs@ =~= wire_ids(0, 0));
    }
    while i < k.params.len()
        invariant
            i <= k.params@.len(),
            ps == params_v(k.params@),
            b@ == param_graph(ps.take(i as int)),
            env_v(env@) == param_env(ps.take(i as int)),
            inputs@ == wire_ids(0, i as nat),
        decreases k.params@.len() - i,
    {
        let p = &k.params[i];
        let (b1, w) = b.with_wire(p.ty.wire_ty());
        b = b1;
        let ghost before = env@;
        env.push((p.name.clone(), w, p.ty));
        inputs.push(w);
        proof {
            let t = ps.take(i + 1);
            assert(t[i as int] == (p.name@, p.ty));
            assert(b@.wires =~= param_graph(t).wires);
            assert(b@.instrs =~= param_graph(t).instrs);
            assert(ps.take(i as int) =~= t.drop_last());
            assert(w.0 == i);
            assert(env_v(env@) =~= env_v(before).push((p.name@, w, p.ty)));
            assert(param_env(t) =~= param_env(ps.take(i as int)).push((p.name@, w, p.ty)));
            assert(inputs@ =~= wire_ids(0, (i + 1) as nat));
        }
        i = i + 1;
    }
    proof {
        assert(ps.take(i as int) =~= ps);
    }
    let mut j: usize = 0;
    proof {
        assert(ls.take(0) =~= Seq::<(Seq<char>, KernelExprV)>::empty());
    }
    while j < k.lets.len()
        invariant
            j <= k.lets@.len(),
            ls == lets_v(k.lets@),
            ps == params_v(k.params@),
            ps.len() > 0,
            compile_lets_spec(param_env(ps), param_graph(ps), ls.take(j as int)) == Ok::<
                (Seq<Binding>, GraphSpec),
                Seq<char>,
            >((env_v(env@), b@)),
        decreases k.lets@.len() - j,
    {
        let l = &k.lets[j];
        proof {
            let t = ls.take(j + 1);
            assert(t.drop_last() =~= ls.take(j as int));
            assert(t.last() == (l.name@, l.value@));
        }
        match compile_expr(b, &env, &l.value) {
            Ok((b2, w, t)) => {
                b = b2;
                let ghost before = env@;
                env.push((l.name.clone(), w, t));
                proof {
                    assert(env_v(env@) =~= env_v(before).push((l.name@, w, t)));
                }
            },
            Err(n) => {
                proof {
                    lemma_lets_err_sticks(param_env(ps), param_graph(ps), ls, j + 1, n@);
                }
                return Err(KernelError::UnknownIdentifier(n));
            },
        }
        j = j + 1;
    }
    proof {
        assert(ls.take(j as int) =~= ls);
    }
    match compile_expr(b, &env, &k.body) {
        Ok((b2, w, _t)) => {
            let outputs = vec![w];
            proof {
                assert(outputs@ =~= seq![w]);
            }
            Ok(CircuitArrow::from_raw_parts(b2.build(), inputs, outputs))
        },
        Err(n) => Err(KernelError::UnknownIdentifier(n)),
    }
}

/// The number of operations (binary gates and `!`) in an expression.
pub open spec fn op_count(e: KernelExprV) -> nat
    decreases e,
{
    match e {
        KernelExprV::Var(_) => 0,
        KernelExprV::Bin(_, a, b) => 1 + op_count(*a) + op_count(*b),
        KernelExprV::Not(a) => 1 + op_count(*a),
    }
}

/// The number of operations in the values of a list of bindings.
pub open spec fn lets_op_count(lets: Seq<(Seq<char>, KernelExprV)>) -> nat
    decreases lets.len(),
{
    if lets.len() == 0 {
        0
    } else {
        lets_op_count(lets.drop_last()) + op_count(lets.last().1)
    }
}

proof fn lemma_expr_counts(env: Seq<Binding>, g: GraphSpec, e: KernelExprV)
    ensures
        compile_expr_spec(env, g, e) matches Ok((g2, w, t)) ==> g2.instrs.len() == g.instrs.len() + op_count(e)
            && g2.wires.len() == g.wires.len() + op_count(e),
    decreases e,
{
    match e {
        KernelExprV::Var(_) => {},
        KernelExprV::Bin(op, a, b) => {
            lemma_expr_counts(env, g, *a);
            if let Ok((g1, x, tx)) = compile_expr_spec(env, g, *a) {
                lemma_expr_counts(env, g1, *b);
            }
        },
        KernelExprV::Not(a) => {
            lemma_expr_counts(env, g, *a);
        },
    }
}

proof fn lemma_lets_counts(env: Seq<Binding>, g: GraphSpec, lets: Seq<(Seq<char>, KernelExprV)>)
    ensures
        compile_lets_spec(env, g, lets) matches Ok((env2, g2)) ==> g2.instrs.len() == g.instrs.len() + lets_op_count(
            lets,
        ),
    decreases lets.len(),
{
    if lets.len() > 0 {
        lemma_lets_counts(env, g, lets.drop_last());
        if let Ok((env1, g1)) = compile_lets_spec(env, g, lets.drop_last()) {
            lemma_expr_counts(env1, g1, lets.last().1);
        }
    }
}

/// A compiled kernel has one input per parameter, one output, and one
/// instruction per operation in its bindings and tail expression.
pub proof fn lemma_kernel_shape(
    ps: Seq<(Seq<char>, KernelTy)>,
    lets: Seq<(Seq<char>, KernelExprV)>,
    body: KernelExprV,
)
    ensures
        kernel_spec(ps, lets, body) matches Ok(a) ==> a.inputs.len() == ps.len() && a.outputs.len() == 1
            && a.graph.instrs.len() == lets_op_count(lets) + op_count(body),
{
    if ps.len() > 0 {
        lemma_lets_counts(param_env(ps), param_graph(ps), lets);
        if let Ok((env, g)) = compile_lets_spec(param_env(ps), param_graph(ps), lets) {
            lemma_expr_counts(env, g, body);
        }
    }
}

} // verus!
