//! What a compiled kernel computes: interpreting its circuit on the
//! parameters' values gives the value of its expression, each
//! operation applied to its left operand and then its right.

use vstd::prelude::*;

use crate::circuit::arrow::wire_ids;
use crate::circuit::laws::{lemma_first_value_ids, lemma_run_append};
use crate::ir::graph::GraphSpec;
use crate::ir::instr::InstrSpec;
use crate::ir::op::OpSpec;
use crate::ir::wire::WireId;
use crate::kernel::{Binding, KernelExprV, KernelTy, compile_expr_spec, compile_lets_spec, emit, fresh, kernel_spec,
    param_env, param_graph};
use crate::sim::interp::{EnvSpec, SimErr, apply_bin_spec, initial_env, interpret_spec, operands, run_instrs};
use crate::sync::laws::lemma_operands_of_lookups;

verus! {

/// The most recent value bound to `name`.
pub open spec fn value_of(env: Seq<(Seq<char>, Seq<bool>)>, name: Seq<char>) -> Option<Seq<bool>>
    decreases env.len(),
{
    if env.len() == 0 {
        None
    } else if env.last().0 == name {
        Some(env.last().1)
    } else {
        value_of(env.drop_last(), name)
    }
}

/// The value of a kernel expression when the names in scope hold
/// `env`'s values: a name's value; a binary operation's gate (wrapping
/// `Bits<N>` arithmetic, a one-bit comparison, or a bitwise gate) on
/// the left operand's value and the right operand's value, in that
/// order; `!` complements every bit.  `None` on an unknown name or
/// operands of different widths.
pub open spec fn kernel_expr_value(env: Seq<(Seq<char>, Seq<bool>)>, e: KernelExprV) -> Option<Seq<bool>>
    decreases e,
{
    match e {
        KernelExprV::Var(n) => value_of(env, n),
        KernelExprV::Bin(op, a, b) => match kernel_expr_value(env, *a) {
            None => None,
            Some(x) => match kernel_expr_value(env, *b) {
                None => None,
                Some(y) => match apply_bin_spec(op, x, y) {
                    Ok(r) => Some(r),
                    Err(_) => None,
                },
            },
        },
        KernelExprV::Not(a) => match kernel_expr_value(env, *a) {
            None => None,
            Some(x) => Some(Seq::new(x.len(), |i: int| !x[i])),
        },
    }
}

/// The names in scope after the `let` bindings, each bound to its
/// value.
pub open spec fn lets_values(env: Seq<(Seq<char>, Seq<bool>)>, lets: Seq<(Seq<char>, KernelExprV)>) -> Option<
    Seq<(Seq<char>, Seq<bool>)>,
>
    decreases lets.len(),
{
    if lets.len() == 0 {
        Some(env)
    } else {
        match lets_values(env, lets.drop_last()) {
            None => None,
            Some(env1) => match kernel_expr_value(env1, lets.last().1) {
                None => None,
                Some(v) => Some(env1.push((lets.last().0, v))),
            },
        }
    }
}

/// The value of a kernel on parameter values `vs` (one per parameter,
/// in order).
pub open spec fn kernel_value(
    ps: Seq<(Seq<char>, KernelTy)>,
    lets: Seq<(Seq<char>, KernelExprV)>,
    body: KernelExprV,
    vs: Seq<Seq<bool>>,
) -> Option<Seq<bool>> {
    match lets_values(Seq::new(ps.len(), |i: int| (ps[i].0, vs[i])), lets) {
        None => None,
        Some(env) => kernel_expr_value(env, body),
    }
}

/// The compile-time scope `env` and the value scope `venv` bind the
/// same names in the same order, every bound wire is below `n`, and in
/// the interpreter's environment `e` each bound wire holds its name's
/// value.
pub open spec fn aligned(env: Seq<Binding>, venv: Seq<(Seq<char>, Seq<bool>)>, e: EnvSpec, n: nat) -> bool {
    &&& env.len() == venv.len()
    &&& forall|i: int|
        0 <= i < env.len() ==> (#[trigger] env[i]).0 == venv[i].0 && (env[i].1.0 as nat) < n
            && crate::sim::interp::lookup(e, env[i].1) == Some(venv[i].1)
}

/// Two environments of the same length agree on the wires below `n`.
pub open spec fn agree_below(a: EnvSpec, b: EnvSpec, n: nat) -> bool {
    &&& a.len() == b.len()
    &&& forall|i: int| 0 <= i < n && i < a.len() ==> #[trigger] a[i] == b[i]
}

/// Looking a name up in aligned scopes finds its wire and its value,
/// and the wire holds the value.
proof fn lemma_aligned_lookup(env: Seq<Binding>, venv: Seq<(Seq<char>, Seq<bool>)>, e: EnvSpec, n: nat, name: Seq<char>)
    requires
        aligned(env, venv, e, n),
    ensures
        crate::kernel::lookup(env, name) is Some <==> value_of(venv, name) is Some,
        crate::kernel::lookup(env, name) matches Some((w, t)) ==> (w.0 as nat) < n && crate::sim::interp::lookup(
            e,
            w,
        ) == value_of(venv, name),
    decreases env.len(),
{
    if env.len() > 0 {
        let k = env.len() - 1;
        assert(env.last() == env[k]);
        assert(venv.last() == venv[k]);
        let ep = env.drop_last();
        let vp = venv.drop_last();
        assert forall|i: int| 0 <= i < ep.len() implies (#[trigger] ep[i]).0 == vp[i].0 && (ep[i].1.0 as nat) < n
            && crate::sim::interp::lookup(e, ep[i].1) == Some(vp[i].1) by {
            assert(ep[i] == env[i]);
            assert(vp[i] == venv[i]);
        }
        lemma_aligned_lookup(ep, vp, e, n, name);
    }
}

/// Alignment survives changes above the bound, and a larger bound.
proof fn lemma_aligned_keep(env: Seq<Binding>, venv: Seq<(Seq<char>, Seq<bool>)>, e: EnvSpec, e2: EnvSpec, n: nat, m: nat)
    requires
        aligned(env, venv, e, n),
        agree_below(e, e2, n),
        n <= m,
    ensures
        aligned(env, venv, e2, m),
{
    assert forall|i: int| 0 <= i < env.len() implies (#[trigger] env[i]).0 == venv[i].0 && (env[i].1.0 as nat) < m
        && crate::sim::interp::lookup(e2, env[i].1) == Some(venv[i].1) by {
        let w = env[i].1;
        if (w.0 as nat) < e.len() {
            assert(e2[w.0 as int] == e[w.0 as int]);
        }
    }
}

/// The graph of a compiled expression extends the graph it starts from.
pub open spec fn extends(g: GraphSpec, g2: GraphSpec) -> bool {
    &&& g.wires.len() <= g2.wires.len()
    &&& g.instrs.len() <= g2.instrs.len()
    &&& g2.instrs.take(g.instrs.len() as int) == g.instrs
}

/// Compiling an expression only adds wires and instructions.
proof fn lemma_compile_extends(env: Seq<Binding>, g: GraphSpec, e: KernelExprV)
    requires
        compile_expr_spec(env, g, e) is Ok,
    ensures
        extends(g, compile_expr_spec(env, g, e)->Ok_0.0),
    decreases e,
{
    match e {
        KernelExprV::Var(n) => {
            assert(g.instrs.take(g.instrs.len() as int) =~= g.instrs);
        },
        KernelExprV::Bin(op, a, b) => {
            let (g1, x, tx) = compile_expr_spec(env, g, *a)->Ok_0;
            let (g2, y, ty) = compile_expr_spec(env, g1, *b)->Ok_0;
            lemma_compile_extends(env, g, *a);
            lemma_compile_extends(env, g1, *b);
            let g3 = emit(g2, tx, OpSpec::Bin(op), seq![x, y]);
            assert(g3.instrs.take(g.instrs.len() as int) =~= g.instrs) by {
                assert(g1.instrs.take(g.instrs.len() as int) == g.instrs);
                assert(g2.instrs.take(g1.instrs.len() as int) == g1.instrs);
            }
        },
        KernelExprV::Not(a) => {
            let (g1, x, tx) = compile_expr_spec(env, g, *a)->Ok_0;
            lemma_compile_extends(env, g, *a);
            let g3 = emit(g1, tx, OpSpec::Not, seq![x]);
            assert(g3.instrs.take(g.instrs.len() as int) =~= g.instrs) by {
                assert(g1.instrs.take(g.instrs.len() as int) == g.instrs);
            }
        },
    }
}

/// Running the instructions a compiled expression adds, from an
/// environment where the scope's wires hold their values, sets the
/// expression's wire to the expression's value and leaves the wires
/// already built alone.
#[verifier::spinoff_prover]
#[verifier::rlimit(50)]
proof fn lemma_expr_runs(env: Seq<Binding>, venv: Seq<(Seq<char>, Seq<bool>)>, g: GraphSpec, e: KernelExprV, en: EnvSpec)
    requires
        aligned(env, venv, en, g.wires.len()),
        compile_expr_spec(env, g, e) is Ok,
        compile_expr_spec(env, g, e)->Ok_0.0.wires.len() <= en.len(),
        en.len() <= usize::MAX,
        kernel_expr_value(venv, e) is Some,
    ensures
        ({
            let (g2, w, t) = compile_expr_spec(env, g, e)->Ok_0;
            &&& extends(g, g2)
            &&& (w.0 as nat) < g2.wires.len()
            &&& run_instrs(en, g2.instrs.skip(g.instrs.len() as int)) matches Ok(e2) && agree_below(en, e2, g.wires.len())
                && crate::sim::interp::lookup(e2, w) == kernel_expr_value(venv, e)
        }),
    decreases e,
{
    match e {
        KernelExprV::Var(n) => {
            lemma_aligned_lookup(env, venv, en, g.wires.len(), n);
            assert(g.instrs.skip(g.instrs.len() as int) =~= Seq::<InstrSpec>::empty());
            assert(g.instrs.take(g.instrs.len() as int) =~= g.instrs);
        },
        KernelExprV::Bin(op, a, b) => {
            let (g1, x, tx) = compile_expr_spec(env, g, *a)->Ok_0;
            let (g2, y, ty) = compile_expr_spec(env, g1, *b)->Ok_0;
            let g3 = emit(g2, tx, OpSpec::Bin(op), seq![x, y]);
            assert(compile_expr_spec(env, g, e)->Ok_0 == (g3, fresh(g2), tx));
            lemma_compile_extends(env, g, *a);
            lemma_compile_extends(env, g1, *b);
            lemma_expr_runs(env, venv, g, *a, en);
            let e1 = run_instrs(en, g1.instrs.skip(g.instrs.len() as int))->Ok_0;
            lemma_aligned_keep(env, venv, en, e1, g.wires.len(), g1.wires.len());
            lemma_expr_runs(env, venv, g1, *b, e1);
            let e2 = run_instrs(e1, g2.instrs.skip(g1.instrs.len() as int))->Ok_0;
            let va = kernel_expr_value(venv, *a)->Some_0;
            let vb = kernel_expr_value(venv, *b)->Some_0;
            let r = apply_bin_spec(op, va, vb)->Ok_0;
            assert(e2[x.0 as int] == e1[x.0 as int]);
            let new = InstrSpec { op: OpSpec::Bin(op), inputs: seq![x, y], output: fresh(g2) };
            lemma_operands_of_lookups(e2, seq![x, y], seq![va, vb]);
            let k = g2.wires.len() as int;
            let e3 = e2.update(k, Some(r));
            assert(crate::sim::interp::step_spec(e2, new) == Ok::<EnvSpec, SimErr>(e3));
            let s1 = g1.instrs.skip(g.instrs.len() as int);
            let s2 = g2.instrs.skip(g1.instrs.len() as int);
            assert(g3.instrs.skip(g.instrs.len() as int) =~= s1 + s2 + seq![new]);
            assert(g3.instrs.take(g.instrs.len() as int) =~= g.instrs) by {
                assert(g1.instrs.take(g.instrs.len() as int) == g.instrs);
                assert(g2.instrs.take(g1.instrs.len() as int) == g1.instrs);
            }
            lemma_run_append(en, s1, s2);
            lemma_run_append(en, s1 + s2, seq![new]);
            assert(seq![new].drop_last() =~= Seq::<InstrSpec>::empty());
            assert(run_instrs(e2, Seq::<InstrSpec>::empty()) == Ok::<EnvSpec, SimErr>(e2));
            assert(run_instrs(e2, seq![new]) == Ok::<EnvSpec, SimErr>(e3));
        },
        KernelExprV::Not(a) => {
            let (g1, x, tx) = compile_expr_spec(env, g, *a)->Ok_0;
            let g3 = emit(g1, tx, OpSpec::Not, seq![x]);
            assert(compile_expr_spec(env, g, e)->Ok_0 == (g3, fresh(g1), tx));
            lemma_compile_extends(env, g, *a);
            lemma_expr_runs(env, venv, g, *a, en);
            let e1 = run_instrs(en, g1.instrs.skip(g.instrs.len() as int))->Ok_0;
            let va = kernel_expr_value(venv, *a)->Some_0;
            let r = Seq::new(va.len(), |i: int| !va[i]);
            let new = InstrSpec { op: OpSpec::Not, inputs: seq![x], output: fresh(g1) };
            lemma_operands_of_lookups(e1, seq![x], seq![va]);
            let k = g1.wires.len() as int;
            let e3 = e1.update(k, Some(r));
            assert(crate::sim::interp::step_spec(e1, new) == Ok::<EnvSpec, SimErr>(e3));
            let s1 = g1.instrs.skip(g.instrs.len() as int);
            assert(g3.instrs.skip(g.instrs.len() as int) =~= s1 + seq![new]);
            assert(g3.instrs.take(g.instrs.len() as int) =~= g.instrs) by {
                assert(g1.instrs.take(g.instrs.len() as int) == g.instrs);
            }
            lemma_run_append(en, s1, seq![new]);
            assert(seq![new].drop_last() =~= Seq::<InstrSpec>::empty());
            assert(run_instrs(e1, Seq::<InstrSpec>::empty()) == Ok::<EnvSpec, SimErr>(e1));
            assert(run_instrs(e1, seq![new]) == Ok::<EnvSpec, SimErr>(e3));
        },
    }
}

/// Compiling `let` bindings only adds wires and instructions.
proof fn lemma_lets_extends(env: Seq<Binding>, g: GraphSpec, lets: Seq<(Seq<char>, KernelExprV)>)
    requires
        compile_lets_spec(env, g, lets) is Ok,
    ensures
        extends(g, compile_lets_spec(env, g, lets)->Ok_0.1),
    decreases lets.len(),
{
    if lets.len() == 0 {
        assert(g.instrs.take(g.instrs.len() as int) =~= g.instrs);
    } else {
        let (env1, g1) = compile_lets_spec(env, g, lets.drop_last())->Ok_0;
        lemma_lets_extends(env, g, lets.drop_last());
        lemma_compile_extends(env1, g1, lets.last().1);
        let g2 = compile_expr_spec(env1, g1, lets.last().1)->Ok_0.0;
        assert(g2.instrs.take(g.instrs.len() as int) =~= g.instrs) by {
            assert(g1.instrs.take(g.instrs.len() as int) == g.instrs);
            assert(g2.instrs.take(g1.instrs.len() as int) == g1.instrs);
        }
    }
}

/// Running the instructions the `let` bindings add binds each name to
/// its value: the scopes stay aligned, the wires already built stay as
/// they were.
proof fn lemma_lets_runs(
    env: Seq<Binding>,
    venv: Seq<(Seq<char>, Seq<bool>)>,
    g: GraphSpec,
    lets: Seq<(Seq<char>, KernelExprV)>,
    en: EnvSpec,
)
    requires
        aligned(env, venv, en, g.wires.len()),
        compile_lets_spec(env, g, lets) is Ok,
        compile_lets_spec(env, g, lets)->Ok_0.1.wires.len() <= en.len(),
        en.len() <= usize::MAX,
        lets_values(venv, lets) is Some,
    ensures
        ({
            let (env2, g2) = compile_lets_spec(env, g, lets)->Ok_0;
            &&& extends(g, g2)
            &&& run_instrs(en, g2.instrs.skip(g.instrs.len() as int)) matches Ok(e2) && agree_below(en, e2, g.wires.len())
                && aligned(env2, lets_values(venv, lets)->Some_0, e2, g2.wires.len())
        }),
    decreases lets.len(),
{
    lemma_lets_extends(env, g, lets);
    if lets.len() == 0 {
        assert(g.instrs.skip(g.instrs.len() as int) =~= Seq::<InstrSpec>::empty());
    } else {
        let lp = lets.drop_last();
        let (env1, g1) = compile_lets_spec(env, g, lp)->Ok_0;
        let venv1 = lets_values(venv, lp)->Some_0;
        let (name, ex) = lets.last();
        let (g2, w, t) = compile_expr_spec(env1, g1, ex)->Ok_0;
        let v = kernel_expr_value(venv1, ex)->Some_0;
        lemma_compile_extends(env1, g1, ex);
        lemma_lets_runs(env, venv, g, lp, en);
        let e1 = run_instrs(en, g1.instrs.skip(g.instrs.len() as int))->Ok_0;
        lemma_expr_runs(env1, venv1, g1, ex, e1);
        let e2 = run_instrs(e1, g2.instrs.skip(g1.instrs.len() as int))->Ok_0;
        let s1 = g1.instrs.skip(g.instrs.len() as int);
        let s2 = g2.instrs.skip(g1.instrs.len() as int);
        assert(g2.instrs.skip(g.instrs.len() as int) =~= s1 + s2) by {
            assert(g1.instrs.take(g.instrs.len() as int) == g.instrs);
            assert(g2.instrs.take(g1.instrs.len() as int) == g1.instrs);
        }
        lemma_run_append(en, s1, s2);
        lemma_aligned_keep(env1, venv1, e1, e2, g1.wires.len(), g2.wires.len());
        let env2 = env1.push((name, w, t));
        let venv2 = venv1.push((name, v));
        assert forall|i: int| 0 <= i < env2.len() implies (#[trigger] env2[i]).0 == venv2[i].0 && (env2[i].1.0 as nat)
            < g2.wires.len() && crate::sim::interp::lookup(e2, env2[i].1) == Some(venv2[i].1) by {
            if i < env1.len() {
                assert(env2[i] == env1[i]);
                assert(venv2[i] == venv1[i]);
            }
        }
        assert(agree_below(en, e2, g.wires.len()));
    }
}

/// A compiled kernel computes its expression: interpreting the circuit
/// [`kernel_spec`] builds on the parameters' values `vs` (one per
/// parameter, in order) outputs the kernel's value, each operation
/// applied to its left operand's value and then its right operand's.
/// It holds whenever that value is defined (no operands of different
/// widths) and the circuit's wires fit in a `usize`.
pub proof fn lemma_kernel_computes(
    ps: Seq<(Seq<char>, KernelTy)>,
    lets: Seq<(Seq<char>, KernelExprV)>,
    body: KernelExprV,
    vs: Seq<Seq<bool>>,
)
    requires
        vs.len() == ps.len(),
        kernel_spec(ps, lets, body) is Ok,
        kernel_spec(ps, lets, body)->Ok_0.graph.wires.len() <= usize::MAX,
        kernel_value(ps, lets, body, vs) is Some,
    ensures
        ({
            let a = kernel_spec(ps, lets, body)->Ok_0;
            interpret_spec(a.graph, a.inputs, vs) matches Ok(e) && operands(e, a.outputs) == Ok::<
                Seq<Seq<bool>>,
                SimErr,
            >(seq![kernel_value(ps, lets, body, vs)->Some_0])
        }),
{
    let n = ps.len();
    let g0 = param_graph(ps);
    let env0 = param_env(ps);
    let venv0 = Seq::new(n, |i: int| (ps[i].0, vs[i]));
    let (envl, gl) = compile_lets_spec(env0, g0, lets)->Ok_0;
    let (gb, w, t) = compile_expr_spec(envl, gl, body)->Ok_0;
    let a = kernel_spec(ps, lets, body)->Ok_0;
    assert(a.graph == gb);
    lemma_lets_extends(env0, g0, lets);
    lemma_compile_extends(envl, gl, body);
    let nf = gb.wires.len();
    let e0 = initial_env(nf, wire_ids(0, n), vs);
    assert(g0.wires.len() == n);
    assert forall|i: int| 0 <= i < env0.len() implies (#[trigger] env0[i]).0 == venv0[i].0 && (env0[i].1.0 as nat) < n
        && crate::sim::interp::lookup(e0, env0[i].1) == Some(venv0[i].1) by {
        lemma_first_value_ids(0, n, vs, i as nat);
    }
    let venvl = lets_values(venv0, lets)->Some_0;
    lemma_lets_runs(env0, venv0, g0, lets, e0);
    assert(gl.instrs.skip(0) =~= gl.instrs);
    let el = run_instrs(e0, gl.instrs)->Ok_0;
    lemma_expr_runs(envl, venvl, gl, body, el);
    let eb = run_instrs(el, gb.instrs.skip(gl.instrs.len() as int))->Ok_0;
    assert(gb.instrs =~= gl.instrs + gb.instrs.skip(gl.instrs.len() as int)) by {
        assert(gb.instrs.take(gl.instrs.len() as int) == gl.instrs);
    }
    lemma_run_append(e0, gl.instrs, gb.instrs.skip(gl.instrs.len() as int));
    lemma_operands_of_lookups(eb, seq![w], seq![kernel_value(ps, lets, body, vs)->Some_0]);
}

} // verus!
