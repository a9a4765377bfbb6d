//! Render a Circom [`Template`] to a self-contained `circom 2.0.0`
//! file.

use vstd::prelude::*;
use vstd::arithmetic::power2::pow2;

use crate::arith::lemma_shl_one;
use crate::circom::ast::{
    Expr, ExprV, Signal, SignalDir, SignalV, Stmt, StmtV, Template, TemplateV, expr_v, exprs_v, lemma_exprs_v_index,
    signals_v, stmts_v, strings_v,
};
use crate::text::{decimal, push_decimal};

verus! {

/// The coefficient of term `i` of a bits-to-number sum: `2^i`, or `0`
/// once `2^i` no longer fits in 128 bits.
pub open spec fn coef(i: nat) -> nat {
    if i < 128 {
        pow2(i)
    } else {
        0
    }
}

/// The multiplier written before term `i`: nothing, `2*`, or `c*`.
pub open spec fn coef_prefix(i: nat) -> Seq<char> {
    if i == 0 {
        Seq::empty()
    } else if i == 1 {
        "2*"@
    } else {
        decimal(coef(i)) + "*"@
    }
}

/// The text of an expression.
pub open spec fn expr_text(e: ExprV) -> Seq<char>
    decreases e,
{
    match e {
        ExprV::Bit { sig, index } => sig + "["@ + decimal(index as nat) + "]"@,
        ExprV::BitLiteral(b) => if b {
            "1"@
        } else {
            "0"@
        },
        ExprV::FieldLiteral(v) => decimal(v as nat),
        ExprV::Bits2Num(bits) => "("@ + terms_text(bits) + ")"@,
        ExprV::Neg(inner) => "-"@ + expr_text(*inner),
        ExprV::Add(a, b) => "("@ + expr_text(*a) + " + "@ + expr_text(*b) + ")"@,
        ExprV::Sub(a, b) => "("@ + expr_text(*a) + " - "@ + expr_text(*b) + ")"@,
        ExprV::Mul(a, b) => "("@ + expr_text(*a) + " * "@ + expr_text(*b) + ")"@,
        ExprV::CompOutBit { comp, port, index } => comp + "."@ + port + "["@ + decimal(index as nat) + "]"@,
        ExprV::CompOutField { comp, port } => comp + "."@ + port,
    }
}

/// The terms `b0 + 2*b1 + 4*b2 + ...` of a bits-to-number sum.
pub open spec fn terms_text(bits: Seq<ExprV>) -> Seq<char>
    decreases bits,
{
    if bits.len() == 0 {
        Seq::empty()
    } else {
        let n = bits.len() - 1;
        let t = coef_prefix(n as nat) + expr_text(bits[n]);
        if n == 0 {
            t
        } else {
            terms_text(bits.subrange(0, n)) + " + "@ + t
        }
    }
}

/// The keyword(s) of a signal direction.
pub open spec fn dir_text(d: SignalDir) -> Seq<char> {
    match d {
        SignalDir::Input => "signal input"@,
        SignalDir::Output => "signal output"@,
        SignalDir::Intermediate => "signal"@,
    }
}

/// `signal input name[width];`.
pub open spec fn signal_text(s: SignalV) -> Seq<char> {
    dir_text(s.dir) + " "@ + s.name + "["@ + decimal(s.width as nat) + "];"@
}

/// Template arguments joined by `, `.
pub open spec fn args_text(args: Seq<u32>) -> Seq<char>
    decreases args.len(),
{
    if args.len() == 0 {
        Seq::empty()
    } else if args.len() == 1 {
        decimal(args[0] as nat)
    } else {
        args_text(args.drop_last()) + ", "@ + decimal(args.last() as nat)
    }
}

/// `[i]` for an indexed target, nothing for a scalar one.
pub open spec fn index_text(index: Option<u32>) -> Seq<char> {
    match index {
        Some(i) => "["@ + decimal(i as nat) + "]"@,
        None => Seq::empty(),
    }
}

/// The text of a statement.
#[verifier::opaque]
pub open spec fn stmt_text(s: StmtV) -> Seq<char> {
    match s {
        StmtV::SignalDecl(sig) => signal_text(sig),
        StmtV::Component { name, template, args } => "component "@ + name + " = "@ + template + "("@ + args_text(args)
            + ");"@,
        StmtV::ComponentDrive { comp, port, index, rhs } => comp + "."@ + port + index_text(index) + " <== "@
            + expr_text(rhs) + ";"@,
        StmtV::Assign { lhs, index, rhs } => lhs + index_text(index) + " <== "@ + expr_text(rhs) + ";"@,
        StmtV::Constraint(e) => expr_text(e) + " === 0;"@,
    }
}

/// One `include "path";` line per path.
pub open spec fn includes_text(incs: Seq<Seq<char>>) -> Seq<char>
    decreases incs.len(),
{
    if incs.len() == 0 {
        Seq::empty()
    } else {
        includes_text(incs.drop_last()) + "include \""@ + incs.last() + "\";\n"@
    }
}

/// One indented declaration line per signal.
pub open spec fn signal_lines(sigs: Seq<SignalV>) -> Seq<char>
    decreases sigs.len(),
{
    if sigs.len() == 0 {
        Seq::empty()
    } else {
        signal_lines(sigs.drop_last()) + "    "@ + signal_text(sigs.last()) + "\n"@
    }
}

/// One indented line per statement.
pub open spec fn stmt_lines(ss: Seq<StmtV>) -> Seq<char>
    decreases ss.len(),
{
    if ss.len() == 0 {
        Seq::empty()
    } else {
        stmt_lines(ss.drop_last()) + "    "@ + stmt_text(ss.last()) + "\n"@
    }
}

/// Names joined by `, `.
pub open spec fn names_text(ns: Seq<Seq<char>>) -> Seq<char>
    decreases ns.len(),
{
    if ns.len() == 0 {
        Seq::empty()
    } else if ns.len() == 1 {
        ns[0]
    } else {
        names_text(ns.drop_last()) + ", "@ + ns.last()
    }
}

/// The `component main` line, with a `public [...]` clause when there
/// are public inputs.
pub open spec fn main_text(name: Seq<char>, publics: Seq<Seq<char>>) -> Seq<char> {
    if publics.len() == 0 {
        "component main = "@ + name + "();\n"@
    } else {
        "component main { public ["@ + names_text(publics) + "] } = "@ + name + "();\n"@
    }
}

/// A blank line when `nonempty`.
pub open spec fn gap(nonempty: bool) -> Seq<char> {
    if nonempty {
        "\n"@
    } else {
        Seq::empty()
    }
}

/// The whole file: pragma, includes, template body, `component main`.
pub open spec fn template_text(t: TemplateV) -> Seq<char> {
    "pragma circom 2.0.0;\n"@ + includes_text(t.includes) + gap(t.includes.len() > 0) + "template "@ + t.name
        + "() {\n"@ + signal_lines(t.ports) + gap(t.intermediates.len() > 0) + signal_lines(t.intermediates) + gap(
        t.body.len() > 0,
    ) + stmt_lines(t.body) + "}\n\n"@ + main_text(t.name, t.public_inputs)
}

/// The text of an expression.
pub fn render_expr(e: &Expr) -> (r: String)
    ensures
        r@ == expr_text(e@),
{
    let mut s = String::new();
    push_expr(&mut s, e);
    proof {
        assert(s@ =~= expr_text(e@));
    }
    s
}

fn push_coef_prefix(s: &mut String, i: usize)
    ensures
        final(s)@ == old(s)@ + coef_prefix(i as nat),
{
    let ghost start = s@;
    if i == 0 {
    } else if i == 1 {
        s.append("2*");
    } else {
        if i < 128 {
            let c: u128 = 1u128 << (i as u128);
            proof {
                lemma_shl_one(i as u128);
            }
            push_decimal(s, c);
        } else {
            push_decimal(s, 0);
        }
        s.append("*");
    }
    proof {
        assert(s@ =~= start + coef_prefix(i as nat));
    }
}

fn push_expr(s: &mut String, e: &Expr)
    ensures
        final(s)@ == old(s)@ + expr_text(e@),
    decreases e,
{
    let ghost start = s@;
    match e {
        Expr::Bit { sig, index } => {
            s.append(sig.as_str());
            s.append("[");
            push_decimal(s, *index as u128);
            s.append("]");
        },
        Expr::BitLiteral(b) => {
            if *b {
                s.append("1");
            } else {
                s.append("0");
            }
        },
        Expr::FieldLiteral(v) => {
            push_decimal(s, *v);
        },
        Expr::Bits2Num(bits) => {
            s.append("(");
            let ghost head = s@;
            let ghost bv = exprs_v(bits@);
            proof {
                lemma_exprs_v_index(bits@);
                assert(bv.take(0) =~= Seq::<ExprV>::empty());
            }
            let mut i: usize = 0;
            while i < bits.len()
                invariant
                    i <= bits@.len(),
                    *e == Expr::Bits2Num(*bits),
                    bv == exprs_v(bits@),
                    bv.len() == bits@.len(),
                    forall|k: int| 0 <= k < bits@.len() ==> #[trigger] bv[k] == expr_v(bits@[k]),
                    s@ == head + terms_text(bv.take(i as int)),
                decreases bits@.len() - i,
            {
                proof {
                    assert(decreases_to!(bits@ => bits@[i as int]));
                    assert(decreases_to!(*bits => bits@));
                    assert(decreases_to!(*e => (*e)->Bits2Num_0));
                }
                if i > 0 {
                    s.append(" + ");
                }
                push_coef_prefix(s, i);
                push_expr(s, &bits[i]);
                proof {
                    let t = bv.take(i + 1);
                    assert(t.subrange(0, i as int) =~= bv.take(i as int));
                    assert(t[i as int] == expr_v(bits@[i as int]));
                }
                i = i + 1;
            }
            proof {
                assert(bv.take(i as int) =~= bv);
            }
            s.append(")");
        },
        Expr::Neg(inner) => {
            s.append("-");
            push_expr(s, inner);
        },
        Expr::Add(a, b) => {
            s.append("(");
            push_expr(s, a);
            s.append(" + ");
            push_expr(s, b);
            s.append(")");
        },
        Expr::Sub(a, b) => {
            s.append("(");
            push_expr(s, a);
            s.append(" - ");
            push_expr(s, b);
            s.append(")");
        },
        Expr::Mul(a, b) => {
            s.append("(");
            push_expr(s, a);
            s.append(" * ");
            push_expr(s, b);
            s.append(")");
        },
        Expr::CompOutBit { comp, port, index } => {
            s.append(comp.as_str());
            s.append(".");
            s.append(port.as_str());
            s.append("[");
            push_decimal(s, *index as u128);
            s.append("]");
        },
        Expr::CompOutField { comp, port } => {
            s.append(comp.as_str());
            s.append(".");
            s.append(port.as_str());
        },
    }
    proof {
        assert(s@ =~= start + expr_text(e@));
    }
}

fn push_signal(s: &mut String, sig: &Signal)
    ensures
        final(s)@ == old(s)@ + signal_text(sig@),
{
    let ghost start = s@;
    match sig.dir() {
        SignalDir::Input => s.append("signal input"),
        SignalDir::Output => s.append("signal output"),
        SignalDir::Intermediate => s.append("signal"),
    }
    s.append(" ");
    s.append(sig.name());
    s.append("[");
    push_decimal(s, sig.width() as u128);
    s.append("];");
    proof {
        assert(s@ =~= start + signal_text(sig@));
    }
}

fn push_index(s: &mut String, index: Option<u32>)
    ensures
        final(s)@ == old(s)@ + index_text(index),
{
    let ghost start = s@;
    match index {
        Some(i) => {
            s.append("[");
            push_decimal(s, i as u128);
            s.append("]");
        },
        None => {},
    }
    proof {
        assert(s@ =~= start + index_text(index));
    }
}

fn push_args(s: &mut String, args: &[u32])
    ensures
        final(s)@ == old(s)@ + args_text(args@),
{
    let ghost head = s@;
    let mut i: usize = 0;
    proof {
        assert(args@.take(0) =~= Seq::<u32>::empty());
    }
    while i < args.len()
        invariant
            i <= args@.len(),
            s@ == head + args_text(args@.take(i as int)),
        decreases args@.len() - i,
    {
        if i > 0 {
            s.append(", ");
        }
        push_decimal(s, args[i] as u128);
        proof {
            let t = args@.take(i + 1);
            assert(t.drop_last() =~= args@.take(i as int));
            assert(t.last() == args@[i as int]);
            if i == 0 {
                assert(t[0] == args@[0]);
            }
        }
        i = i + 1;
    }
    proof {
        assert(args@.take(i as int) =~= args@);
    }
}

fn push_stmt(s: &mut String, st: &Stmt)
    ensures
        final(s)@ == old(s)@ + stmt_text(st@),
{
    reveal(stmt_text);
    let ghost start = s@;
    match st {
        Stmt::SignalDecl(sig) => {
            push_signal(s, sig);
        },
        Stmt::Component { name, template, args } => {
            s.append("component ");
            s.append(name.as_str());
            s.append(" = ");
            s.append(template.as_str());
            s.append("(");
            push_args(s, args.as_slice());
            s.append(");");
        },
        Stmt::ComponentDrive { comp, port, index, rhs } => {
            s.append(comp.as_str());
            s.append(".");
            s.append(port.as_str());
            push_index(s, *index);
            s.append(" <== ");
            push_expr(s, rhs);
            s.append(";");
        },
        Stmt::Assign { lhs, index, rhs } => {
            s.append(lhs.as_str());
            push_index(s, *index);
            s.append(" <== ");
            push_expr(s, rhs);
            s.append(";");
        },
        Stmt::Constraint(e) => {
            push_expr(s, e);
            s.append(" === 0;");
        },
    }
    proof {
        assert(s@ =~= start + stmt_text(st@));
    }
}

fn push_includes(s: &mut String, incs: &[String])
    ensures
        final(s)@ == old(s)@ + includes_text(strings_v(incs@)),
{
    let ghost head = s@;
    let ghost v = strings_v(incs@);
    let mut i: usize = 0;
    proof {
        assert(v.take(0) =~= Seq::<Seq<char>>::empty());
    }
    while i < incs.len()
        invariant
            i <= incs@.len(),
            v == strings_v(incs@),
            s@ == head + includes_text(v.take(i as int)),
        decreases incs@.len() - i,
    {
        s.append("include \"");
        s.append(incs[i].as_str());
        s.append("\";\n");
        proof {
            let t = v.take(i + 1);
            assert(t.drop_last() =~= v.take(i as int));
            assert(t.last() == incs@[i as int]@);
        }
        i = i + 1;
    }
    proof {
        assert(v.take(i as int) =~= v);
    }
}

fn push_signal_lines(s: &mut String, sigs: &[Signal])
    ensures
        final(s)@ == old(s)@ + signal_lines(signals_v(sigs@)),
{
    let ghost head = s@;
    let ghost v = signals_v(sigs@);
    let mut i: usize = 0;
    proof {
        assert(v.take(0) =~= Seq::<SignalV>::empty());
    }
    while i < sigs.len()
        invariant
            i <= sigs@.len(),
            v == signals_v(sigs@),
            s@ == head + signal_lines(v.take(i as int)),
        decreases sigs@.len() - i,
    {
        s.append("    ");
        push_signal(s, &sigs[i]);
        s.append("\n");
        proof {
            let t = v.take(i + 1);
            assert(t.drop_last() =~= v.take(i as int));
            assert(t.last() == sigs@[i as int]@);
        }
        i = i + 1;
    }
    proof {
        assert(v.take(i as int) =~= v);
    }
}

fn push_stmt_lines(s: &mut String, ss: &[Stmt])
    ensures
        final(s)@ == old(s)@ + stmt_lines(stmts_v(ss@)),
{
    let ghost head = s@;
    let ghost v = stmts_v(ss@);
    let mut i: usize = 0;
    proof {
        assert(v.take(0) =~= Seq::<StmtV>::empty());
    }
    while i < ss.len()
        invariant
            i <= ss@.len(),
            v == stmts_v(ss@),
            s@ == head + stmt_lines(v.take(i as int)),
        decreases ss@.len() - i,
    {
        s.append("    ");
        push_stmt(s, &ss[i]);
        s.append("\n");
        proof {
            let t = v.take(i + 1);
            assert(t.drop_last() =~= v.take(i as int));
            assert(t.last() == ss@[i as int]@);
        }
        i = i + 1;
    }
    proof {
        assert(v.take(i as int) =~= v);
    }
}

fn push_names(s: &mut String, ns: &[String])
    ensures
        final(s)@ == old(s)@ + names_text(strings_v(ns@)),
{
    let ghost head = s@;
    let ghost v = strings_v(ns@);
    let mut i: usize = 0;
    proof {
        assert(v.take(0) =~= Seq::<Seq<char>>::empty());
    }
    while i < ns.len()
        invariant
            i <= ns@.len(),
            v == strings_v(ns@),
            s@ == head + names_text(v.take(i as int)),
        decreases ns@.len() - i,
    {
        if i > 0 {
            s.append(", ");
        }
        s.append(ns[i].as_str());
        proof {
            let t = v.take(i + 1);
            assert(t.drop_last() =~= v.take(i as int));
            assert(t.last() == ns@[i as int]@);
            if i == 0 {
                assert(t[0] == ns@[0]@);
            }
        }
        i = i + 1;
    }
    proof {
        assert(v.take(i as int) =~= v);
    }
}

fn push_main(s: &mut String, name: &str, publics: &[String])
    ensures
        final(s)@ == old(s)@ + main_text(name@, strings_v(publics@)),
{
    let ghost start = s@;
    if publics.len() == 0 {
        s.append("component main = ");
    } else {
        s.append("component main { public [");
        push_names(s, publics);
        s.append("] } = ");
    }
    s.append(name);
    s.append("();\n");
    proof {
        assert(s@ =~= start + main_text(name@, strings_v(publics@)));
    }
}

/// The text of a template: the pragma, one `include` line per path,
/// the template with its port, intermediate and body lines, and the
/// `component main` instantiation.
pub fn render_template(t: &Template) -> (r: String)
    ensures
        r@ == template_text(t@),
{
    let mut s = String::new();
    s.append("pragma circom 2.0.0;\n");
    let ghost s0 = s@;
    push_includes(&mut s, t.includes());
    let ghost s1 = s@;
    if t.includes().len() > 0 {
        s.append("\n");
    }
    let ghost s2 = s@;
    s.append("template ");
    s.append(t.name());
    s.append("() {\n");
    let ghost s3 = s@;
    push_signal_lines(&mut s, t.ports());
    let ghost s4 = s@;
    if t.intermediates().len() > 0 {
        s.append("\n");
    }
    push_signal_lines(&mut s, t.intermediates());
    let ghost s5 = s@;
    if t.body().len() > 0 {
        s.append("\n");
    }
    push_stmt_lines(&mut s, t.body());
    let ghost s6 = s@;
    s.append("}\n\n");
    push_main(&mut s, t.name(), t.public_inputs());
    proof {
        assert(s@ =~= template_text(t@));
    }
    s
}

} // verus!
