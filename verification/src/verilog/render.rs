//! Render a Verilog [`Module`] to SystemVerilog text.

use vstd::prelude::*;

use crate::text::{decimal, push_decimal};
use crate::verilog::ast::{Expr, ExprV, Module, ModuleV, Port, PortDirection, PortV, Stmt, StmtV, ports_v, stmts_v};

verus! {

/// `prefix name` for scalars, `prefix [w-1:0] name` for buses.
pub open spec fn decl_head(prefix: Seq<char>, width: u32, name: Seq<char>) -> Seq<char> {
    if width <= 1 {
        prefix + " "@ + name
    } else {
        prefix + " ["@ + decimal((width - 1) as nat) + ":0] "@ + name
    }
}

/// The keyword of a port direction.
pub open spec fn dir_text(d: PortDirection) -> Seq<char> {
    match d {
        PortDirection::Input => "input"@,
        PortDirection::Output => "output"@,
        PortDirection::OutputReg => "output reg"@,
    }
}

/// A port declaration.
pub open spec fn port_text(p: PortV) -> Seq<char> {
    decl_head(dir_text(p.direction), p.width, p.name)
}

/// Port declarations joined by `,\n    `.
pub open spec fn ports_text(ps: Seq<PortV>) -> Seq<char>
    decreases ps.len(),
{
    if ps.len() == 0 {
        Seq::empty()
    } else if ps.len() == 1 {
        port_text(ps[0])
    } else {
        ports_text(ps.drop_last()) + ",\n    "@ + port_text(ps.last())
    }
}

/// `module name (` ... `);`.
pub open spec fn header_text(m: ModuleV) -> Seq<char> {
    "module "@ + m.name + " (\n"@ + (if m.ports.len() == 0 {
        Seq::empty()
    } else {
        "    "@ + ports_text(m.ports) + "\n"@
    }) + ");\n"@
}

/// The text of an expression.
pub open spec fn expr_text(e: ExprV) -> Seq<char>
    decreases e,
{
    match e {
        ExprV::Wire(n) => n,
        ExprV::Literal { width, value } => decimal(width as nat) + "'d"@ + decimal(value as nat),
        ExprV::Not(inner) => "~"@ + expr_text(*inner),
        ExprV::Binary { op, lhs, rhs } => "("@ + expr_text(*lhs) + " "@ + op + " "@ + expr_text(*rhs) + ")"@,
        ExprV::Mux { selector, false_arm, true_arm } => "("@ + expr_text(*selector) + " ? "@ + expr_text(*true_arm)
            + " : "@ + expr_text(*false_arm) + ")"@,
        ExprV::Concat { high, low } => "{"@ + expr_text(*high) + ", "@ + expr_text(*low) + "}"@,
        ExprV::Slice { source, lo, hi } => expr_text(*source) + "["@ + decimal(
            if hi > 0 {
                (hi - 1) as nat
            } else {
                0
            },
        ) + ":"@ + decimal(lo as nat) + "]"@,
        ExprV::ArrayIndex { array, index } => array + "["@ + decimal(index as nat) + "]"@,
        ExprV::ArrayDynIndex { array, index } => array + "["@ + expr_text(*index) + "]"@,
    }
}

/// The separator between the lines of a multi-line block.
pub open spec fn sep() -> Seq<char> {
    "\n    "@
}

/// The shift lines `array[i] <= array[i-1];` for `i` in `1..k`.
pub open spec fn shift_lines(array: Seq<char>, k: nat) -> Seq<char>
    decreases k,
{
    if k <= 1 {
        Seq::empty()
    } else {
        shift_lines(array, (k - 1) as nat) + sep() + "        "@ + array + "["@ + decimal((k - 1) as nat) + "] <= "@
            + array + "["@ + decimal((k - 2) as nat) + "];"@
    }
}

/// The reset loop over an array: every element gets the reset value.
pub open spec fn reset_loop(depth: usize, array: Seq<char>, rst: ExprV) -> Seq<char> {
    "        for (integer __i__ = 0; __i__ < "@ + decimal(depth as nat) + "; __i__ = __i__ + 1) "@ + array
        + "[__i__] <= "@ + expr_text(rst) + ";"@
}

/// The opening of a clocked block with a reset branch.
pub open spec fn block_head(clock: Seq<char>, reset: Seq<char>) -> Seq<char> {
    "always_ff @(posedge "@ + clock + ") begin"@ + sep() + "    if ("@ + reset + ") begin"@
}

/// The first update line of a shift register: the input enters element
/// 0.
pub open spec fn shift_first(array: Seq<char>, input: ExprV) -> Seq<char> {
    "    end else begin"@ + sep() + "        "@ + array + "[0] <= "@ + expr_text(input) + ";"@
}

/// The closing lines of a clocked block.
pub open spec fn block_end() -> Seq<char> {
    sep() + "    end"@ + sep() + "end"@
}

/// A shift-register array block.
pub open spec fn shift_text(clock: Seq<char>, reset: Seq<char>, array: Seq<char>, depth: usize, rst: ExprV, input: ExprV) -> Seq<char> {
    block_head(clock, reset) + sep() + reset_loop(depth, array, rst) + sep() + shift_first(array, input) + shift_lines(
        array,
        depth as nat,
    ) + block_end()
}

/// A `w'dv` literal as text.
pub open spec fn lit_text(width: u32, value: nat) -> Seq<char> {
    decimal(width as nat) + "'d"@ + decimal(value)
}

/// The opening of a circular-buffer block, through the pointer reset.
pub open spec fn circ_head(clock: Seq<char>, reset: Seq<char>, ptr: Seq<char>, ptr_width: u32) -> Seq<char> {
    "always_ff @(posedge "@ + clock + ") begin"@ + sep() + "    if ("@ + reset + ") begin"@ + sep() + "        "@ + ptr
        + " <= "@ + lit_text(ptr_width, 0) + ";"@
}

/// The pointer advance `ptr <= (ptr == last) ? 0 : ptr + 1;`.
pub open spec fn circ_advance(ptr: Seq<char>, ptr_width: u32, last: nat) -> Seq<char> {
    "        "@ + ptr + " <= ("@ + ptr + " == "@ + lit_text(ptr_width, last) + ") ? "@ + lit_text(ptr_width, 0) + " : "@
        + ptr + " + "@ + lit_text(ptr_width, 1) + ";"@
}

/// The update half of a circular-buffer block: write at the pointer,
/// advance it, close the block.
pub open spec fn circ_tail(array: Seq<char>, ptr: Seq<char>, ptr_width: u32, last: nat, input: ExprV) -> Seq<char> {
    "    end else begin"@ + sep() + "        "@ + array + "["@ + ptr + "] <= "@ + expr_text(input) + ";"@ + sep()
        + circ_advance(ptr, ptr_width, last) + sep() + "    end"@ + sep() + "end"@
}

/// A circular-buffer array block: reset clears the pointer and the
/// elements; otherwise the input is written at the pointer, which
/// advances modulo `depth`.
pub open spec fn circ_text(
    clock: Seq<char>,
    reset: Seq<char>,
    array: Seq<char>,
    depth: usize,
    ptr: Seq<char>,
    ptr_width: u32,
    rst: ExprV,
    input: ExprV,
) -> Seq<char> {
    let last: nat = if depth > 0 {
        (depth - 1) as nat
    } else {
        0
    };
    circ_head(clock, reset, ptr, ptr_width) + sep() + reset_loop(depth, array, rst) + sep() + circ_tail(
        array,
        ptr,
        ptr_width,
        last,
        input,
    )
}

/// `reg [w-1:0] name [0:depth-1];`.
pub open spec fn reg_array_text(name: Seq<char>, width: u32, depth: usize) -> Seq<char> {
    let last: nat = if depth > 0 {
        (depth - 1) as nat
    } else {
        0
    };
    if width <= 1 {
        "reg "@ + name + " [0:"@ + decimal(last) + "];"@
    } else {
        "reg ["@ + decimal((width - 1) as nat) + ":0] "@ + name + " [0:"@ + decimal(last) + "];"@
    }
}

/// The text of a statement.
#[verifier::opaque]
pub open spec fn stmt_text(s: StmtV) -> Seq<char> {
    match s {
        StmtV::WireDecl { name, width } => decl_head("wire"@, width, name) + ";"@,
        StmtV::RegDecl { name, width } => decl_head("reg"@, width, name) + ";"@,
        StmtV::Assign { lhs, rhs } => "assign "@ + lhs + " = "@ + expr_text(rhs) + ";"@,
        StmtV::AlwaysFf { clock, reset, reg, reset_value, next } => match reset {
            None => "always_ff @(posedge "@ + clock + ") "@ + reg + " <= "@ + expr_text(next) + ";"@,
            Some(rst) => "always_ff @(posedge "@ + clock + ") if ("@ + rst + ") "@ + reg + " <= "@ + expr_text(
                reset_value,
            ) + "; else "@ + reg + " <= "@ + expr_text(next) + ";"@,
        },
        StmtV::RegArrayDecl { name, width, depth } => reg_array_text(name, width, depth),
        StmtV::AlwaysArrayShift { clock, reset, array, depth, width, reset_value, input } => shift_text(
            clock,
            reset,
            array,
            depth,
            reset_value,
            input,
        ),
        StmtV::AlwaysArrayCircBuf { clock, reset, array, depth, width, ptr_name, ptr_width, reset_value, input } =>
            circ_text(clock, reset, array, depth, ptr_name, ptr_width, reset_value, input),
    }
}

/// A register update with a reset renders as: on the rising edge of
/// `clock`, if `rst` is high the register takes the reset value,
/// otherwise its next value.  The text is the head
/// `always_ff @(posedge <clock>) if (<rst>) `, then the assignment taken
/// under reset, `<reg> <= <reset value>;`, then the one taken
/// otherwise, ` else <reg> <= <next>;`.  Without a reset the register
/// always takes its next value.
pub proof fn lemma_always_ff_text(clock: Seq<char>, rst: Option<Seq<char>>, reg: Seq<char>, reset_value: ExprV, next: ExprV)
    ensures
        ({
            let t = stmt_text(StmtV::AlwaysFf { clock, reset: rst, reg, reset_value, next });
            let under_reset = reg + " <= "@ + expr_text(reset_value) + ";"@;
            let otherwise = reg + " <= "@ + expr_text(next) + ";"@;
            match rst {
                Some(r) => t == "always_ff @(posedge "@ + clock + ") if ("@ + r + ") "@ + under_reset + " else "@
                    + otherwise,
                None => t == "always_ff @(posedge "@ + clock + ") "@ + otherwise,
            }
        }),
{
    reveal(stmt_text);
    let under_reset = reg + " <= "@ + expr_text(reset_value) + ";"@;
    let otherwise = reg + " <= "@ + expr_text(next) + ";"@;
    match rst {
        Some(r) => {
            assert("always_ff @(posedge "@ + clock + ") if ("@ + r + ") "@ + reg + " <= "@ + expr_text(reset_value)
                + "; else "@ + reg + " <= "@ + expr_text(next) + ";"@ =~= "always_ff @(posedge "@ + clock + ") if ("@
                + r + ") "@ + under_reset + " else "@ + otherwise) by {
                reveal_strlit("; else ");
                reveal_strlit(";");
                reveal_strlit(" else ");
            }
        },
        None => {
            assert("always_ff @(posedge "@ + clock + ") "@ + reg + " <= "@ + expr_text(next) + ";"@ =~= "always_ff @(posedge "@
                + clock + ") "@ + otherwise);
        },
    }
}

/// The body lines: each statement indented and on its own line.
pub open spec fn body_text(ss: Seq<StmtV>) -> Seq<char>
    decreases ss.len(),
{
    if ss.len() == 0 {
        Seq::empty()
    } else {
        body_text(ss.drop_last()) + "    "@ + stmt_text(ss.last()) + "\n"@
    }
}

/// The text of a module.
pub open spec fn module_text(m: ModuleV) -> Seq<char> {
    header_text(m) + body_text(m.body) + "endmodule\n"@
}

fn push_decl_head(s: &mut String, prefix: &str, width: u32, name: &str)
    ensures
        final(s)@ == old(s)@ + decl_head(prefix@, width, name@),
{
    let ghost start = s@;
    s.append(prefix);
    if width <= 1 {
        s.append(" ");
    } else {
        s.append(" [");
        push_decimal(s, (width - 1) as u128);
        s.append(":0] ");
    }
    s.append(name);
    proof {
        assert(s@ =~= start + decl_head(prefix@, width, name@));
    }
}

fn push_port(s: &mut String, p: &Port)
    ensures
        final(s)@ == old(s)@ + port_text(p@),
{
    let dir = match p.direction() {
        PortDirection::Input => "input",
        PortDirection::Output => "output",
        PortDirection::OutputReg => "output reg",
    };
    push_decl_head(s, dir, p.width(), p.name());
}

/// The text of an expression.
pub fn render_expr(e: &Expr) -> (r: String)
    ensures
        r@ == expr_text(e@),
{
    let mut s = String::new();
    push_expr(&mut s, e);
    proof {
        assert(s@ =~= expr_text(e@));
    }
    s
}

fn push_expr(s: &mut String, e: &Expr)
    ensures
        final(s)@ == old(s)@ + expr_text(e@),
    decreases e,
{
    let ghost start = s@;
    match e {
        Expr::Wire(n) => {
            s.append(n.as_str());
        },
        Expr::Literal { width, value } => {
            push_decimal(s, *width as u128);
            s.append("'d");
            push_decimal(s, *value);
        },
        Expr::Not(inner) => {
            s.append("~");
            push_expr(s, inner);
        },
        Expr::Binary { op, lhs, rhs } => {
            s.append("(");
            push_expr(s, lhs);
            s.append(" ");
            s.append(op);
            s.append(" ");
            push_expr(s, rhs);
            s.append(")");
        },
        Expr::Mux { selector, false_arm, true_arm } => {
            s.append("(");
            push_expr(s, selector);
            s.append(" ? ");
            push_expr(s, true_arm);
            s.append(" : ");
            push_expr(s, false_arm);
            s.append(")");
        },
        Expr::Concat { high, low } => {
            s.append("{");
            push_expr(s, high);
            s.append(", ");
            push_expr(s, low);
            s.append("}");
        },
        Expr::Slice { source, lo, hi } => {
            push_expr(s, source);
            s.append("[");
            let h: u32 = if *hi > 0 { *hi - 1 } else { 0 };
            push_decimal(s, h as u128);
            s.append(":");
            push_decimal(s, *lo as u128);
            s.append("]");
        },
        Expr::ArrayIndex { array, index } => {
            s.append(array.as_str());
            s.append("[");
            push_decimal(s, *index as u128);
            s.append("]");
        },
        Expr::ArrayDynIndex { array, index } => {
            s.append(array.as_str());
            s.append("[");
            push_expr(s, index);
            s.append("]");
        },
    }
    proof {
        assert(s@ =~= start + expr_text(e@));
    }
}

fn push_lit(s: &mut String, width: u32, value: usize)
    ensures
        final(s)@ == old(s)@ + lit_text(width, value as nat),
{
    let ghost start = s@;
    push_decimal(s, width as u128);
    s.append("'d");
    push_decimal(s, value as u128);
    proof {
        assert(s@ =~= start + lit_text(width, value as nat));
    }
}

fn push_reset_loop(s: &mut String, depth: usize, array: &str, rst: &Expr)
    ensures
        final(s)@ == old(s)@ + reset_loop(depth, array@, rst@),
{
    let ghost start = s@;
    s.append("        for (integer __i__ = 0; __i__ < ");
    push_decimal(s, depth as u128);
    s.append("; __i__ = __i__ + 1) ");
    s.append(array);
    s.append("[__i__] <= ");
    push_expr(s, rst);
    s.append(";");
    proof {
        assert(s@ =~= start + reset_loop(depth, array@, rst@));
    }
}

fn push_block_head(s: &mut String, clock: &str, reset: &str)
    ensures
        final(s)@ == old(s)@ + block_head(clock@, reset@),
{
    let ghost start = s@;
    s.append("always_ff @(posedge ");
    s.append(clock);
    s.append(") begin");
    s.append("\n    ");
    s.append("    if (");
    s.append(reset);
    s.append(") begin");
    proof {
        assert(s@ =~= start + block_head(clock@, reset@));
    }
}

fn push_shift_lines(s: &mut String, array: &str, depth: usize)
    ensures
        final(s)@ == old(s)@ + shift_lines(array@, depth as nat),
{
    let ghost mid = s@;
    let n: usize = if depth < 1 { 1 } else { depth };
    let mut k: usize = 1;
    proof {
        assert(s@ =~= mid + shift_lines(array@, 1));
    }
    while k < n
        invariant
            1 <= k <= n,
            s@ == mid + shift_lines(array@, k as nat),
        decreases n - k,
    {
        s.append("\n    ");
        s.append("        ");
        s.append(array);
        s.append("[");
        push_decimal(s, k as u128);
        s.append("] <= ");
        s.append(array);
        s.append("[");
        push_decimal(s, (k - 1) as u128);
        s.append("];");
        proof {
            assert(s@ =~= mid + shift_lines(array@, (k + 1) as nat));
        }
        k = k + 1;
    }
    proof {
        assert(shift_lines(array@, n as nat) == shift_lines(array@, depth as nat));
    }
}

fn push_shift_first(s: &mut String, array: &str, input: &Expr)
    ensures
        final(s)@ == old(s)@ + shift_first(array@, input@),
{
    let ghost a = s@;
    s.append("    end else begin");
    s.append("\n    ");
    s.append("        ");
    s.append(array);
    s.append("[0] <= ");
    push_expr(s, input);
    s.append(";");
    proof {
        assert(s@ =~= a + shift_first(array@, input@));
    }
}

fn push_block_end(s: &mut String)
    ensures
        final(s)@ == old(s)@ + block_end(),
{
    let ghost a = s@;
    s.append("\n    ");
    s.append("    end");
    s.append("\n    ");
    s.append("end");
    proof {
        assert(s@ =~= a + block_end());
    }
}

fn push_shift(s: &mut String, clock: &str, reset: &str, array: &str, depth: usize, rst: &Expr, input: &Expr)
    ensures
        final(s)@ == old(s)@ + shift_text(clock@, reset@, array@, depth, rst@, input@),
{
    let ghost start = s@;
    push_block_head(s, clock, reset);
    let ghost s1 = s@;
    s.append("\n    ");
    push_reset_loop(s, depth, array, rst);
    let ghost s2 = s@;
    s.append("\n    ");
    push_shift_first(s, array, input);
    let ghost s3 = s@;
    push_shift_lines(s, array, depth);
    let ghost s4 = s@;
    push_block_end(s);
    proof {
        assert(s@ =~= start + shift_text(clock@, reset@, array@, depth, rst@, input@));
    }
}

fn push_circ_head(s: &mut String, clock: &str, reset: &str, ptr: &str, ptr_width: u32)
    ensures
        final(s)@ == old(s)@ + circ_head(clock@, reset@, ptr@, ptr_width),
{
    let ghost start = s@;
    s.append("always_ff @(posedge ");
    s.append(clock);
    s.append(") begin");
    s.append("\n    ");
    s.append("    if (");
    s.append(reset);
    s.append(") begin");
    s.append("\n    ");
    s.append("        ");
    s.append(ptr);
    s.append(" <= ");
    push_lit(s, ptr_width, 0);
    s.append(";");
    proof {
        assert(s@ =~= start + circ_head(clock@, reset@, ptr@, ptr_width));
    }
}

fn push_circ_advance(s: &mut String, ptr: &str, ptr_width: u32, last: usize)
    ensures
        final(s)@ == old(s)@ + circ_advance(ptr@, ptr_width, last as nat),
{
    let ghost start = s@;
    s.append("        ");
    s.append(ptr);
    s.append(" <= (");
    s.append(ptr);
    s.append(" == ");
    push_lit(s, ptr_width, last);
    s.append(") ? ");
    push_lit(s, ptr_width, 0);
    s.append(" : ");
    s.append(ptr);
    s.append(" + ");
    push_lit(s, ptr_width, 1);
    s.append(";");
    proof {
        assert(s@ =~= start + circ_advance(ptr@, ptr_width, last as nat));
    }
}

fn push_circ_tail(s: &mut String, array: &str, ptr: &str, ptr_width: u32, last: usize, input: &Expr)
    ensures
        final(s)@ == old(s)@ + circ_tail(array@, ptr@, ptr_width, last as nat, input@),
{
    let ghost start = s@;
    s.append("    end else begin");
    s.append("\n    ");
    s.append("        ");
    s.append(array);
    s.append("[");
    s.append(ptr);
    s.append("] <= ");
    push_expr(s, input);
    s.append(";");
    s.append("\n    ");
    push_circ_advance(s, ptr, ptr_width, last);
    s.append("\n    ");
    s.append("    end");
    s.append("\n    ");
    s.append("end");
    proof {
        assert(s@ =~= start + circ_tail(array@, ptr@, ptr_width, last as nat, input@));
    }
}

fn push_circ(
    s: &mut String,
    clock: &str,
    reset: &str,
    array: &str,
    depth: usize,
    ptr: &str,
    ptr_width: u32,
    rst: &Expr,
    input: &Expr,
)
    ensures
        final(s)@ == old(s)@ + circ_text(clock@, reset@, array@, depth, ptr@, ptr_width, rst@, input@),
{
    let ghost start = s@;
    let last: usize = if depth > 0 { depth - 1 } else { 0 };
    push_circ_head(s, clock, reset, ptr, ptr_width);
    s.append("\n    ");
    push_reset_loop(s, depth, array, rst);
    s.append("\n    ");
    push_circ_tail(s, array, ptr, ptr_width, last, input);
    proof {
        assert(s@ =~= start + circ_text(clock@, reset@, array@, depth, ptr@, ptr_width, rst@, input@));
    }
}

fn push_stmt(s: &mut String, st: &Stmt)
    ensures
        final(s)@ == old(s)@ + stmt_text(st@),
{
    reveal(stmt_text);
    let ghost start = s@;
    match st {
        Stmt::WireDecl { name, width } => {
            push_decl_head(s, "wire", *width, name.as_str());
            s.append(";");
        },
        Stmt::RegDecl { name, width } => {
            push_decl_head(s, "reg", *width, name.as_str());
            s.append(";");
        },
        Stmt::Assign { lhs, rhs } => {
            s.append("assign ");
            s.append(lhs.as_str());
            s.append(" = ");
            push_expr(s, rhs);
            s.append(";");
        },
        Stmt::AlwaysFf { clock, reset, reg, reset_value, next } => {
            s.append("always_ff @(posedge ");
            s.append(clock.as_str());
            match reset {
                None => {
                    s.append(") ");
                    s.append(reg.as_str());
                    s.append(" <= ");
                    push_expr(s, next);
                    s.append(";");
                },
                Some(rst) => {
                    s.append(") if (");
                    s.append(rst.as_str());
                    s.append(") ");
                    s.append(reg.as_str());
                    s.append(" <= ");
                    push_expr(s, reset_value);
                    s.append("; else ");
                    s.append(reg.as_str());
                    s.append(" <= ");
                    push_expr(s, next);
                    s.append(";");
                },
            }
        },
        Stmt::RegArrayDecl { name, width, depth } => {
            let last: usize = if *depth > 0 { *depth - 1 } else { 0 };
            if *width <= 1 {
                s.append("reg ");
            } else {
                s.append("reg [");
                push_decimal(s, (*width - 1) as u128);
                s.append(":0] ");
            }
            s.append(name.as_str());
            s.append(" [0:");
            push_decimal(s, last as u128);
            s.append("];");
        },
        Stmt::AlwaysArrayShift { clock, reset, array, depth, width: _, reset_value, input } => {
            push_shift(s, clock.as_str(), reset.as_str(), array.as_str(), *depth, reset_value, input);
        },
        Stmt::AlwaysArrayCircBuf { clock, reset, array, depth, width: _, ptr_name, ptr_width, reset_value, input } => {
            push_circ(
                s,
                clock.as_str(),
                reset.as_str(),
                array.as_str(),
                *depth,
                ptr_name.as_str(),
                *ptr_width,
                reset_value,
                input,
            );
        },
    }
    proof {
        assert(s@ =~= start + stmt_text(st@));
    }
}

/// The text of a module: header with the port list, one indented line
/// per statement, `endmodule`.
pub fn render_module(m: &Module) -> (r: String)
    ensures
        r@ == module_text(m@),
{
    let mut s = String::new();
    s.append("module ");
    s.append(m.name());
    s.append(" (\n");
    let ports = m.ports();
    if ports.len() > 0 {
        s.append("    ");
        let ghost head = s@;
        let mut i: usize = 0;
        proof {
            assert(ports_v(ports@).take(0) =~= Seq::<PortV>::empty());
        }
        while i < ports.len()
            invariant
                i <= ports@.len(),
                s@ == head + ports_text(ports_v(ports@).take(i as int)),
            decreases ports@.len() - i,
        {
            let ghost before = s@;
            if i > 0 {
                s.append(",\n    ");
            }
            push_port(&mut s, &ports[i]);
            proof {
                let t = ports_v(ports@).take(i + 1);
                assert(t.drop_last() =~= ports_v(ports@).take(i as int));
                assert(t.last() == ports@[i as int]@);
                if i == 0 {
                    assert(t[0] == ports@[0]@);
                }
            }
            i = i + 1;
        }
        proof {
            assert(ports_v(ports@).take(i as int) =~= ports_v(ports@));
        }
        s.append("\n");
    }
    s.append(");\n");
    let ghost hdr = s@;
    proof {
        assert(hdr =~= header_text(m@));
    }
    let body = m.body();
    let mut j: usize = 0;
    proof {
        assert(stmts_v(body@).take(0) =~= Seq::<StmtV>::empty());
        assert(s@ =~= hdr + body_text(stmts_v(body@).take(0)));
    }
    while j < body.len()
        invariant
            j <= body@.len(),
            s@ == hdr + body_text(stmts_v(body@).take(j as int)),
        decreases body@.len() - j,
    {
        let ghost before = s@;
        s.append("    ");
        push_stmt(&mut s, &body[j]);
        s.append("\n");
        proof {
            assert(s@ =~= before + "    "@ + stmt_text(body@[j as int]@) + "\n"@);
            let t = stmts_v(body@).take(j + 1);
            assert(t.drop_last() =~= stmts_v(body@).take(j as int));
            assert(t.last() == body@[j as int]@);
        }
        j = j + 1;
    }
    proof {
        assert(stmts_v(body@).take(j as int) =~= stmts_v(body@));
    }
    s.append("endmodule\n");
    proof {
        assert(s@ =~= module_text(m@));
    }
    s
}

} // verus!
