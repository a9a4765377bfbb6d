//! A small Verilog abstract syntax: ports, expressions, statements and
//! modules, each with a mathematical view.

use vstd::prelude::*;

use comp_cat_rs::effect::io::Io;

use crate::deferred::{deferred_text, yielded_text};
use crate::error::Error;

verus! {

/// The direction of a module port.
#[derive(Clone, Copy, Debug, PartialEq, Eq, Structural)]
pub enum PortDirection {
    /// `input`.
    Input,
    /// `output`.
    Output,
    /// `output reg`.
    OutputReg,
}

/// The mathematical content of a [`Port`].
pub ghost struct PortV {
    pub name: Seq<char>,
    pub direction: PortDirection,
    pub width: u32,
}

/// A module port: name, direction and bit width.
#[derive(Clone, Debug, PartialEq, Eq)]
pub struct Port {
    name: String,
    direction: PortDirection,
    width: u32,
}

impl View for Port {
    type V = PortV;

    closed spec fn view(&self) -> PortV {
        PortV { name: self.name@, direction: self.direction, width: self.width }
    }
}

impl Port {
    /// A port named `name`.
    pub fn new(name: &str, direction: PortDirection, width: u32) -> (r: Self)
        ensures
            r@ == (PortV { name: name@, direction, width }),
    {
        Port { name: name.to_string(), direction, width }
    }

    /// A port taking ownership of its name.
    pub fn from_string(name: String, direction: PortDirection, width: u32) -> (r: Self)
        ensures
            r@ == (PortV { name: name@, direction, width }),
    {
        Port { name, direction, width }
    }

    /// The port's name.
    pub fn name(&self) -> (r: &str)
        ensures
            r@ == self@.name,
    {
        self.name.as_str()
    }

    /// The port's direction.
    pub fn direction(&self) -> (r: PortDirection)
        ensures
            r == self@.direction,
    {
        self.direction
    }

    /// The port's bit width.
    pub fn width(&self) -> (r: u32)
        ensures
            r == self@.width,
    {
        self.width
    }
}

/// The mathematical content of an [`Expr`].
#[allow(inconsistent_fields)]
pub ghost enum ExprV {
    Wire(Seq<char>),
    Literal { width: u32, value: u128 },
    Not(Box<ExprV>),
    Binary { op: Seq<char>, lhs: Box<ExprV>, rhs: Box<ExprV> },
    Mux { selector: Box<ExprV>, false_arm: Box<ExprV>, true_arm: Box<ExprV> },
    Concat { high: Box<ExprV>, low: Box<ExprV> },
    Slice { source: Box<ExprV>, lo: u32, hi: u32 },
    ArrayIndex { array: Seq<char>, index: usize },
    ArrayDynIndex { array: Seq<char>, index: Box<ExprV> },
}

/// A Verilog expression.
#[derive(Debug)]
#[allow(inconsistent_fields)]
pub enum Expr {
    /// A named wire or register.
    Wire(String),
    /// A sized decimal literal `width'dvalue`.
    Literal { width: u32, value: u128 },
    /// Bitwise negation.
    Not(Box<Expr>),
    /// A binary operator, e.g. `+`.
    Binary { op: &'static str, lhs: Box<Expr>, rhs: Box<Expr> },
    /// `selector ? true_arm : false_arm`.
    Mux { selector: Box<Expr>, false_arm: Box<Expr>, true_arm: Box<Expr> },
    /// `{high, low}`.
    Concat { high: Box<Expr>, low: Box<Expr> },
    /// Bits `[lo, hi)` of `source`.
    Slice { source: Box<Expr>, lo: u32, hi: u32 },
    /// `array[index]` with a constant index.
    ArrayIndex { array: String, index: usize },
    /// `array[index]` with a computed index.
    ArrayDynIndex { array: String, index: Box<Expr> },
}

/// The view of an expression.
pub open spec fn expr_v(e: Expr) -> ExprV
    decreases e,
{
    match e {
        Expr::Wire(n) => ExprV::Wire(n@),
        Expr::Literal { width, value } => ExprV::Literal { width, value },
        Expr::Not(inner) => ExprV::Not(Box::new(expr_v(*inner))),
        Expr::Binary { op, lhs, rhs } => ExprV::Binary {
            op: op@,
            lhs: Box::new(expr_v(*lhs)),
            rhs: Box::new(expr_v(*rhs)),
        },
        Expr::Mux { selector, false_arm, true_arm } => ExprV::Mux {
            selector: Box::new(expr_v(*selector)),
            false_arm: Box::new(expr_v(*false_arm)),
            true_arm: Box::new(expr_v(*true_arm)),
        },
        Expr::Concat { high, low } => ExprV::Concat { high: Box::new(expr_v(*high)), low: Box::new(expr_v(*low)) },
        Expr::Slice { source, lo, hi } => ExprV::Slice { source: Box::new(expr_v(*source)), lo, hi },
        Expr::ArrayIndex { array, index } => ExprV::ArrayIndex { array: array@, index },
        Expr::ArrayDynIndex { array, index } => ExprV::ArrayDynIndex { array: array@, index: Box::new(expr_v(*index)) },
    }
}

impl View for Expr {
    type V = ExprV;

    open spec fn view(&self) -> ExprV {
        expr_v(*self)
    }
}

/// A deep copy of an expression.
pub fn clone_expr(e: &Expr) -> (r: Expr)
    ensures
        r@ == e@,
    decreases e,
{
    match e {
        Expr::Wire(n) => Expr::Wire(n.clone()),
        Expr::Literal { width, value } => Expr::Literal { width: *width, value: *value },
        Expr::Not(inner) => Expr::Not(Box::new(clone_expr(inner))),
        Expr::Binary { op, lhs, rhs } => Expr::Binary {
            op: *op,
            lhs: Box::new(clone_expr(lhs)),
            rhs: Box::new(clone_expr(rhs)),
        },
        Expr::Mux { selector, false_arm, true_arm } => Expr::Mux {
            selector: Box::new(clone_expr(selector)),
            false_arm: Box::new(clone_expr(false_arm)),
            true_arm: Box::new(clone_expr(true_arm)),
        },
        Expr::Concat { high, low } => Expr::Concat { high: Box::new(clone_expr(high)), low: Box::new(clone_expr(low)) },
        Expr::Slice { source, lo, hi } => Expr::Slice { source: Box::new(clone_expr(source)), lo: *lo, hi: *hi },
        Expr::ArrayIndex { array, index } => Expr::ArrayIndex { array: array.clone(), index: *index },
        Expr::ArrayDynIndex { array, index } => Expr::ArrayDynIndex {
            array: array.clone(),
            index: Box::new(clone_expr(index)),
        },
    }
}

impl Clone for Expr {
    fn clone(&self) -> (r: Self)
        ensures
            r@ == self@,
    {
        clone_expr(self)
    }
}

/// The mathematical content of a [`Stmt`].
#[allow(inconsistent_fields)]
pub ghost enum StmtV {
    WireDecl { name: Seq<char>, width: u32 },
    RegDecl { name: Seq<char>, width: u32 },
    Assign { lhs: Seq<char>, rhs: ExprV },
    AlwaysFf { clock: Seq<char>, reset: Option<Seq<char>>, reg: Seq<char>, reset_value: ExprV, next: ExprV },
    RegArrayDecl { name: Seq<char>, width: u32, depth: usize },
    AlwaysArrayShift {
        clock: Seq<char>,
        reset: Seq<char>,
        array: Seq<char>,
        depth: usize,
        width: u32,
        reset_value: ExprV,
        input: ExprV,
    },
    AlwaysArrayCircBuf {
        clock: Seq<char>,
        reset: Seq<char>,
        array: Seq<char>,
        depth: usize,
        width: u32,
        ptr_name: Seq<char>,
        ptr_width: u32,
        reset_value: ExprV,
        input: ExprV,
    },
}

/// A module-level Verilog statement.
#[derive(Clone, Debug)]
#[allow(inconsistent_fields)]
pub enum Stmt {
    /// `wire [w-1:0] name;`.
    WireDecl { name: String, width: u32 },
    /// `reg [w-1:0] name;`.
    RegDecl { name: String, width: u32 },
    /// `assign lhs = rhs;`.
    Assign { lhs: String, rhs: Expr },
    /// A clocked register update, with an optional synchronous reset.
    AlwaysFf { clock: String, reset: Option<String>, reg: String, reset_value: Expr, next: Expr },
    /// `reg [w-1:0] name [0:depth-1];`.
    RegArrayDecl { name: String, width: u32, depth: usize },
    /// A shift-register array: `array[0] <= input`, `array[i] <= array[i-1]`.
    AlwaysArrayShift {
        clock: String,
        reset: String,
        array: String,
        depth: usize,
        width: u32,
        reset_value: Expr,
        input: Expr,
    },
    /// A circular-buffer array: `array[ptr] <= input`, `ptr` advancing
    /// modulo `depth`.
    AlwaysArrayCircBuf {
        clock: String,
        reset: String,
        array: String,
        depth: usize,
        width: u32,
        ptr_name: String,
        ptr_width: u32,
        reset_value: Expr,
        input: Expr,
    },
}

/// The view of an optional name.
pub open spec fn opt_name(o: Option<String>) -> Option<Seq<char>> {
    match o {
        Some(s) => Some(s@),
        None => None,
    }
}

/// The view of a statement.
pub open spec fn stmt_v(s: Stmt) -> StmtV {
    match s {
        Stmt::WireDecl { name, width } => StmtV::WireDecl { name: name@, width },
        Stmt::RegDecl { name, width } => StmtV::RegDecl { name: name@, width },
        Stmt::Assign { lhs, rhs } => StmtV::Assign { lhs: lhs@, rhs: rhs@ },
        Stmt::AlwaysFf { clock, reset, reg, reset_value, next } => StmtV::AlwaysFf {
            clock: clock@,
            reset: opt_name(reset),
            reg: reg@,
            reset_value: reset_value@,
            next: next@,
        },
        Stmt::RegArrayDecl { name, width, depth } => StmtV::RegArrayDecl { name: name@, width, depth },
        Stmt::AlwaysArrayShift { clock, reset, array, depth, width, reset_value, input } => StmtV::AlwaysArrayShift {
            clock: clock@,
            reset: reset@,
            array: array@,
            depth,
            width,
            reset_value: reset_value@,
            input: input@,
        },
        Stmt::AlwaysArrayCircBuf { clock, reset, array, depth, width, ptr_name, ptr_width, reset_value, input } =>
            StmtV::AlwaysArrayCircBuf {
            clock: clock@,
            reset: reset@,
            array: array@,
            depth,
            width,
            ptr_name: ptr_name@,
            ptr_width,
            reset_value: reset_value@,
            input: input@,
        },
    }
}

impl View for Stmt {
    type V = StmtV;

    open spec fn view(&self) -> StmtV {
        stmt_v(*self)
    }
}

/// The views of a list of ports.
pub open spec fn ports_v(ps: Seq<Port>) -> Seq<PortV> {
    ps.map_values(|p: Port| p@)
}

/// The views of a list of statements.
pub open spec fn stmts_v(ss: Seq<Stmt>) -> Seq<StmtV> {
    ss.map_values(|s: Stmt| s@)
}

/// The mathematical content of a [`Module`].
pub ghost struct ModuleV {
    pub name: Seq<char>,
    pub ports: Seq<PortV>,
    pub body: Seq<StmtV>,
}

/// A Verilog module: name, ports and body statements.
#[derive(Clone, Debug)]
pub struct Module {
    name: String,
    ports: Vec<Port>,
    body: Vec<Stmt>,
}

impl View for Module {
    type V = ModuleV;

    closed spec fn view(&self) -> ModuleV {
        ModuleV { name: self.name@, ports: ports_v(self.ports@), body: stmts_v(self.body@) }
    }
}

impl Module {
    /// A module named `name`.
    pub fn new(name: &str, ports: Vec<Port>, body: Vec<Stmt>) -> (r: Self)
        ensures
            r@ == (ModuleV { name: name@, ports: ports_v(ports@), body: stmts_v(body@) }),
    {
        Module { name: name.to_string(), ports, body }
    }

    /// The module's name.
    pub fn name(&self) -> (r: &str)
        ensures
            r@ == self@.name,
    {
        self.name.as_str()
    }

    /// The ports, in order.
    pub fn ports(&self) -> (r: &[Port])
        ensures
            ports_v(r@) == self@.ports,
            r@.len() == self@.ports.len(),
    {
        self.ports.as_slice()
    }

    /// The body statements, in order.
    pub fn body(&self) -> (r: &[Stmt])
        ensures
            stmts_v(r@) == self@.body,
            r@.len() == self@.body.len(),
    {
        self.body.as_slice()
    }

    /// The rendered Verilog text, as a suspended computation.
    pub fn render(&self) -> (r: Io<Error, String>)
        ensures
            yielded_text(r) matches Ok(s) && s@ == crate::verilog::render::module_text(self@),
    {
        let text = crate::verilog::render::render_module(self);
        deferred_text(Ok(text))
    }
}

} // verus!
