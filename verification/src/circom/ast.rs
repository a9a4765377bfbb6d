//! The Circom AST: the target field, bit-array signals, quadratic
//! expressions, template statements, and whole templates, each with a
//! mathematical view.

use vstd::prelude::*;

use comp_cat_rs::effect::io::Io;

use crate::deferred::{deferred_text, yielded_text};
use crate::error::Error;

verus! {

/// The prime field targeted by a generated template.
#[derive(Clone, Copy, Debug, PartialEq, Eq, Structural)]
pub enum Field {
    /// BN254 scalar field (Circom's default).
    Bn254,
    /// BLS12-381 scalar field.
    Bls12_381,
    /// Goldilocks scalar field.
    Goldilocks,
}

/// The maximum safe bit width for a single signal of field `f`.
pub open spec fn field_max_bits(f: Field) -> u32 {
    match f {
        Field::Bn254 => 252,
        Field::Bls12_381 => 252,
        Field::Goldilocks => 63,
    }
}

/// The canonical lower-case name of field `f`.
pub open spec fn field_text(f: Field) -> Seq<char> {
    match f {
        Field::Bn254 => "bn254"@,
        Field::Bls12_381 => "bls12_381"@,
        Field::Goldilocks => "goldilocks"@,
    }
}

impl Field {
    /// The maximum safe bit width for a single field signal.
    pub fn max_bits(self) -> (r: u32)
        ensures
            r == field_max_bits(self),
    {
        match self {
            Field::Bn254 => 252,
            Field::Bls12_381 => 252,
            Field::Goldilocks => 63,
        }
    }

    /// The canonical name: `bn254`, `bls12_381` or `goldilocks`.
    pub fn to_display_string(self) -> (r: String)
        ensures
            r@ == field_text(self),
    {
        let s = match self {
            Field::Bn254 => "bn254",
            Field::Bls12_381 => "bls12_381",
            Field::Goldilocks => "goldilocks",
        };
        s.to_string()
    }
}

/// The direction of a template signal.
#[derive(Clone, Copy, Debug, PartialEq, Eq, Structural)]
pub enum SignalDir {
    /// `signal input`.
    Input,
    /// `signal output`.
    Output,
    /// `signal`: a local intermediate.
    Intermediate,
}

/// The mathematical content of a [`Signal`].
pub ghost struct SignalV {
    pub name: Seq<char>,
    pub dir: SignalDir,
    pub width: u32,
}

/// A bit-array signal `name[width]`.
#[derive(Clone, Debug, PartialEq, Eq)]
pub struct Signal {
    name: String,
    dir: SignalDir,
    width: u32,
}

impl View for Signal {
    type V = SignalV;

    closed spec fn view(&self) -> SignalV {
        SignalV { name: self.name@, dir: self.dir, width: self.width }
    }
}

impl Signal {
    /// A signal named `name`.
    pub fn new(name: &str, dir: SignalDir, width: u32) -> (r: Self)
        ensures
            r@ == (SignalV { name: name@, dir, width }),
    {
        Signal { name: name.to_string(), dir, width }
    }

    /// A signal taking ownership of its name.
    pub fn from_string(name: String, dir: SignalDir, width: u32) -> (r: Self)
        ensures
            r@ == (SignalV { name: name@, dir, width }),
    {
        Signal { name, dir, width }
    }

    /// The signal's identifier.
    pub fn name(&self) -> (r: &str)
        ensures
            r@ == self@.name,
    {
        self.name.as_str()
    }

    /// The signal's declaration direction.
    pub fn dir(&self) -> (r: SignalDir)
        ensures
            r == self@.dir,
    {
        self.dir
    }

    /// The signal's bit width.
    pub fn width(&self) -> (r: u32)
        ensures
            r == self@.width,
    {
        self.width
    }
}

/// The mathematical content of an [`Expr`].
#[allow(inconsistent_fields)]
pub ghost enum ExprV {
    Bit { sig: Seq<char>, index: u32 },
    BitLiteral(bool),
    FieldLiteral(u128),
    Bits2Num(Seq<ExprV>),
    Neg(Box<ExprV>),
    Add(Box<ExprV>, Box<ExprV>),
    Sub(Box<ExprV>, Box<ExprV>),
    Mul(Box<ExprV>, Box<ExprV>),
    CompOutBit { comp: Seq<char>, port: Seq<char>, index: u32 },
    CompOutField { comp: Seq<char>, port: Seq<char> },
}

/// A Circom expression.
#[derive(Debug)]
#[allow(inconsistent_fields)]
pub enum Expr {
    /// `sig[index]`: one bit of a named signal.
    Bit { sig: String, index: u32 },
    /// `0` or `1`.
    BitLiteral(bool),
    /// A field-element literal.
    FieldLiteral(u128),
    /// `(b0 + 2*b1 + 4*b2 + ...)`: bits packed into a number.
    Bits2Num(Vec<Expr>),
    /// `-e`.
    Neg(Box<Expr>),
    /// `(a + b)`.
    Add(Box<Expr>, Box<Expr>),
    /// `(a - b)`.
    Sub(Box<Expr>, Box<Expr>),
    /// `(a * b)`.
    Mul(Box<Expr>, Box<Expr>),
    /// `comp.port[index]`: one bit of a subcomponent output.
    CompOutBit { comp: String, port: String, index: u32 },
    /// `comp.port`: a field-valued subcomponent output.
    CompOutField { comp: String, port: String },
}

/// The view of an expression.
pub open spec fn expr_v(e: Expr) -> ExprV
    decreases e,
{
    match e {
        Expr::Bit { sig, index } => ExprV::Bit { sig: sig@, index },
        Expr::BitLiteral(b) => ExprV::BitLiteral(b),
        Expr::FieldLiteral(v) => ExprV::FieldLiteral(v),
        Expr::Bits2Num(bits) => ExprV::Bits2Num(exprs_v(bits@)),
        Expr::Neg(inner) => ExprV::Neg(Box::new(expr_v(*inner))),
        Expr::Add(a, b) => ExprV::Add(Box::new(expr_v(*a)), Box::new(expr_v(*b))),
        Expr::Sub(a, b) => ExprV::Sub(Box::new(expr_v(*a)), Box::new(expr_v(*b))),
        Expr::Mul(a, b) => ExprV::Mul(Box::new(expr_v(*a)), Box::new(expr_v(*b))),
        Expr::CompOutBit { comp, port, index } => ExprV::CompOutBit { comp: comp@, port: port@, index },
        Expr::CompOutField { comp, port } => ExprV::CompOutField { comp: comp@, port: port@ },
    }
}

/// The views of a list of expressions.
pub open spec fn exprs_v(s: Seq<Expr>) -> Seq<ExprV>
    decreases s,
{
    if s.len() == 0 {
        Seq::empty()
    } else {
        exprs_v(s.subrange(0, s.len() - 1)).push(expr_v(s[s.len() - 1]))
    }
}

impl View for Expr {
    type V = ExprV;

    open spec fn view(&self) -> ExprV {
        expr_v(*self)
    }
}

/// The view of `exprs_v` one element longer.
pub proof fn lemma_exprs_v_push(s: Seq<Expr>, e: Expr)
    ensures
        exprs_v(s.push(e)) == exprs_v(s).push(expr_v(e)),
{
    let t = s.push(e);
    assert(t.subrange(0, t.len() - 1) =~= s);
}

/// `exprs_v` preserves length and maps each element.
pub proof fn lemma_exprs_v_index(s: Seq<Expr>)
    ensures
        exprs_v(s).len() == s.len(),
        forall|i: int| 0 <= i < s.len() ==> #[trigger] exprs_v(s)[i] == expr_v(s[i]),
    decreases s.len(),
{
    if s.len() > 0 {
        lemma_exprs_v_index(s.subrange(0, s.len() - 1));
    }
}

/// A deep copy of an expression.
pub fn clone_expr(e: &Expr) -> (r: Expr)
    ensures
        r@ == e@,
    decreases e,
{
    match e {
        Expr::Bit { sig, index } => Expr::Bit { sig: sig.clone(), index: *index },
        Expr::BitLiteral(b) => Expr::BitLiteral(*b),
        Expr::FieldLiteral(v) => Expr::FieldLiteral(*v),
        Expr::Bits2Num(bits) => {
            let mut out: Vec<Expr> = Vec::new();
            let mut i: usize = 0;
            proof {
                assert(bits@.take(0) =~= Seq::<Expr>::empty());
            }
            while i < bits.len()
                invariant
                    i <= bits@.len(),
                    *e == Expr::Bits2Num(*bits),
                    exprs_v(out@) == exprs_v(bits@.take(i as int)),
                decreases bits@.len() - i,
            {
                proof {
                    assert(decreases_to!(bits@ => bits@[i as int]));
                    assert(decreases_to!(*bits => bits@));
                    assert(decreases_to!(*e => (*e)->Bits2Num_0));
                }
                let c = clone_expr(&bits[i]);
                proof {
                    lemma_exprs_v_push(out@, c);
                    lemma_exprs_v_push(bits@.take(i as int), bits@[i as int]);
                    assert(bits@.take(i as int).push(bits@[i as int]) =~= bits@.take(i + 1));
                }
                out.push(c);
                i = i + 1;
            }
            proof {
                assert(bits@.take(i as int) =~= bits@);
            }
            Expr::Bits2Num(out)
        },
        Expr::Neg(inner) => Expr::Neg(Box::new(clone_expr(inner))),
        Expr::Add(a, b) => Expr::Add(Box::new(clone_expr(a)), Box::new(clone_expr(b))),
        Expr::Sub(a, b) => Expr::Sub(Box::new(clone_expr(a)), Box::new(clone_expr(b))),
        Expr::Mul(a, b) => Expr::Mul(Box::new(clone_expr(a)), Box::new(clone_expr(b))),
        Expr::CompOutBit { comp, port, index } => Expr::CompOutBit {
            comp: comp.clone(),
            port: port.clone(),
            index: *index,
        },
        Expr::CompOutField { comp, port } => Expr::CompOutField { comp: comp.clone(), port: port.clone() },
    }
}

impl Clone for Expr {
    fn clone(&self) -> (r: Self)
        ensures
            r@ == self@,
    {
        clone_expr(self)
    }
}

/// The mathematical content of a [`Stmt`].
#[allow(inconsistent_fields)]
pub ghost enum StmtV {
    SignalDecl(SignalV),
    Component { name: Seq<char>, template: Seq<char>, args: Seq<u32> },
    ComponentDrive { comp: Seq<char>, port: Seq<char>, index: Option<u32>, rhs: ExprV },
    Assign { lhs: Seq<char>, index: Option<u32>, rhs: ExprV },
    Constraint(ExprV),
}

/// A statement of a Circom template body.
#[derive(Clone, Debug)]
#[allow(inconsistent_fields)]
pub enum Stmt {
    /// `signal [input|output]? name[width];`.
    SignalDecl(Signal),
    /// `component name = template(args);`.
    Component { name: String, template: String, args: Vec<u32> },
    /// `comp.port <== rhs;` or `comp.port[index] <== rhs;`.
    ComponentDrive { comp: String, port: String, index: Option<u32>, rhs: Expr },
    /// `lhs <== rhs;` or `lhs[index] <== rhs;`.
    Assign { lhs: String, index: Option<u32>, rhs: Expr },
    /// `expr === 0;`.
    Constraint(Expr),
}

/// The view of a statement.
pub open spec fn stmt_v(s: Stmt) -> StmtV {
    match s {
        Stmt::SignalDecl(sig) => StmtV::SignalDecl(sig@),
        Stmt::Component { name, template, args } => StmtV::Component { name: name@, template: template@, args: args@ },
        Stmt::ComponentDrive { comp, port, index, rhs } => StmtV::ComponentDrive {
            comp: comp@,
            port: port@,
            index,
            rhs: rhs@,
        },
        Stmt::Assign { lhs, index, rhs } => StmtV::Assign { lhs: lhs@, index, rhs: rhs@ },
        Stmt::Constraint(e) => StmtV::Constraint(e@),
    }
}

impl View for Stmt {
    type V = StmtV;

    open spec fn view(&self) -> StmtV {
        stmt_v(*self)
    }
}

/// The views of a list of signals.
pub open spec fn signals_v(s: Seq<Signal>) -> Seq<SignalV> {
    s.map_values(|x: Signal| x@)
}

/// The views of a list of statements.
pub open spec fn stmts_v(s: Seq<Stmt>) -> Seq<StmtV> {
    s.map_values(|x: Stmt| x@)
}

/// The views of a list of strings.
pub open spec fn strings_v(s: Seq<String>) -> Seq<Seq<char>> {
    s.map_values(|x: String| x@)
}

/// The mathematical content of a [`Template`].
pub ghost struct TemplateV {
    pub field: Field,
    pub name: Seq<char>,
    pub includes: Seq<Seq<char>>,
    pub ports: Seq<SignalV>,
    pub intermediates: Seq<SignalV>,
    pub body: Seq<StmtV>,
    pub public_inputs: Seq<Seq<char>>,
}

/// A complete Circom template with its `include` set and the public
/// inputs of its `component main` instantiation.
#[derive(Clone, Debug)]
pub struct Template {
    field: Field,
    name: String,
    includes: Vec<String>,
    ports: Vec<Signal>,
    intermediates: Vec<Signal>,
    body: Vec<Stmt>,
    public_inputs: Vec<String>,
}

impl View for Template {
    type V = TemplateV;

    closed spec fn view(&self) -> TemplateV {
        TemplateV {
            field: self.field,
            name: self.name@,
            includes: strings_v(self.includes@),
            ports: signals_v(self.ports@),
            intermediates: signals_v(self.intermediates@),
            body: stmts_v(self.body@),
            public_inputs: strings_v(self.public_inputs@),
        }
    }
}

impl Template {
    /// A template named `name`.  An empty `public_inputs` list renders
    /// a plain `component main = name();` line; a non-empty one renders
    /// `component main { public [a, b] } = name();`.
    pub fn new(
        field: Field,
        name: &str,
        includes: Vec<String>,
        ports: Vec<Signal>,
        intermediates: Vec<Signal>,
        body: Vec<Stmt>,
        public_inputs: Vec<String>,
    ) -> (r: Self)
        ensures
            r@ == (TemplateV {
                field,
                name: name@,
                includes: strings_v(includes@),
                ports: signals_v(ports@),
                intermediates: signals_v(intermediates@),
                body: stmts_v(body@),
                public_inputs: strings_v(public_inputs@),
            }),
    {
        Template { field, name: name.to_string(), includes, ports, intermediates, body, public_inputs }
    }

    /// The scalar field targeted by this template.
    pub fn field(&self) -> (r: Field)
        ensures
            r == self@.field,
    {
        self.field
    }

    /// The template's declared name.
    pub fn name(&self) -> (r: &str)
        ensures
            r@ == self@.name,
    {
        self.name.as_str()
    }

    /// The included file paths, in order.
    pub fn includes(&self) -> (r: &[String])
        ensures
            strings_v(r@) == self@.includes,
            r@.len() == self@.includes.len(),
    {
        self.includes.as_slice()
    }

    /// The port signals (inputs, then outputs).
    pub fn ports(&self) -> (r: &[Signal])
        ensures
            signals_v(r@) == self@.ports,
            r@.len() == self@.ports.len(),
    {
        self.ports.as_slice()
    }

    /// The intermediate signals.
    pub fn intermediates(&self) -> (r: &[Signal])
        ensures
            signals_v(r@) == self@.intermediates,
            r@.len() == self@.intermediates.len(),
    {
        self.intermediates.as_slice()
    }

    /// The body statements.
    pub fn body(&self) -> (r: &[Stmt])
        ensures
            stmts_v(r@) == self@.body,
            r@.len() == self@.body.len(),
    {
        self.body.as_slice()
    }

    /// The signal names declared public on `component main`.
    pub fn public_inputs(&self) -> (r: &[String])
        ensures
            strings_v(r@) == self@.public_inputs,
            r@.len() == self@.public_inputs.len(),
    {
        self.public_inputs.as_slice()
    }

    /// The rendered Circom file, as a suspended computation.
    pub fn render(&self) -> (r: Io<Error, String>)
        ensures
            yielded_text(r) matches Ok(s) && s@ == crate::circom::render::template_text(self@),
    {
        let text = crate::circom::render::render_template(self);
        deferred_text(Ok(text))
    }
}

} // verus!
