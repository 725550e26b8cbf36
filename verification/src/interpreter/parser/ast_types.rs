use vstd::prelude::*;

verus! {

/// A top-level statement of a program.
#[derive(Debug, Clone)]
pub enum Statement {
    Assignment(Assignment),
    Function(FunctionDecl),
    Oracle(OracleDecl),
    Circuit(CircuitDecl),
    MethodCall(MethodCall),
    Expr(Expr),
}

pub type Program = Vec<Statement>;

/// `bits name = value;`
#[derive(Debug, Clone)]
pub struct Assignment {
    pub name: String,
    pub value: Expr,
}

/// `name.call(arg = n, ...);`
#[derive(Debug, Clone)]
pub struct MethodCall {
    pub name: String,
    pub call: String,
    pub args: Vec<MethodArg>,
}

#[derive(Debug, Clone)]
pub struct MethodArg {
    pub name: String,
    pub value: usize,
}

/// `function name(params) -> return_type { body }`
#[derive(Debug, Clone)]
pub struct FunctionDecl {
    pub name: String,
    pub params: Vec<Param>,
    pub return_type: Type,
    pub body: Expr,
}

#[derive(Debug, Clone)]
pub struct Param {
    pub name: String,
    pub ty: Type,
}

#[derive(Debug, Clone, Copy, PartialEq, Eq, Structural)]
pub enum Type {
    Bits(usize),
    Qubits(usize),
}

/// `oracle name(params) loads function;`
#[derive(Debug, Clone)]
pub struct OracleDecl {
    pub name: String,
    pub params: Vec<Param>,
    pub loads: String,
}

/// `circuit name { register: ... apply: ... }`
#[derive(Debug, Clone)]
pub struct CircuitDecl {
    pub name: String,
    pub registers: Vec<QubitDecl>,
    pub instructions: Vec<CircuitInstr>,
}

#[derive(Debug, Clone)]
pub struct QubitDecl {
    pub name: String,
    pub init: String,
}

#[derive(Debug, Clone)]
pub struct CircuitInstr {
    pub name: String,
    pub args: Vec<CircuitRef>,
}

#[derive(Debug, Clone)]
pub struct CircuitRef {
    pub name: String,
    pub applies: Applies,
}

#[derive(Debug, Clone, Copy, PartialEq, Eq, Structural)]
pub enum Applies {
    One(usize),
    All,
}

#[derive(Debug)]
pub enum Expr {
    Identifier(String),
    BitsLiteral(String),
    Binary { op: BinOp, left: Box<Expr>, right: Box<Expr> },
    Call { callee: Box<Expr>, args: Vec<Expr> },
    Grouping(Box<Expr>),
}

#[derive(Debug, Clone, Copy, PartialEq, Eq, Structural)]
pub enum BinOp {
    Xor,
    Or,
    And,
    DotProduct,
}

// ----- mathematical models of the syntax tree -----

pub enum SpecExpr {
    Identifier(Seq<char>),
    BitsLiteral(Seq<char>),
    Binary { op: BinOp, left: Box<SpecExpr>, right: Box<SpecExpr> },
    Call { callee: Box<SpecExpr>, args: Seq<SpecExpr> },
    Grouping(Box<SpecExpr>),
}

pub struct SpecAssignment {
    pub name: Seq<char>,
    pub value: SpecExpr,
}

pub struct SpecMethodArg {
    pub name: Seq<char>,
    pub value: usize,
}

pub struct SpecMethodCall {
    pub name: Seq<char>,
    pub call: Seq<char>,
    pub args: Seq<SpecMethodArg>,
}

pub struct SpecParam {
    pub name: Seq<char>,
    pub ty: Type,
}

pub struct SpecFunctionDecl {
    pub name: Seq<char>,
    pub params: Seq<SpecParam>,
    pub return_type: Type,
    pub body: SpecExpr,
}

pub struct SpecOracleDecl {
    pub name: Seq<char>,
    pub params: Seq<SpecParam>,
    pub loads: Seq<char>,
}

pub struct SpecQubitDecl {
    pub name: Seq<char>,
    pub init: Seq<char>,
}

pub struct SpecCircuitRef {
    pub name: Seq<char>,
    pub applies: Applies,
}

pub struct SpecCircuitInstr {
    pub name: Seq<char>,
    pub args: Seq<SpecCircuitRef>,
}

pub struct SpecCircuitDecl {
    pub name: Seq<char>,
    pub registers: Seq<SpecQubitDecl>,
    pub instructions: Seq<SpecCircuitInstr>,
}

pub enum SpecStatement {
    Assignment(SpecAssignment),
    Function(SpecFunctionDecl),
    Oracle(SpecOracleDecl),
    Circuit(SpecCircuitDecl),
    MethodCall(SpecMethodCall),
    Expr(SpecExpr),
}

pub open spec fn expr_view(e: Expr) -> SpecExpr
    decreases e,
{
    match e {
        Expr::Identifier(s) => SpecExpr::Identifier(s@),
        Expr::BitsLiteral(s) => SpecExpr::BitsLiteral(s@),
        Expr::Binary { op, left, right } => SpecExpr::Binary {
            op,
            left: Box::new(expr_view(*left)),
            right: Box::new(expr_view(*right)),
        },
        Expr::Call { callee, args } => SpecExpr::Call {
            callee: Box::new(expr_view(*callee)),
            args: exprs_view(args@),
        },
        Expr::Grouping(g) => SpecExpr::Grouping(Box::new(expr_view(*g))),
    }
}

pub open spec fn exprs_view(s: Seq<Expr>) -> Seq<SpecExpr>
    decreases s,
{
    if s.len() == 0 {
        Seq::empty()
    } else {
        exprs_view(s.subrange(0, s.len() - 1)).push(expr_view(s[s.len() - 1]))
    }
}

pub proof fn lemma_exprs_view(s: Seq<Expr>)
    ensures
        exprs_view(s).len() == s.len(),
        forall|i: int| 0 <= i < s.len() ==> #[trigger] exprs_view(s)[i] == expr_view(s[i]),
    decreases s.len(),
{
    if s.len() > 0 {
        lemma_exprs_view(s.subrange(0, s.len() - 1));
    }
}

impl View for Expr {
    type V = SpecExpr;

    open spec fn view(&self) -> SpecExpr {
        expr_view(*self)
    }
}

/// Deep copy of an expression; the copy has the same model.
pub fn copy_expr(e: &Expr) -> (res: Expr)
    ensures
        res@ == e@,
    decreases e,
{
    match e {
        Expr::Identifier(s) => Expr::Identifier(s.clone()),
        Expr::BitsLiteral(s) => Expr::BitsLiteral(s.clone()),
        Expr::Binary { op, left, right } => Expr::Binary {
            op: *op,
            left: Box::new(copy_expr(left)),
            right: Box::new(copy_expr(right)),
        },
        Expr::Call { callee, args } => {
            let mut v: Vec<Expr> = Vec::new();
            let mut i: usize = 0;
            proof {
                assert(decreases_to!(*e => *args));
            }
            while i < args.len()
                invariant
                    decreases_to!(*e => *args),
                    i <= args.len(),
                    v@.len() == i,
                    forall|j: int| 0 <= j < i ==> (#[trigger] v@[j])@ == args@[j]@,
                decreases args.len() - i,
            {
                proof {
                    vstd::std_specs::vec::axiom_vec_index_decreases(*args, i as int);
                }
                v.push(copy_expr(&args[i]));
                i = i + 1;
            }
            proof {
                lemma_exprs_view(v@);
                lemma_exprs_view(args@);
                assert(exprs_view(v@) =~= exprs_view(args@));
            }
            Expr::Call { callee: Box::new(copy_expr(callee)), args: v }
        },
        Expr::Grouping(g) => Expr::Grouping(Box::new(copy_expr(g))),
    }
}

impl Clone for Expr {
    fn clone(&self) -> (res: Self)
        ensures
            res@ == self@,
    {
        copy_expr(self)
    }
}

impl View for Param {
    type V = SpecParam;

    open spec fn view(&self) -> SpecParam {
        SpecParam { name: self.name@, ty: self.ty }
    }
}

pub open spec fn params_view(s: Seq<Param>) -> Seq<SpecParam> {
    s.map_values(|p: Param| p@)
}

impl View for Assignment {
    type V = SpecAssignment;

    open spec fn view(&self) -> SpecAssignment {
        SpecAssignment { name: self.name@, value: self.value@ }
    }
}

impl View for MethodArg {
    type V = SpecMethodArg;

    open spec fn view(&self) -> SpecMethodArg {
        SpecMethodArg { name: self.name@, value: self.value }
    }
}

impl View for MethodCall {
    type V = SpecMethodCall;

    open spec fn view(&self) -> SpecMethodCall {
        SpecMethodCall {
            name: self.name@,
            call: self.call@,
            args: self.args@.map_values(|a: MethodArg| a@),
        }
    }
}

impl View for FunctionDecl {
    type V = SpecFunctionDecl;

    open spec fn view(&self) -> SpecFunctionDecl {
        SpecFunctionDecl {
            name: self.name@,
            params: params_view(self.params@),
            return_type: self.return_type,
            body: self.body@,
        }
    }
}

impl View for OracleDecl {
    type V = SpecOracleDecl;

    open spec fn view(&self) -> SpecOracleDecl {
        SpecOracleDecl { name: self.name@, params: params_view(self.params@), loads: self.loads@ }
    }
}

impl View for QubitDecl {
    type V = SpecQubitDecl;

    open spec fn view(&self) -> SpecQubitDecl {
        SpecQubitDecl { name: self.name@, init: self.init@ }
    }
}

impl View for CircuitRef {
    type V = SpecCircuitRef;

    open spec fn view(&self) -> SpecCircuitRef {
        SpecCircuitRef { name: self.name@, applies: self.applies }
    }
}

pub open spec fn refs_view(s: Seq<CircuitRef>) -> Seq<SpecCircuitRef> {
    s.map_values(|a: CircuitRef| a@)
}

impl View for CircuitInstr {
    type V = SpecCircuitInstr;

    open spec fn view(&self) -> SpecCircuitInstr {
        SpecCircuitInstr { name: self.name@, args: refs_view(self.args@) }
    }
}

impl View for CircuitDecl {
    type V = SpecCircuitDecl;

    open spec fn view(&self) -> SpecCircuitDecl {
        SpecCircuitDecl {
            name: self.name@,
            registers: self.registers@.map_values(|r: QubitDecl| r@),
            instructions: self.instructions@.map_values(|i: CircuitInstr| i@),
        }
    }
}

impl View for Statement {
    type V = SpecStatement;

    open spec fn view(&self) -> SpecStatement {
        match self {
            Statement::Assignment(a) => SpecStatement::Assignment(a@),
            Statement::Function(f) => SpecStatement::Function(f@),
            Statement::Oracle(o) => SpecStatement::Oracle(o@),
            Statement::Circuit(c) => SpecStatement::Circuit(c@),
            Statement::MethodCall(m) => SpecStatement::MethodCall(m@),
            Statement::Expr(e) => SpecStatement::Expr(e@),
        }
    }
}

pub open spec fn program_view(p: Seq<Statement>) -> Seq<SpecStatement> {
    p.map_values(|s: Statement| s@)
}

} // verus!
