//! The syntax tree the parser builds, and its mathematical model (the same
//! tree with sequences in place of vectors and boxes), which the contracts
//! speak of.

use vstd::prelude::*;

verus! {

#[derive(Debug, Clone, Copy, PartialEq, Eq, Structural)]
pub enum UnaryOp {
    Not,
    Negate,
}

#[derive(Debug, Clone, Copy, PartialEq, Eq, Structural)]
pub enum BinaryOp {
    Eq,
    Neq,
    Gt,
    Gte,
    Lt,
    Lte,
    Add,
    Sub,
    Mul,
    Div,
}

#[derive(Debug, Clone, Copy, PartialEq, Eq, Structural)]
pub enum LogicalOp {
    And,
    Or,
}

impl UnaryOp {
    pub open spec fn spec_symbol(self) -> Seq<char> {
        match self {
            UnaryOp::Not => "!"@,
            UnaryOp::Negate => "-"@,
        }
    }

    /// How the operator is written (its display form).
    pub fn symbol(&self) -> (s: &'static str)
        ensures
            s@ == self.spec_symbol(),
    {
        match self {
            UnaryOp::Not => "!",
            UnaryOp::Negate => "-",
        }
    }
}

impl BinaryOp {
    pub open spec fn spec_symbol(self) -> Seq<char> {
        match self {
            BinaryOp::Eq => "=="@,
            BinaryOp::Neq => "!="@,
            BinaryOp::Gt => ">"@,
            BinaryOp::Gte => ">="@,
            BinaryOp::Lt => "<"@,
            BinaryOp::Lte => "<="@,
            BinaryOp::Add => "+"@,
            BinaryOp::Sub => "-"@,
            BinaryOp::Mul => "*"@,
            BinaryOp::Div => "/"@,
        }
    }

    /// How the operator is written (its display form).
    pub fn symbol(&self) -> (s: &'static str)
        ensures
            s@ == self.spec_symbol(),
    {
        match self {
            BinaryOp::Eq => "==",
            BinaryOp::Neq => "!=",
            BinaryOp::Gt => ">",
            BinaryOp::Gte => ">=",
            BinaryOp::Lt => "<",
            BinaryOp::Lte => "<=",
            BinaryOp::Add => "+",
            BinaryOp::Sub => "-",
            BinaryOp::Mul => "*",
            BinaryOp::Div => "/",
        }
    }
}

/// A literal. A number keeps the decimal text it was written with; its value
/// is computed by the evaluator.
#[derive(Debug, Clone)]
pub enum Literal {
    String(String),
    Number(String),
    Bool(bool),
    Nil,
}

#[derive(Debug)]
pub enum Expr {
    Literal(Literal),
    Unary { op: UnaryOp, right: Box<Expr> },
    Binary { left: Box<Expr>, op: BinaryOp, right: Box<Expr> },
    Logical { left: Box<Expr>, op: LogicalOp, right: Box<Expr> },
    Grouping { expr: Box<Expr> },
    Variable(String),
    Assign { name: String, value: Box<Expr> },
    Call { callee: Box<Expr>, arguments: Vec<Expr> },
}

#[derive(Debug)]
pub enum Stmt {
    Expr(Expr),
    Print(Expr),
    Var { name: String, initializer: Option<Expr> },
    Block(Vec<Stmt>),
    If { condition: Expr, then_branch: Box<Stmt>, else_branch: Option<Box<Stmt>> },
    While { condition: Expr, body: Box<Stmt> },
    Function { name: String, params: Vec<String>, body: Vec<Stmt> },
}

/// A whole program: its statements in order.
#[derive(Debug)]
pub struct Program {
    pub statements: Vec<Stmt>,
}

pub enum SLiteral {
    Str(Seq<char>),
    Number(Seq<char>),
    Bool(bool),
    Nil,
}

pub enum SExpr {
    Literal(SLiteral),
    Unary { op: UnaryOp, right: Box<SExpr> },
    Binary { left: Box<SExpr>, op: BinaryOp, right: Box<SExpr> },
    Logical { left: Box<SExpr>, op: LogicalOp, right: Box<SExpr> },
    Grouping { expr: Box<SExpr> },
    Variable(Seq<char>),
    Assign { name: Seq<char>, value: Box<SExpr> },
    Call { callee: Box<SExpr>, arguments: Seq<SExpr> },
}

pub enum SStmt {
    Expr(SExpr),
    Print(SExpr),
    Var { name: Seq<char>, initializer: Option<SExpr> },
    Block(Seq<SStmt>),
    If { condition: SExpr, then_branch: Box<SStmt>, else_branch: Option<Box<SStmt>> },
    While { condition: SExpr, body: Box<SStmt> },
    Function { name: Seq<char>, params: Seq<Seq<char>>, body: Seq<SStmt> },
}

pub open spec fn literal_model(l: Literal) -> SLiteral {
    match l {
        Literal::String(s) => SLiteral::Str(s@),
        Literal::Number(s) => SLiteral::Number(s@),
        Literal::Bool(b) => SLiteral::Bool(b),
        Literal::Nil => SLiteral::Nil,
    }
}

pub open spec fn expr_model(e: Expr) -> SExpr
    decreases e,
{
    match e {
        Expr::Literal(l) => SExpr::Literal(literal_model(l)),
        Expr::Unary { op, right } => SExpr::Unary { op, right: Box::new(expr_model(*right)) },
        Expr::Binary { left, op, right } => SExpr::Binary {
            left: Box::new(expr_model(*left)),
            op,
            right: Box::new(expr_model(*right)),
        },
        Expr::Logical { left, op, right } => SExpr::Logical {
            left: Box::new(expr_model(*left)),
            op,
            right: Box::new(expr_model(*right)),
        },
        Expr::Grouping { expr } => SExpr::Grouping { expr: Box::new(expr_model(*expr)) },
        Expr::Variable(name) => SExpr::Variable(name@),
        Expr::Assign { name, value } => SExpr::Assign {
            name: name@,
            value: Box::new(expr_model(*value)),
        },
        Expr::Call { callee, arguments } => SExpr::Call {
            callee: Box::new(expr_model(*callee)),
            arguments: Seq::new(
                arguments@.len(),
                |i: int|
                    if 0 <= i < arguments@.len() {
                        expr_model(arguments@[i])
                    } else {
                        SExpr::Literal(SLiteral::Nil)
                    },
            ),
        },
    }
}

pub open spec fn exprs_model(v: Seq<Expr>) -> Seq<SExpr> {
    Seq::new(v.len(), |i: int| expr_model(v[i]))
}

pub open spec fn names_model(v: Seq<String>) -> Seq<Seq<char>> {
    Seq::new(v.len(), |i: int| v[i]@)
}

pub open spec fn stmt_model(s: Stmt) -> SStmt
    decreases s,
{
    match s {
        Stmt::Expr(e) => SStmt::Expr(expr_model(e)),
        Stmt::Print(e) => SStmt::Print(expr_model(e)),
        Stmt::Var { name, initializer } => SStmt::Var {
            name: name@,
            initializer: match initializer {
                Some(e) => Some(expr_model(e)),
                None => None,
            },
        },
        Stmt::Block(stmts) => SStmt::Block(
            Seq::new(
                stmts@.len(),
                |i: int|
                    if 0 <= i < stmts@.len() {
                        stmt_model(stmts@[i])
                    } else {
                        SStmt::Expr(SExpr::Literal(SLiteral::Nil))
                    },
            ),
        ),
        Stmt::If { condition, then_branch, else_branch } => SStmt::If {
            condition: expr_model(condition),
            then_branch: Box::new(stmt_model(*then_branch)),
            else_branch: match else_branch {
                Some(b) => Some(Box::new(stmt_model(*b))),
                None => None,
            },
        },
        Stmt::While { condition, body } => SStmt::While {
            condition: expr_model(condition),
            body: Box::new(stmt_model(*body)),
        },
        Stmt::Function { name, params, body } => SStmt::Function {
            name: name@,
            params: names_model(params@),
            body: Seq::new(
                body@.len(),
                |i: int|
                    if 0 <= i < body@.len() {
                        stmt_model(body@[i])
                    } else {
                        SStmt::Expr(SExpr::Literal(SLiteral::Nil))
                    },
            ),
        },
    }
}

pub open spec fn stmts_model(v: Seq<Stmt>) -> Seq<SStmt> {
    Seq::new(v.len(), |i: int| stmt_model(v[i]))
}

impl View for Literal {
    type V = SLiteral;

    open spec fn view(&self) -> SLiteral {
        literal_model(*self)
    }
}

impl View for Expr {
    type V = SExpr;

    open spec fn view(&self) -> SExpr {
        expr_model(*self)
    }
}

impl View for Stmt {
    type V = SStmt;

    open spec fn view(&self) -> SStmt {
        stmt_model(*self)
    }
}

impl View for Program {
    type V = Seq<SStmt>;

    open spec fn view(&self) -> Seq<SStmt> {
        stmts_model(self.statements@)
    }
}

impl Program {
    pub fn new(statements: Vec<Stmt>) -> (p: Self)
        ensures
            p.statements == statements,
    {
        Self { statements }
    }
}

/// The model of a call is built from the models of its callee and arguments.
pub proof fn lemma_call_model(callee: Box<Expr>, arguments: Vec<Expr>)
    ensures
        expr_model(Expr::Call { callee, arguments }) == (SExpr::Call {
            callee: Box::new(expr_model(*callee)),
            arguments: exprs_model(arguments@),
        }),
{
    let e = Expr::Call { callee, arguments };
    assert(expr_model(e)->Call_arguments =~= exprs_model(arguments@));
}

/// The model of a block is built from the models of its statements.
pub proof fn lemma_block_model(stmts: Vec<Stmt>)
    ensures
        stmt_model(Stmt::Block(stmts)) == SStmt::Block(stmts_model(stmts@)),
{
    assert(stmt_model(Stmt::Block(stmts))->Block_0 =~= stmts_model(stmts@));
}

/// The model of a function declaration is built from its parts' models.
pub proof fn lemma_function_model(name: String, params: Vec<String>, body: Vec<Stmt>)
    ensures
        stmt_model(Stmt::Function { name, params, body }) == (SStmt::Function {
            name: name@,
            params: names_model(params@),
            body: stmts_model(body@),
        }),
{
    assert(stmt_model(Stmt::Function { name, params, body })->Function_body =~= stmts_model(
        body@,
    ));
}

pub proof fn lemma_exprs_model_push(v: Seq<Expr>, e: Expr)
    ensures
        exprs_model(v.push(e)) == exprs_model(v).push(expr_model(e)),
{
    assert(exprs_model(v.push(e)) =~= exprs_model(v).push(expr_model(e)));
}

pub proof fn lemma_stmts_model_push(v: Seq<Stmt>, s: Stmt)
    ensures
        stmts_model(v.push(s)) == stmts_model(v).push(stmt_model(s)),
{
    assert(stmts_model(v.push(s)) =~= stmts_model(v).push(stmt_model(s)));
}

pub proof fn lemma_names_model_push(v: Seq<String>, s: String)
    ensures
        names_model(v.push(s)) == names_model(v).push(s@),
{
    assert(names_model(v.push(s)) =~= names_model(v).push(s@));
}

} // verus!
