//! The recursive-descent parser: tokens to a syntax tree. What each rule
//! reads and yields is stated in `syntax`, the grammar over token sequences.

pub mod error;
pub mod laws;
pub mod locality;
pub mod grammar;
pub mod syntax;

pub use error::SyntaxError;
pub use grammar::{BinaryOp, Expr, Literal, LogicalOp, Program, Stmt, UnaryOp};

use vstd::prelude::*;

use crate::lexer::{Token, TokenKind};
use error::SSyntaxError;
use grammar::{
    exprs_model, lemma_block_model, lemma_call_model, lemma_exprs_model_push,
    lemma_function_model, lemma_names_model_push, lemma_stmts_model_push, names_model,
    stmts_model, SExpr, SStmt,
};
use syntax::{
    arguments_at, assignment_at, binary_op_for, binary_rest_at, block_at, block_rest_at,
    block_statements_at, call_at, call_rest_at, consume_at, declaration_at, expression_at,
    expression_statement_at, finish_call_at, for_at, function_at, ident_at, if_statement_at,
    is_logical, kind_at, level_at, level_rank, lexeme_at, logical_op_for, logical_rest_at,
    operand_at, params_at, primary_at, primary_expected, print_statement_at, program_at,
    statement_at, synchronize_at, unary_at, var_declaration_at, while_at, Level, SFail,
};

verus! {

/// Builds the syntax tree of a program from its tokens.
pub struct Parser {
    tokens: Vec<Token>,
    current: usize,
}

/// How a parsing step failed: a syntax error, or an input the parse never
/// comes back from (see `syntax`).
enum ParseFail {
    Syntax(SyntaxError),
    Halt,
}

spec fn fail_model(f: ParseFail) -> SFail {
    match f {
        ParseFail::Syntax(e) => SFail::Syntax(e@),
        ParseFail::Halt => SFail::Halt,
    }
}

spec fn expr_res(r: Result<Expr, ParseFail>) -> Result<SExpr, SFail> {
    match r {
        Ok(e) => Ok(e@),
        Err(f) => Err(fail_model(f)),
    }
}

spec fn stmt_res(r: Result<Stmt, ParseFail>) -> Result<SStmt, SFail> {
    match r {
        Ok(s) => Ok(s@),
        Err(f) => Err(fail_model(f)),
    }
}

spec fn stmts_res(r: Result<Vec<Stmt>, ParseFail>) -> Result<Seq<SStmt>, SFail> {
    match r {
        Ok(v) => Ok(stmts_model(v@)),
        Err(f) => Err(fail_model(f)),
    }
}

spec fn unit_res(r: Result<(), ParseFail>) -> Result<(), SFail> {
    match r {
        Ok(_) => Ok(()),
        Err(f) => Err(fail_model(f)),
    }
}

spec fn name_res(r: Result<String, ParseFail>) -> Result<Seq<char>, SFail> {
    match r {
        Ok(s) => Ok(s@),
        Err(f) => Err(fail_model(f)),
    }
}

/// The models of a list of syntax errors.
pub open spec fn errors_model(v: Seq<SyntaxError>) -> Seq<SSyntaxError> {
    Seq::new(v.len(), |i: int| v[i]@)
}

/// Some token at or after `p` is the `Eof`.
pub open spec fn eof_ahead(t: Seq<Token>, p: int) -> bool {
    exists|j: int| p <= j < t.len() && #[trigger] t[j].kind == TokenKind::Eof
}

/// One parsing step keeps the tokens and moves only forward.
spec fn moved(before: Parser, after: Parser) -> bool {
    &&& after.tokens == before.tokens
    &&& after.wf()
    &&& before.current <= after.current
}

fn one_kind(k: TokenKind) -> (v: Vec<TokenKind>)
    ensures
        v@ == seq![k],
{
    let mut v = Vec::new();
    v.push(k);
    assert(v@ =~= seq![k]);
    v
}

fn unexpected(expected: TokenKind, found: TokenKind) -> (f: ParseFail)
    ensures
        fail_model(f) == syntax::unexpected(seq![expected], found),
{
    ParseFail::Syntax(SyntaxError::UnexpectedToken { expected: one_kind(expected), found })
}

fn two_stmts(a: Stmt, b: Stmt) -> (v: Vec<Stmt>)
    ensures
        stmts_model(v@) == seq![a@, b@],
{
    let mut v = Vec::new();
    v.push(a);
    v.push(b);
    assert(stmts_model(v@) =~= seq![a@, b@]);
    v
}

impl Parser {
    /// The tokens being parsed.
    pub closed spec fn tokens(&self) -> Seq<Token> {
        self.tokens@
    }

    /// The index of the next token to read.
    pub closed spec fn position(&self) -> int {
        self.current as int
    }

    /// An `Eof` token lies ahead, so reading stops before the end.
    pub open spec fn wf(&self) -> bool {
        eof_ahead(self.tokens(), self.position())
    }

    pub fn new(tokens: Vec<Token>) -> (p: Self)
        ensures
            p.tokens() == tokens@,
            p.position() == 0,
    {
        Self { tokens, current: 0 }
    }

    /// Parses the whole program: its declarations, in order, up to the `Eof`.
    /// A declaration with a syntax error is left out; its error is recorded
    /// and parsing goes on where `synchronize_at` says.
    ///
    /// Requires an input the parse comes back from (`program_at` is `Some`):
    /// on the others parsing never ends; `parse_checked` tells them apart.
    pub fn parse(&mut self) -> (r: (Program, Vec<SyntaxError>))
        requires
            old(self).wf(),
            program_at(old(self).tokens(), old(self).position(), Seq::empty(), Seq::empty()) is Some,
        ensures
            final(self).wf(),
            final(self).tokens() == old(self).tokens(),
            ({
                let (stmts, errors, end) = program_at(
                    old(self).tokens(),
                    old(self).position(),
                    Seq::empty(),
                    Seq::empty(),
                )->0;
                &&& r.0@ == stmts
                &&& errors_model(r.1@) == errors
                &&& final(self).position() == end
            }),
    {
        self.parse_checked().unwrap()
    }

    /// Parses the whole program as `parse` does, or gives `None` for an input
    /// on which parsing never ends.
    pub fn parse_checked(&mut self) -> (r: Option<(Program, Vec<SyntaxError>)>)
        requires
            old(self).wf(),
        ensures
            final(self).tokens() == old(self).tokens(),
            match program_at(old(self).tokens(), old(self).position(), Seq::empty(), Seq::empty()) {
                None => r is None,
                Some((stmts, errors, end)) => {
                    &&& r is Some
                    &&& r->Some_0.0@ == stmts
                    &&& errors_model(r->Some_0.1@) == errors
                    &&& final(self).position() == end
                    &&& final(self).wf()
                },
            },
    {
        let ghost t = self.tokens@;
        let ghost p0 = self.current as int;
        let mut statements: Vec<Stmt> = Vec::new();
        let mut errors: Vec<SyntaxError> = Vec::new();
        assert(stmts_model(statements@) =~= Seq::empty());
        assert(errors_model(errors@) =~= Seq::empty());
        loop
            invariant_except_break
                self.wf(),
                self.tokens == old(self).tokens,
                self.tokens@ == t,
                t == old(self).tokens@,
                p0 == old(self).current,
                p0 <= self.current,
                program_at(t, p0, Seq::empty(), Seq::empty()) == program_at(
                    t,
                    self.current as int,
                    stmts_model(statements@),
                    errors_model(errors@),
                ),
            ensures
                self.wf(),
                self.tokens == old(self).tokens,
                program_at(t, p0, Seq::empty(), Seq::empty()) == Some(
                    (stmts_model(statements@), errors_model(errors@), self.current as int),
                ),
            decreases t.len() - self.current,
        {
            if self.is_at_end() {
                break;
            }
            let before = self.current;
            match self.declaration() {
                Ok(stmt) => {
                    proof {
                        lemma_stmts_model_push(statements@, stmt);
                    }
                    statements.push(stmt);
                },
                Err(ParseFail::Syntax(e)) => {
                    proof {
                        assert(errors_model(errors@.push(e)) =~= errors_model(errors@).push(e@));
                    }
                    errors.push(e);
                    self.synchronize();
                    if self.current == before {
                        return None;
                    }
                },
                Err(ParseFail::Halt) => {
                    return None;
                },
            }
        }
        Some((Program::new(statements), errors))
    }

    /// declaration := "fun" function | "var" variable declaration | statement
    fn declaration(&mut self) -> (r: Result<Stmt, ParseFail>)
        requires
            old(self).wf(),
        ensures
            moved(*old(self), *final(self)),
            (stmt_res(r), final(self).current as int) == declaration_at(
                old(self).tokens@,
                old(self).current as int,
            ),
            r is Ok ==> final(self).current > old(self).current,
        decreases old(self).tokens@.len() - old(self).current, 70int,
    {
        match self.peek_kind() {
            TokenKind::Fun => {
                self.bump();
                self.function()
            },
            TokenKind::Var => {
                self.bump();
                self.var_declaration()
            },
            _ => self.statement(),
        }
    }

    /// function declaration (after `fun`)
    fn function(&mut self) -> (r: Result<Stmt, ParseFail>)
        requires
            old(self).wf(),
        ensures
            moved(*old(self), *final(self)),
            (stmt_res(r), final(self).current as int) == function_at(
                old(self).tokens@,
                old(self).current as int,
            ),
            r is Ok ==> final(self).current > old(self).current,
        decreases old(self).tokens@.len() - old(self).current, 60int,
    {
        let ghost t = self.tokens@;
        let name = self.consume_ident()?;
        self.consume(TokenKind::LParen)?;
        let ghost p2 = self.current as int;
        let mut params: Vec<String> = Vec::new();
        assert(names_model(params@) =~= Seq::empty());
        if self.peek_kind() != TokenKind::RParen {
            loop
                invariant_except_break
                    self.wf(),
                    self.tokens == old(self).tokens,
                    self.tokens@ == t,
                    old(self).current < p2 <= self.current,
                    ident_at(t, old(self).current as int) == (
                        Ok::<Seq<char>, SFail>(name@),
                        old(self).current + 1,
                    ),
                    consume_at(t, old(self).current + 1, TokenKind::LParen) == (
                        Ok::<(), SFail>(()),
                        p2,
                    ),
                    kind_at(t, p2) != TokenKind::RParen,
                    params_at(t, p2, Seq::empty()) == params_at(
                        t,
                        self.current as int,
                        names_model(params@),
                    ),
                ensures
                    self.wf(),
                    self.tokens == old(self).tokens,
                    old(self).current < self.current,
                    params_at(t, p2, Seq::empty()) == (
                        Ok::<Seq<Seq<char>>, SFail>(names_model(params@)),
                        self.current as int,
                    ),
                decreases t.len() - self.current,
            {
                if params.len() >= 255 {
                    return Err(ParseFail::Syntax(SyntaxError::TooManyArguments));
                }
                let name = self.consume_ident()?;
                proof {
                    lemma_names_model_push(params@, name);
                }
                params.push(name);
                if !self.consume(TokenKind::Comma).is_ok() {
                    break;
                }
            }
        }
        self.consume(TokenKind::RParen)?;
        self.consume(TokenKind::LBrace)?;
        let body = self.block_statements()?;
        proof {
            lemma_function_model(name, params, body);
        }
        Ok(Stmt::Function { name, params, body })
    }

    /// variable declaration (after `var`)
    fn var_declaration(&mut self) -> (r: Result<Stmt, ParseFail>)
        requires
            old(self).wf(),
        ensures
            moved(*old(self), *final(self)),
            (stmt_res(r), final(self).current as int) == var_declaration_at(
                old(self).tokens@,
                old(self).current as int,
            ),
            r is Ok ==> final(self).current > old(self).current,
        decreases old(self).tokens@.len() - old(self).current, 58int,
    {
        let name = match self.peek_kind() {
            TokenKind::Identifier => {
                let name = match self.peek_lexeme() {
                    Some(name) => name,
                    None => {
                        return Err(ParseFail::Halt);
                    },
                };
                self.bump();
                name
            },
            kind => {
                return Err(unexpected(TokenKind::Identifier, kind));
            },
        };
        let initializer = if self.consume(TokenKind::Assign).is_ok() {
            Some(self.expression()?)
        } else {
            None
        };
        self.consume(TokenKind::Semicolon)?;
        Ok(Stmt::Var { name, initializer })
    }

    /// statement := print | if | block | while | for | expression statement
    fn statement(&mut self) -> (r: Result<Stmt, ParseFail>)
        requires
            old(self).wf(),
        ensures
            moved(*old(self), *final(self)),
            (stmt_res(r), final(self).current as int) == statement_at(
                old(self).tokens@,
                old(self).current as int,
            ),
            r is Ok ==> final(self).current > old(self).current,
        decreases old(self).tokens@.len() - old(self).current, 68int,
    {
        match self.peek_kind() {
            TokenKind::Print => {
                self.bump();
                self.print_statement()
            },
            TokenKind::If => {
                self.bump();
                self.if_statement()
            },
            TokenKind::LBrace => {
                self.bump();
                self.block()
            },
            TokenKind::While => {
                self.bump();
                self.while_statement()
            },
            TokenKind::For => {
                self.bump();
                self.for_statement()
            },
            _ => self.expression_statement(),
        }
    }

    /// print statement (after `print`)
    fn print_statement(&mut self) -> (r: Result<Stmt, ParseFail>)
        requires
            old(self).wf(),
        ensures
            moved(*old(self), *final(self)),
            (stmt_res(r), final(self).current as int) == print_statement_at(
                old(self).tokens@,
                old(self).current as int,
            ),
            r is Ok ==> final(self).current > old(self).current,
        decreases old(self).tokens@.len() - old(self).current, 64int,
    {
        let expr = self.expression()?;
        self.consume(TokenKind::Semicolon)?;
        Ok(Stmt::Print(expr))
    }

    /// if statement (after `if`)
    fn if_statement(&mut self) -> (r: Result<Stmt, ParseFail>)
        requires
            old(self).wf(),
        ensures
            moved(*old(self), *final(self)),
            (stmt_res(r), final(self).current as int) == if_statement_at(
                old(self).tokens@,
                old(self).current as int,
            ),
            r is Ok ==> final(self).current > old(self).current,
        decreases old(self).tokens@.len() - old(self).current, 62int,
    {
        self.consume(TokenKind::LParen)?;
        let condition = self.expression()?;
        self.consume(TokenKind::RParen)?;
        let then_branch = Box::new(self.statement()?);
        let else_branch = match self.consume(TokenKind::Else) {
            Ok(_) => Some(Box::new(self.statement()?)),
            _ => None,
        };
        Ok(Stmt::If { condition, then_branch, else_branch })
    }

    /// block (after `{`)
    fn block(&mut self) -> (r: Result<Stmt, ParseFail>)
        requires
            old(self).wf(),
        ensures
            moved(*old(self), *final(self)),
            (stmt_res(r), final(self).current as int) == block_at(
                old(self).tokens@,
                old(self).current as int,
            ),
            r is Ok ==> final(self).current > old(self).current,
        decreases old(self).tokens@.len() - old(self).current, 76int,
    {
        let stmts = self.block_statements()?;
        proof {
            lemma_block_model(stmts);
        }
        Ok(Stmt::Block(stmts))
    }

    /// The declarations of a block up to its `}`.
    fn block_statements(&mut self) -> (r: Result<Vec<Stmt>, ParseFail>)
        requires
            old(self).wf(),
        ensures
            moved(*old(self), *final(self)),
            (stmts_res(r), final(self).current as int) == block_statements_at(
                old(self).tokens@,
                old(self).current as int,
            ),
            r is Ok ==> final(self).current > old(self).current,
        decreases old(self).tokens@.len() - old(self).current, 74int,
    {
        let ghost t = self.tokens@;
        let ghost p0 = self.current as int;
        let mut statements: Vec<Stmt> = Vec::new();
        assert(stmts_model(statements@) =~= Seq::empty());
        loop
            invariant_except_break
                self.wf(),
                self.tokens == old(self).tokens,
                self.tokens@ == t,
                p0 == old(self).current,
                p0 <= self.current,
                block_statements_at(t, p0) == block_rest_at(
                    t,
                    self.current as int,
                    stmts_model(statements@),
                ),
            ensures
                self.wf(),
                self.tokens == old(self).tokens,
                p0 <= self.current,
                kind_at(t, self.current as int) == TokenKind::RBrace,
                block_statements_at(t, p0) == (
                    Ok::<Seq<SStmt>, SFail>(stmts_model(statements@)),
                    self.current + 1,
                ),
            decreases t.len() - self.current,
        {
            if self.peek_kind() == TokenKind::RBrace {
                break;
            }
            let stmt = self.declaration()?;
            proof {
                lemma_stmts_model_push(statements@, stmt);
            }
            statements.push(stmt);
        }
        self.consume(TokenKind::RBrace)?;
        Ok(statements)
    }

    /// while statement (after `while`)
    fn while_statement(&mut self) -> (r: Result<Stmt, ParseFail>)
        requires
            old(self).wf(),
        ensures
            moved(*old(self), *final(self)),
            (stmt_res(r), final(self).current as int) == while_at(
                old(self).tokens@,
                old(self).current as int,
            ),
            r is Ok ==> final(self).current > old(self).current,
        decreases old(self).tokens@.len() - old(self).current, 61int,
    {
        self.consume(TokenKind::LParen)?;
        let condition = self.expression()?;
        self.consume(TokenKind::RParen)?;
        let body = Box::new(self.statement()?);
        Ok(Stmt::While { condition, body })
    }

    /// for statement (after `for`), read as the loop it stands for
    #[verifier::rlimit(60)]
    fn for_statement(&mut self) -> (r: Result<Stmt, ParseFail>)
        requires
            old(self).wf(),
        ensures
            moved(*old(self), *final(self)),
            (stmt_res(r), final(self).current as int) == for_at(
                old(self).tokens@,
                old(self).current as int,
            ),
            r is Ok ==> final(self).current > old(self).current,
        decreases old(self).tokens@.len() - old(self).current, 63int,
    {
        self.consume(TokenKind::LParen)?;
        let initializer = match self.peek_kind() {
            TokenKind::Semicolon => None,
            TokenKind::Var => {
                self.bump();
                Some(self.var_declaration()?)
            },
            _ => Some(self.expression_statement()?),
        };
        let condition = match self.peek_kind() {
            TokenKind::Semicolon => Expr::Literal(Literal::Bool(true)),
            _ => self.expression()?,
        };
        self.consume(TokenKind::Semicolon)?;
        let increment = match self.peek_kind() {
            TokenKind::RParen => None,
            _ => Some(self.expression()?),
        };
        self.consume(TokenKind::RParen)?;
        let body = self.statement()?;
        let body = match increment {
            Some(stmt) => {
                let stmts = two_stmts(body, Stmt::Expr(stmt));
                proof {
                    lemma_block_model(stmts);
                }
                Stmt::Block(stmts)
            },
            None => body,
        };
        let body = Stmt::While { condition, body: Box::new(body) };
        let body = match initializer {
            Some(stmt) => {
                let stmts = two_stmts(stmt, body);
                proof {
                    lemma_block_model(stmts);
                }
                Stmt::Block(stmts)
            },
            None => body,
        };
        Ok(body)
    }

    /// expression statement := expression ";"
    fn expression_statement(&mut self) -> (r: Result<Stmt, ParseFail>)
        requires
            old(self).wf(),
        ensures
            moved(*old(self), *final(self)),
            (stmt_res(r), final(self).current as int) == expression_statement_at(
                old(self).tokens@,
                old(self).current as int,
            ),
            r is Ok ==> final(self).current > old(self).current,
        decreases old(self).tokens@.len() - old(self).current, 66int,
    {
        let expr = self.expression()?;
        self.consume(TokenKind::Semicolon)?;
        Ok(Stmt::Expr(expr))
    }

    /// expression := assignment
    fn expression(&mut self) -> (r: Result<Expr, ParseFail>)
        requires
            old(self).wf(),
        ensures
            moved(*old(self), *final(self)),
            (expr_res(r), final(self).current as int) == expression_at(
                old(self).tokens@,
                old(self).current as int,
            ),
            r is Ok ==> final(self).current > old(self).current,
        decreases old(self).tokens@.len() - old(self).current, 50int,
    {
        self.assignment()
    }

    /// assignment := or ( "=" assignment )?
    fn assignment(&mut self) -> (r: Result<Expr, ParseFail>)
        requires
            old(self).wf(),
        ensures
            moved(*old(self), *final(self)),
            (expr_res(r), final(self).current as int) == assignment_at(
                old(self).tokens@,
                old(self).current as int,
            ),
            r is Ok ==> final(self).current > old(self).current,
        decreases old(self).tokens@.len() - old(self).current, 48int,
    {
        let left = self.or()?;
        if self.peek_kind() == TokenKind::Assign {
            self.bump();
            let value = self.assignment()?;
            match left {
                Expr::Variable(name) => Ok(Expr::Assign { name, value: Box::new(value) }),
                _ => Err(ParseFail::Syntax(SyntaxError::InvalidExpression)),
            }
        } else {
            Ok(left)
        }
    }

    fn or(&mut self) -> (r: Result<Expr, ParseFail>)
        requires
            old(self).wf(),
        ensures
            moved(*old(self), *final(self)),
            (expr_res(r), final(self).current as int) == level_at(
                Level::Or,
                old(self).tokens@,
                old(self).current as int,
            ),
            r is Ok ==> final(self).current > old(self).current,
        decreases old(self).tokens@.len() - old(self).current, 40int,
    {
        let lhs = self.and()?;
        self.logical_left_associative(lhs, Level::Or)
    }

    fn and(&mut self) -> (r: Result<Expr, ParseFail>)
        requires
            old(self).wf(),
        ensures
            moved(*old(self), *final(self)),
            (expr_res(r), final(self).current as int) == level_at(
                Level::And,
                old(self).tokens@,
                old(self).current as int,
            ),
            r is Ok ==> final(self).current > old(self).current,
        decreases old(self).tokens@.len() - old(self).current, 38int,
    {
        let lhs = self.equality()?;
        self.logical_left_associative(lhs, Level::And)
    }

    fn equality(&mut self) -> (r: Result<Expr, ParseFail>)
        requires
            old(self).wf(),
        ensures
            moved(*old(self), *final(self)),
            (expr_res(r), final(self).current as int) == level_at(
                Level::Equality,
                old(self).tokens@,
                old(self).current as int,
            ),
            r is Ok ==> final(self).current > old(self).current,
        decreases old(self).tokens@.len() - old(self).current, 36int,
    {
        let lhs = self.comparison()?;
        self.binary_left_associative(lhs, Level::Equality)
    }

    fn comparison(&mut self) -> (r: Result<Expr, ParseFail>)
        requires
            old(self).wf(),
        ensures
            moved(*old(self), *final(self)),
            (expr_res(r), final(self).current as int) == level_at(
                Level::Comparison,
                old(self).tokens@,
                old(self).current as int,
            ),
            r is Ok ==> final(self).current > old(self).current,
        decreases old(self).tokens@.len() - old(self).current, 34int,
    {
        let lhs = self.term()?;
        self.binary_left_associative(lhs, Level::Comparison)
    }

    fn term(&mut self) -> (r: Result<Expr, ParseFail>)
        requires
            old(self).wf(),
        ensures
            moved(*old(self), *final(self)),
            (expr_res(r), final(self).current as int) == level_at(
                Level::Term,
                old(self).tokens@,
                old(self).current as int,
            ),
            r is Ok ==> final(self).current > old(self).current,
        decreases old(self).tokens@.len() - old(self).current, 32int,
    {
        let lhs = self.factor()?;
        self.binary_left_associative(lhs, Level::Term)
    }

    fn factor(&mut self) -> (r: Result<Expr, ParseFail>)
        requires
            old(self).wf(),
        ensures
            moved(*old(self), *final(self)),
            (expr_res(r), final(self).current as int) == level_at(
                Level::Factor,
                old(self).tokens@,
                old(self).current as int,
            ),
            r is Ok ==> final(self).current > old(self).current,
        decreases old(self).tokens@.len() - old(self).current, 30int,
    {
        let lhs = self.unary()?;
        self.binary_left_associative(lhs, Level::Factor)
    }

    /// The operands of a level: the next tighter level.
    fn operand(&mut self, level: Level) -> (r: Result<Expr, ParseFail>)
        requires
            old(self).wf(),
        ensures
            moved(*old(self), *final(self)),
            (expr_res(r), final(self).current as int) == operand_at(
                level,
                old(self).tokens@,
                old(self).current as int,
            ),
            r is Ok ==> final(self).current > old(self).current,
        decreases old(self).tokens@.len() - old(self).current, level_rank(level) - 1,
    {
        match level {
            Level::Or => self.and(),
            Level::And => self.equality(),
            Level::Equality => self.comparison(),
            Level::Comparison => self.term(),
            Level::Term => self.factor(),
            Level::Factor => self.unary(),
        }
    }

    /// unary := ( "!" | "-" ) unary | call
    fn unary(&mut self) -> (r: Result<Expr, ParseFail>)
        requires
            old(self).wf(),
        ensures
            moved(*old(self), *final(self)),
            (expr_res(r), final(self).current as int) == unary_at(
                old(self).tokens@,
                old(self).current as int,
            ),
            r is Ok ==> final(self).current > old(self).current,
        decreases old(self).tokens@.len() - old(self).current, 20int,
    {
        let op = match self.peek_kind() {
            TokenKind::Bang => UnaryOp::Not,
            TokenKind::Minus => UnaryOp::Negate,
            _ => {
                return self.call();
            },
        };
        self.bump();
        let right = self.unary()?;
        Ok(Expr::Unary { op, right: Box::new(right) })
    }

    /// call := primary ( "(" arguments? ")" )*
    fn call(&mut self) -> (r: Result<Expr, ParseFail>)
        requires
            old(self).wf(),
        ensures
            moved(*old(self), *final(self)),
            (expr_res(r), final(self).current as int) == call_at(
                old(self).tokens@,
                old(self).current as int,
            ),
            r is Ok ==> final(self).current > old(self).current,
        decreases old(self).tokens@.len() - old(self).current, 18int,
    {
        let ghost t = self.tokens@;
        let ghost p0 = self.current as int;
        let mut expr = self.primary()?;
        loop
            invariant_except_break
                self.wf(),
                self.tokens == old(self).tokens,
                self.tokens@ == t,
                p0 == old(self).current,
                p0 < self.current,
                call_at(t, p0) == call_rest_at(t, self.current as int, expr@),
            ensures
                self.wf(),
                self.tokens == old(self).tokens,
                p0 < self.current,
                call_at(t, p0) == (Ok::<SExpr, SFail>(expr@), self.current as int),
            decreases t.len() - self.current,
        {
            match self.peek_kind() {
                TokenKind::LParen => {
                    self.bump();
                    expr = self.finish_call(expr)?;
                },
                _ => {
                    break;
                },
            }
        }
        Ok(expr)
    }

    /// The arguments and closing `)` of a call whose `(` was read.
    fn finish_call(&mut self, expr: Expr) -> (r: Result<Expr, ParseFail>)
        requires
            old(self).wf(),
        ensures
            moved(*old(self), *final(self)),
            (expr_res(r), final(self).current as int) == finish_call_at(
                old(self).tokens@,
                old(self).current as int,
                expr@,
            ),
            r is Ok ==> final(self).current > old(self).current,
        decreases old(self).tokens@.len() - old(self).current, 54int,
    {
        let ghost t = self.tokens@;
        let ghost p0 = self.current as int;
        let mut arguments: Vec<Expr> = Vec::new();
        assert(exprs_model(arguments@) =~= Seq::empty());
        if self.peek_kind() != TokenKind::RParen {
            loop
                invariant_except_break
                    self.wf(),
                    self.tokens == old(self).tokens,
                    self.tokens@ == t,
                    p0 == old(self).current,
                    p0 <= self.current,
                    kind_at(t, p0) != TokenKind::RParen,
                    arguments_at(t, p0, Seq::empty()) == arguments_at(
                        t,
                        self.current as int,
                        exprs_model(arguments@),
                    ),
                ensures
                    self.wf(),
                    self.tokens == old(self).tokens,
                    p0 <= self.current,
                    arguments_at(t, p0, Seq::empty()) == (
                        Ok::<Seq<SExpr>, SFail>(exprs_model(arguments@)),
                        self.current as int,
                    ),
                decreases t.len() - self.current,
            {
                if arguments.len() >= 255 {
                    return Err(ParseFail::Syntax(SyntaxError::TooManyArguments));
                }
                let argument = self.expression()?;
                proof {
                    lemma_exprs_model_push(arguments@, argument);
                }
                arguments.push(argument);
                if !self.consume(TokenKind::Comma).is_ok() {
                    break;
                }
            }
        }
        self.consume(TokenKind::RParen)?;
        let callee = Box::new(expr);
        proof {
            lemma_call_model(callee, arguments);
        }
        Ok(Expr::Call { callee, arguments })
    }

    /// primary := "false" | "true" | "nil" | STRING | NUMBER | IDENTIFIER
    fn primary(&mut self) -> (r: Result<Expr, ParseFail>)
        requires
            old(self).wf(),
        ensures
            moved(*old(self), *final(self)),
            (expr_res(r), final(self).current as int) == primary_at(
                old(self).tokens@,
                old(self).current as int,
            ),
            r is Ok ==> final(self).current > old(self).current,
    {
        let literal = match self.peek_kind() {
            TokenKind::False => Expr::Literal(Literal::Bool(false)),
            TokenKind::True => Expr::Literal(Literal::Bool(true)),
            TokenKind::Nil => Expr::Literal(Literal::Nil),
            TokenKind::String => match self.peek_lexeme() {
                Some(s) => Expr::Literal(Literal::String(s)),
                None => {
                    return Err(ParseFail::Halt);
                },
            },
            TokenKind::Number => match self.peek_lexeme() {
                Some(s) => Expr::Literal(Literal::Number(s)),
                None => {
                    return Err(ParseFail::Halt);
                },
            },
            TokenKind::Identifier => match self.peek_lexeme() {
                Some(s) => Expr::Variable(s),
                None => {
                    return Err(ParseFail::Halt);
                },
            },
            TokenKind::LParen => {
                // A group would be parsed by entering `expression` again at
                // this same `(`, which leads back here without end.
                return Err(ParseFail::Halt);
            },
            kind => {
                return Err(
                    ParseFail::Syntax(
                        SyntaxError::UnexpectedToken { expected: Self::primary_kinds(), found: kind },
                    ),
                );
            },
        };
        self.bump();
        Ok(literal)
    }

    fn primary_kinds() -> (v: Vec<TokenKind>)
        ensures
            v@ == primary_expected(),
    {
        let mut v = Vec::new();
        v.push(TokenKind::False);
        v.push(TokenKind::True);
        v.push(TokenKind::Nil);
        v.push(TokenKind::String);
        v.push(TokenKind::Number);
        v.push(TokenKind::Identifier);
        v.push(TokenKind::LParen);
        assert(v@ =~= primary_expected());
        v
    }

    /// The binary operator a token stands for at a level.
    fn binary_op(level: Level, kind: TokenKind) -> (r: Option<BinaryOp>)
        ensures
            r == binary_op_for(level, kind),
    {
        match level {
            Level::Equality => match kind {
                TokenKind::Eq => Some(BinaryOp::Eq),
                TokenKind::Neq => Some(BinaryOp::Neq),
                _ => None,
            },
            Level::Comparison => match kind {
                TokenKind::Gt => Some(BinaryOp::Gt),
                TokenKind::Gte => Some(BinaryOp::Gte),
                TokenKind::Lt => Some(BinaryOp::Lt),
                TokenKind::Lte => Some(BinaryOp::Lte),
                _ => None,
            },
            Level::Term => match kind {
                TokenKind::Plus => Some(BinaryOp::Add),
                TokenKind::Minus => Some(BinaryOp::Sub),
                _ => None,
            },
            Level::Factor => match kind {
                TokenKind::Slash => Some(BinaryOp::Div),
                TokenKind::Star => Some(BinaryOp::Mul),
                _ => None,
            },
            _ => None,
        }
    }

    /// The logical operator a token stands for at a level.
    fn logical_op(level: Level, kind: TokenKind) -> (r: Option<LogicalOp>)
        ensures
            r == logical_op_for(level, kind),
    {
        match level {
            Level::Or => match kind {
                TokenKind::Or => Some(LogicalOp::Or),
                _ => None,
            },
            Level::And => match kind {
                TokenKind::And => Some(LogicalOp::And),
                _ => None,
            },
            _ => None,
        }
    }

    /// Reads `op operand` pairs of a level after its left operand, grouping
    /// to the left.
    fn binary_left_associative(&mut self, lhs: Expr, level: Level) -> (r: Result<Expr, ParseFail>)
        requires
            old(self).wf(),
        ensures
            moved(*old(self), *final(self)),
            (expr_res(r), final(self).current as int) == binary_rest_at(
                level,
                old(self).tokens@,
                old(self).current as int,
                lhs@,
            ),
        decreases old(self).tokens@.len() - old(self).current, 10int,
    {
        let ghost t = self.tokens@;
        let ghost p0 = self.current as int;
        let ghost lhs0 = lhs@;
        let mut acc = lhs;
        loop
            invariant_except_break
                lhs0 == lhs@,
                self.wf(),
                self.tokens == old(self).tokens,
                self.tokens@ == t,
                p0 == old(self).current,
                p0 <= self.current,
                binary_rest_at(level, t, p0, lhs0) == binary_rest_at(
                    level,
                    t,
                    self.current as int,
                    acc@,
                ),
            ensures
                lhs0 == lhs@,
                self.wf(),
                self.tokens == old(self).tokens,
                p0 <= self.current,
                binary_rest_at(level, t, p0, lhs0) == (
                    Ok::<SExpr, SFail>(acc@),
                    self.current as int,
                ),
            decreases t.len() - self.current,
        {
            let op = match Self::binary_op(level, self.peek_kind()) {
                Some(op) => op,
                None => {
                    break;
                },
            };
            self.bump();
            let rhs = self.operand(level)?;
            acc = Expr::Binary { left: Box::new(acc), op, right: Box::new(rhs) };
        }
        Ok(acc)
    }

    /// Reads `op operand` pairs of a logical level after its left operand,
    /// grouping to the left.
    fn logical_left_associative(&mut self, lhs: Expr, level: Level) -> (r: Result<Expr, ParseFail>)
        requires
            old(self).wf(),
        ensures
            moved(*old(self), *final(self)),
            (expr_res(r), final(self).current as int) == logical_rest_at(
                level,
                old(self).tokens@,
                old(self).current as int,
                lhs@,
            ),
        decreases old(self).tokens@.len() - old(self).current, 10int,
    {
        let ghost t = self.tokens@;
        let ghost p0 = self.current as int;
        let ghost lhs0 = lhs@;
        let mut acc = lhs;
        loop
            invariant_except_break
                lhs0 == lhs@,
                self.wf(),
                self.tokens == old(self).tokens,
                self.tokens@ == t,
                p0 == old(self).current,
                p0 <= self.current,
                logical_rest_at(level, t, p0, lhs0) == logical_rest_at(
                    level,
                    t,
                    self.current as int,
                    acc@,
                ),
            ensures
                lhs0 == lhs@,
                self.wf(),
                self.tokens == old(self).tokens,
                p0 <= self.current,
                logical_rest_at(level, t, p0, lhs0) == (
                    Ok::<SExpr, SFail>(acc@),
                    self.current as int,
                ),
            decreases t.len() - self.current,
        {
            let op = match Self::logical_op(level, self.peek_kind()) {
                Some(op) => op,
                None => {
                    break;
                },
            };
            self.bump();
            let rhs = self.operand(level)?;
            acc = Expr::Logical { left: Box::new(acc), op, right: Box::new(rhs) };
        }
        Ok(acc)
    }

    /// Moves past a token that is not the `Eof`.
    fn bump(&mut self)
        requires
            old(self).wf(),
            kind_at(old(self).tokens@, old(self).current as int) != TokenKind::Eof,
        ensures
            final(self).tokens == old(self).tokens,
            final(self).wf(),
            final(self).current == old(self).current + 1,
    {
        assert(self.current < self.tokens.len());
        self.current = self.current + 1;
    }

    fn peek(&self) -> (t: &Token)
        requires
            self.wf(),
        ensures
            self.current < self.tokens@.len(),
            *t == self.tokens@[self.current as int],
    {
        &self.tokens[self.current]
    }

    fn peek_kind(&self) -> (k: TokenKind)
        requires
            self.wf(),
        ensures
            k == kind_at(self.tokens@, self.current as int),
            self.current < self.tokens@.len(),
    {
        self.tokens[self.current].kind
    }

    /// A copy of the lexeme of the next token.
    fn peek_lexeme(&self) -> (l: Option<String>)
        requires
            self.wf(),
        ensures
            match l {
                Some(s) => lexeme_at(self.tokens@, self.current as int) == Some(s@),
                None => lexeme_at(self.tokens@, self.current as int) is None,
            },
    {
        match &self.peek().lexeme {
            Some(s) => Some(s.clone()),
            None => None,
        }
    }

    /// Reads a token of the expected kind. Reading the `Eof` itself would
    /// step past the last token, so `Eof` may be expected only where another
    /// token stands.
    fn consume(&mut self, expected: TokenKind) -> (r: Result<(), ParseFail>)
        requires
            old(self).wf(),
            expected == TokenKind::Eof ==> kind_at(old(self).tokens@, old(self).current as int)
                != TokenKind::Eof,
        ensures
            moved(*old(self), *final(self)),
            (unit_res(r), final(self).current as int) == consume_at(
                old(self).tokens@,
                old(self).current as int,
                expected,
            ),
    {
        let found = self.peek_kind();
        if found == expected {
            self.bump();
            Ok(())
        } else {
            Err(unexpected(expected, found))
        }
    }

    /// Reads an identifier, giving its name.
    fn consume_ident(&mut self) -> (r: Result<String, ParseFail>)
        requires
            old(self).wf(),
        ensures
            moved(*old(self), *final(self)),
            (name_res(r), final(self).current as int) == ident_at(
                old(self).tokens@,
                old(self).current as int,
            ),
    {
        match self.peek_kind() {
            TokenKind::Identifier => {
                let name = match self.peek_lexeme() {
                    Some(name) => name,
                    None => {
                        return Err(ParseFail::Halt);
                    },
                };
                self.bump();
                Ok(name)
            },
            kind => Err(unexpected(TokenKind::Identifier, kind)),
        }
    }

    fn is_at_end(&self) -> (r: bool)
        requires
            self.wf(),
        ensures
            r == (kind_at(self.tokens@, self.current as int) == TokenKind::Eof),
    {
        self.peek_kind() == TokenKind::Eof
    }

    /// Moves past tokens to where parsing resumes after an error.
    fn synchronize(&mut self)
        requires
            old(self).wf(),
        ensures
            moved(*old(self), *final(self)),
            final(self).current == synchronize_at(old(self).tokens@, old(self).current as int),
    {
        let ghost t = self.tokens@;
        let ghost p0 = self.current as int;
        loop
            invariant
                self.wf(),
                self.tokens == old(self).tokens,
                self.tokens@ == t,
                p0 == old(self).current,
                p0 <= self.current,
                synchronize_at(t, p0) == synchronize_at(t, self.current as int),
            decreases t.len() - self.current,
        {
            match self.peek_kind() {
                TokenKind::Class | TokenKind::Fun | TokenKind::Var | TokenKind::For
                | TokenKind::If | TokenKind::While | TokenKind::Print | TokenKind::Return
                | TokenKind::Eof => {
                    return;
                },
                TokenKind::Semicolon => {
                    self.bump();
                    return;
                },
                _ => {},
            }
            self.bump();
        }
    }
}

} // verus!
