//! The grammar the parser recognises, stated over a sequence of tokens: for a
//! position, what each rule yields and where it stops.
//!
//! A rule yields a syntax tree, a syntax error (the position then says where
//! the error was found), or `Halt` where parsing never comes back: a `(` where
//! an operand is expected sends the descent into the expression rule again at
//! the same token, with no end, and an identifier, string or number token
//! without a lexeme cannot be read.
//!
//! Some rules continue at a position reached by another rule; those steps are
//! guarded by the position having moved forward, which every successful rule
//! guarantees (the exec functions prove it), so the guards never fail on a
//! reachable path.

use vstd::prelude::*;

use super::error::SSyntaxError;
use super::grammar::{BinaryOp, LogicalOp, SExpr, SLiteral, SStmt, UnaryOp};
use crate::lexer::token::lexeme_view;
use crate::lexer::{Token, TokenKind};

verus! {

/// How a rule fails.
pub enum SFail {
    Syntax(SSyntaxError),
    Halt,
}

/// The binding strength of binary operators, loosest first.
#[derive(Debug, Clone, Copy, PartialEq, Eq, Structural)]
pub enum Level {
    Or,
    And,
    Equality,
    Comparison,
    Term,
    Factor,
}

/// The kind of the token at `p`; past the end, `Eof`.
pub open spec fn kind_at(t: Seq<Token>, p: int) -> TokenKind {
    if 0 <= p < t.len() {
        t[p].kind
    } else {
        TokenKind::Eof
    }
}

pub open spec fn lexeme_at(t: Seq<Token>, p: int) -> Option<Seq<char>> {
    if 0 <= p < t.len() {
        lexeme_view(t[p].lexeme)
    } else {
        None
    }
}

pub open spec fn unexpected(expected: Seq<TokenKind>, found: TokenKind) -> SFail {
    SFail::Syntax(SSyntaxError::UnexpectedToken { expected, found })
}

/// Whether the parse moved forward from `p` to `q`, staying in the sequence.
pub open spec fn advanced(t: Seq<Token>, p: int, q: int) -> bool {
    p < q <= t.len()
}

/// Reads a token of kind `k`.
pub open spec fn consume_at(t: Seq<Token>, p: int, k: TokenKind) -> (Result<(), SFail>, int) {
    if kind_at(t, p) == k {
        (Ok(()), p + 1)
    } else {
        (Err(unexpected(seq![k], kind_at(t, p))), p)
    }
}

/// Reads an identifier, giving its name.
pub open spec fn ident_at(t: Seq<Token>, p: int) -> (Result<Seq<char>, SFail>, int) {
    if kind_at(t, p) == TokenKind::Identifier {
        match lexeme_at(t, p) {
            Some(name) => (Ok(name), p + 1),
            None => (Err(SFail::Halt), p),
        }
    } else {
        (Err(unexpected(seq![TokenKind::Identifier], kind_at(t, p))), p)
    }
}

/// The logical operator a token stands for at a level.
pub open spec fn logical_op_for(level: Level, k: TokenKind) -> Option<LogicalOp> {
    match level {
        Level::Or => if k == TokenKind::Or {
            Some(LogicalOp::Or)
        } else {
            None
        },
        Level::And => if k == TokenKind::And {
            Some(LogicalOp::And)
        } else {
            None
        },
        _ => None,
    }
}

/// The binary operator a token stands for at a level.
pub open spec fn binary_op_for(level: Level, k: TokenKind) -> Option<BinaryOp> {
    match level {
        Level::Equality => if k == TokenKind::Eq {
            Some(BinaryOp::Eq)
        } else if k == TokenKind::Neq {
            Some(BinaryOp::Neq)
        } else {
            None
        },
        Level::Comparison => if k == TokenKind::Gt {
            Some(BinaryOp::Gt)
        } else if k == TokenKind::Gte {
            Some(BinaryOp::Gte)
        } else if k == TokenKind::Lt {
            Some(BinaryOp::Lt)
        } else if k == TokenKind::Lte {
            Some(BinaryOp::Lte)
        } else {
            None
        },
        Level::Term => if k == TokenKind::Plus {
            Some(BinaryOp::Add)
        } else if k == TokenKind::Minus {
            Some(BinaryOp::Sub)
        } else {
            None
        },
        Level::Factor => if k == TokenKind::Slash {
            Some(BinaryOp::Div)
        } else if k == TokenKind::Star {
            Some(BinaryOp::Mul)
        } else {
            None
        },
        _ => None,
    }
}

pub open spec fn is_logical(level: Level) -> bool {
    level == Level::Or || level == Level::And
}

pub open spec fn level_rank(level: Level) -> int {
    match level {
        Level::Or => 40,
        Level::And => 38,
        Level::Equality => 36,
        Level::Comparison => 34,
        Level::Term => 32,
        Level::Factor => 30,
    }
}

/// The kinds a primary expression may start with.
pub open spec fn primary_expected() -> Seq<TokenKind> {
    seq![
        TokenKind::False,
        TokenKind::True,
        TokenKind::Nil,
        TokenKind::String,
        TokenKind::Number,
        TokenKind::Identifier,
        TokenKind::LParen,
    ]
}

pub open spec fn literal_expr(l: SLiteral) -> SExpr {
    SExpr::Literal(l)
}

/// primary := "false" | "true" | "nil" | STRING | NUMBER | IDENTIFIER
pub open spec fn primary_at(t: Seq<Token>, p: int) -> (Result<SExpr, SFail>, int) {
    let k = kind_at(t, p);
    if k == TokenKind::False {
        (Ok(literal_expr(SLiteral::Bool(false))), p + 1)
    } else if k == TokenKind::True {
        (Ok(literal_expr(SLiteral::Bool(true))), p + 1)
    } else if k == TokenKind::Nil {
        (Ok(literal_expr(SLiteral::Nil)), p + 1)
    } else if k == TokenKind::String {
        match lexeme_at(t, p) {
            Some(l) => (Ok(literal_expr(SLiteral::Str(l))), p + 1),
            None => (Err(SFail::Halt), p),
        }
    } else if k == TokenKind::Number {
        match lexeme_at(t, p) {
            Some(l) => (Ok(literal_expr(SLiteral::Number(l))), p + 1),
            None => (Err(SFail::Halt), p),
        }
    } else if k == TokenKind::Identifier {
        match lexeme_at(t, p) {
            Some(l) => (Ok(SExpr::Variable(l)), p + 1),
            None => (Err(SFail::Halt), p),
        }
    } else if k == TokenKind::LParen {
        (Err(SFail::Halt), p)
    } else {
        (Err(unexpected(primary_expected(), k)), p)
    }
}

/// call := primary ( "(" arguments? ")" )*
pub open spec fn call_at(t: Seq<Token>, p: int) -> (Result<SExpr, SFail>, int)
    decreases t.len() - p, 18int,
{
    let (r, p1) = primary_at(t, p);
    match r {
        Err(x) => (Err(x), p1),
        Ok(e) => call_rest_at(t, p1, e),
    }
}

pub open spec fn call_rest_at(t: Seq<Token>, p: int, callee: SExpr) -> (Result<SExpr, SFail>, int)
    decreases t.len() - p, 17int,
{
    if kind_at(t, p) == TokenKind::LParen {
        let (r, p1) = finish_call_at(t, p + 1, callee);
        match r {
            Err(x) => (Err(x), p1),
            Ok(e) => if advanced(t, p, p1) {
                call_rest_at(t, p1, e)
            } else {
                (Err(SFail::Halt), p1)
            },
        }
    } else {
        (Ok(callee), p)
    }
}

/// The arguments and closing `)` of a call whose `(` was read.
pub open spec fn finish_call_at(t: Seq<Token>, p: int, callee: SExpr) -> (Result<SExpr, SFail>, int)
    decreases t.len() - p, 54int,
{
    let (ra, pa) = if kind_at(t, p) != TokenKind::RParen {
        arguments_at(t, p, Seq::empty())
    } else {
        (Ok(Seq::empty()), p)
    };
    match ra {
        Err(x) => (Err(x), pa),
        Ok(args) => {
            let (rc, pc) = consume_at(t, pa, TokenKind::RParen);
            match rc {
                Err(x) => (Err(x), pc),
                Ok(_) => (Ok(SExpr::Call { callee: Box::new(callee), arguments: args }), pc),
            }
        },
    }
}

/// arguments := expression ( "," expression )*, at most 255 of them; `acc`
/// holds those read so far.
pub open spec fn arguments_at(t: Seq<Token>, p: int, acc: Seq<SExpr>) -> (
    Result<Seq<SExpr>, SFail>,
    int,
)
    decreases t.len() - p, 52int,
{
    if acc.len() >= 255 {
        (Err(SFail::Syntax(SSyntaxError::TooManyArguments)), p)
    } else {
        let (r, p1) = expression_at(t, p);
        match r {
            Err(x) => (Err(x), p1),
            Ok(a) => {
                let acc2 = acc.push(a);
                if kind_at(t, p1) == TokenKind::Comma {
                    if p <= p1 {
                        arguments_at(t, p1 + 1, acc2)
                    } else {
                        (Err(SFail::Halt), p1)
                    }
                } else {
                    (Ok(acc2), p1)
                }
            },
        }
    }
}

/// unary := ( "!" | "-" ) unary | call
pub open spec fn unary_at(t: Seq<Token>, p: int) -> (Result<SExpr, SFail>, int)
    decreases t.len() - p, 20int,
{
    let k = kind_at(t, p);
    if k == TokenKind::Bang || k == TokenKind::Minus {
        let op = if k == TokenKind::Bang {
            UnaryOp::Not
        } else {
            UnaryOp::Negate
        };
        let (r, p1) = unary_at(t, p + 1);
        match r {
            Err(x) => (Err(x), p1),
            Ok(right) => (Ok(SExpr::Unary { op, right: Box::new(right) }), p1),
        }
    } else {
        call_at(t, p)
    }
}

/// The operands of a level: the next tighter level.
pub open spec fn operand_at(level: Level, t: Seq<Token>, p: int) -> (Result<SExpr, SFail>, int)
    decreases t.len() - p, level_rank(level) - 1,
{
    match level {
        Level::Or => level_at(Level::And, t, p),
        Level::And => level_at(Level::Equality, t, p),
        Level::Equality => level_at(Level::Comparison, t, p),
        Level::Comparison => level_at(Level::Term, t, p),
        Level::Term => level_at(Level::Factor, t, p),
        Level::Factor => unary_at(t, p),
    }
}

/// level := operand ( op operand )*, grouped to the left.
pub open spec fn level_at(level: Level, t: Seq<Token>, p: int) -> (Result<SExpr, SFail>, int)
    decreases t.len() - p, level_rank(level),
{
    let (r, p1) = operand_at(level, t, p);
    match r {
        Err(x) => (Err(x), p1),
        Ok(lhs) => if advanced(t, p, p1) {
            if is_logical(level) {
                logical_rest_at(level, t, p1, lhs)
            } else {
                binary_rest_at(level, t, p1, lhs)
            }
        } else {
            (Err(SFail::Halt), p1)
        },
    }
}

/// The rest of a chain of binary operators after its left operand `lhs`.
pub open spec fn binary_rest_at(level: Level, t: Seq<Token>, p: int, lhs: SExpr) -> (
    Result<SExpr, SFail>,
    int,
)
    decreases t.len() - p, 10int,
{
    match binary_op_for(level, kind_at(t, p)) {
        None => (Ok(lhs), p),
        Some(op) => {
            let (r, p1) = operand_at(level, t, p + 1);
            match r {
                Err(x) => (Err(x), p1),
                Ok(rhs) => {
                    let e = SExpr::Binary { left: Box::new(lhs), op, right: Box::new(rhs) };
                    if advanced(t, p, p1) {
                        binary_rest_at(level, t, p1, e)
                    } else {
                        (Err(SFail::Halt), p1)
                    }
                },
            }
        },
    }
}

/// The rest of a chain of logical operators after its left operand `lhs`.
pub open spec fn logical_rest_at(level: Level, t: Seq<Token>, p: int, lhs: SExpr) -> (
    Result<SExpr, SFail>,
    int,
)
    decreases t.len() - p, 10int,
{
    match logical_op_for(level, kind_at(t, p)) {
        None => (Ok(lhs), p),
        Some(op) => {
            let (r, p1) = operand_at(level, t, p + 1);
            match r {
                Err(x) => (Err(x), p1),
                Ok(rhs) => {
                    let e = SExpr::Logical { left: Box::new(lhs), op, right: Box::new(rhs) };
                    if advanced(t, p, p1) {
                        logical_rest_at(level, t, p1, e)
                    } else {
                        (Err(SFail::Halt), p1)
                    }
                },
            }
        },
    }
}

/// assignment := or ( "=" assignment )?, where the target must be a variable.
pub open spec fn assignment_at(t: Seq<Token>, p: int) -> (Result<SExpr, SFail>, int)
    decreases t.len() - p, 48int,
{
    let (r, p1) = level_at(Level::Or, t, p);
    match r {
        Err(x) => (Err(x), p1),
        Ok(left) => if kind_at(t, p1) == TokenKind::Assign {
            if p <= p1 {
                let (rv, p2) = assignment_at(t, p1 + 1);
                match rv {
                    Err(x) => (Err(x), p2),
                    Ok(value) => match left {
                        SExpr::Variable(name) => (
                            Ok(SExpr::Assign { name, value: Box::new(value) }),
                            p2,
                        ),
                        _ => (Err(SFail::Syntax(SSyntaxError::InvalidExpression)), p2),
                    },
                }
            } else {
                (Err(SFail::Halt), p1)
            }
        } else {
            (Ok(left), p1)
        },
    }
}

/// expression := assignment
pub open spec fn expression_at(t: Seq<Token>, p: int) -> (Result<SExpr, SFail>, int)
    decreases t.len() - p, 50int,
{
    assignment_at(t, p)
}

/// expression statement := expression ";"
pub open spec fn expression_statement_at(t: Seq<Token>, p: int) -> (Result<SStmt, SFail>, int)
    decreases t.len() - p, 66int,
{
    let (r, p1) = expression_at(t, p);
    match r {
        Err(x) => (Err(x), p1),
        Ok(e) => {
            let (rc, pc) = consume_at(t, p1, TokenKind::Semicolon);
            match rc {
                Err(x) => (Err(x), pc),
                Ok(_) => (Ok(SStmt::Expr(e)), pc),
            }
        },
    }
}

/// print statement (after `print`) := expression ";"
pub open spec fn print_statement_at(t: Seq<Token>, p: int) -> (Result<SStmt, SFail>, int)
    decreases t.len() - p, 64int,
{
    let (r, p1) = expression_at(t, p);
    match r {
        Err(x) => (Err(x), p1),
        Ok(e) => {
            let (rc, pc) = consume_at(t, p1, TokenKind::Semicolon);
            match rc {
                Err(x) => (Err(x), pc),
                Ok(_) => (Ok(SStmt::Print(e)), pc),
            }
        },
    }
}

/// variable declaration (after `var`) := IDENTIFIER ( "=" expression )? ";"
pub open spec fn var_declaration_at(t: Seq<Token>, p: int) -> (Result<SStmt, SFail>, int)
    decreases t.len() - p, 58int,
{
    if kind_at(t, p) == TokenKind::Identifier {
        match lexeme_at(t, p) {
            None => (Err(SFail::Halt), p),
            Some(name) => {
                let (ri, pi) = if kind_at(t, p + 1) == TokenKind::Assign {
                    let (r, q) = expression_at(t, p + 2);
                    match r {
                        Err(x) => (Err(x), q),
                        Ok(e) => (Ok(Some(e)), q),
                    }
                } else {
                    (Ok(None), p + 1)
                };
                match ri {
                    Err(x) => (Err(x), pi),
                    Ok(initializer) => {
                        let (rc, pc) = consume_at(t, pi, TokenKind::Semicolon);
                        match rc {
                            Err(x) => (Err(x), pc),
                            Ok(_) => (Ok(SStmt::Var { name, initializer }), pc),
                        }
                    },
                }
            },
        }
    } else {
        (Err(unexpected(seq![TokenKind::Identifier], kind_at(t, p))), p)
    }
}

/// if statement (after `if`) := "(" expression ")" statement ( "else" statement )?
pub open spec fn if_statement_at(t: Seq<Token>, p: int) -> (Result<SStmt, SFail>, int)
    decreases t.len() - p, 62int,
{
    let (r0, p0) = consume_at(t, p, TokenKind::LParen);
    match r0 {
        Err(x) => (Err(x), p0),
        Ok(_) => {
            let (rc, p1) = expression_at(t, p0);
            match rc {
                Err(x) => (Err(x), p1),
                Ok(condition) => {
                    let (r2, p2) = consume_at(t, p1, TokenKind::RParen);
                    match r2 {
                        Err(x) => (Err(x), p2),
                        Ok(_) => if advanced(t, p, p2) {
                            let (rt, p3) = statement_at(t, p2);
                            match rt {
                                Err(x) => (Err(x), p3),
                                Ok(then_branch) => if kind_at(t, p3) == TokenKind::Else {
                                    if p <= p3 {
                                        let (re, p4) = statement_at(t, p3 + 1);
                                        match re {
                                            Err(x) => (Err(x), p4),
                                            Ok(else_branch) => (
                                                Ok(
                                                    SStmt::If {
                                                        condition,
                                                        then_branch: Box::new(then_branch),
                                                        else_branch: Some(Box::new(else_branch)),
                                                    },
                                                ),
                                                p4,
                                            ),
                                        }
                                    } else {
                                        (Err(SFail::Halt), p3)
                                    }
                                } else {
                                    (
                                        Ok(
                                            SStmt::If {
                                                condition,
                                                then_branch: Box::new(then_branch),
                                                else_branch: None,
                                            },
                                        ),
                                        p3,
                                    )
                                },
                            }
                        } else {
                            (Err(SFail::Halt), p2)
                        },
                    }
                },
            }
        },
    }
}

/// block (after `{`) := declaration* "}"
pub open spec fn block_at(t: Seq<Token>, p: int) -> (Result<SStmt, SFail>, int)
    decreases t.len() - p, 76int,
{
    let (r, p1) = block_statements_at(t, p);
    match r {
        Err(x) => (Err(x), p1),
        Ok(stmts) => (Ok(SStmt::Block(stmts)), p1),
    }
}

pub open spec fn block_statements_at(t: Seq<Token>, p: int) -> (Result<Seq<SStmt>, SFail>, int)
    decreases t.len() - p, 74int,
{
    block_rest_at(t, p, Seq::empty())
}

/// The declarations of a block up to its `}`; `acc` holds those read so far.
pub open spec fn block_rest_at(t: Seq<Token>, p: int, acc: Seq<SStmt>) -> (
    Result<Seq<SStmt>, SFail>,
    int,
)
    decreases t.len() - p, 72int,
{
    if kind_at(t, p) == TokenKind::RBrace {
        (Ok(acc), p + 1)
    } else {
        let (r, p1) = declaration_at(t, p);
        match r {
            Err(x) => (Err(x), p1),
            Ok(s) => if advanced(t, p, p1) {
                block_rest_at(t, p1, acc.push(s))
            } else {
                (Err(SFail::Halt), p1)
            },
        }
    }
}

/// while statement (after `while`) := "(" expression ")" statement
pub open spec fn while_at(t: Seq<Token>, p: int) -> (Result<SStmt, SFail>, int)
    decreases t.len() - p, 61int,
{
    let (r0, p0) = consume_at(t, p, TokenKind::LParen);
    match r0 {
        Err(x) => (Err(x), p0),
        Ok(_) => {
            let (rc, p1) = expression_at(t, p0);
            match rc {
                Err(x) => (Err(x), p1),
                Ok(condition) => {
                    let (r2, p2) = consume_at(t, p1, TokenKind::RParen);
                    match r2 {
                        Err(x) => (Err(x), p2),
                        Ok(_) => if advanced(t, p, p2) {
                            let (rb, p3) = statement_at(t, p2);
                            match rb {
                                Err(x) => (Err(x), p3),
                                Ok(body) => (
                                    Ok(SStmt::While { condition, body: Box::new(body) }),
                                    p3,
                                ),
                            }
                        } else {
                            (Err(SFail::Halt), p2)
                        },
                    }
                },
            }
        },
    }
}

/// The loop a `for` statement stands for: the body followed by the
/// increment, repeated while the condition holds, after the initializer.
pub open spec fn desugar_for(
    initializer: Option<SStmt>,
    condition: SExpr,
    increment: Option<SExpr>,
    body: SStmt,
) -> SStmt {
    let body = match increment {
        Some(i) => SStmt::Block(seq![body, SStmt::Expr(i)]),
        None => body,
    };
    let looped = SStmt::While { condition, body: Box::new(body) };
    match initializer {
        Some(s) => SStmt::Block(seq![s, looped]),
        None => looped,
    }
}

/// for statement (after `for`) := "(" ( ";" | var declaration | expression
/// statement ) expression? ";" expression? ")" statement. A leading `;` is
/// left in place and read as the end of the missing condition, whose value is
/// then `true`.
pub open spec fn for_at(t: Seq<Token>, p: int) -> (Result<SStmt, SFail>, int)
    decreases t.len() - p, 63int,
{
    let (r0, q) = consume_at(t, p, TokenKind::LParen);
    match r0 {
        Err(x) => (Err(x), q),
        Ok(_) => {
            let k = kind_at(t, q);
            let (ri, q1) = if k == TokenKind::Semicolon {
                (Ok(None), q)
            } else if k == TokenKind::Var {
                let (r, q1) = var_declaration_at(t, q + 1);
                match r {
                    Err(x) => (Err(x), q1),
                    Ok(s) => (Ok(Some(s)), q1),
                }
            } else {
                let (r, q1) = expression_statement_at(t, q);
                match r {
                    Err(x) => (Err(x), q1),
                    Ok(s) => (Ok(Some(s)), q1),
                }
            };
            match ri {
                Err(x) => (Err(x), q1),
                Ok(initializer) => {
                    let (rc, q2) = if kind_at(t, q1) == TokenKind::Semicolon {
                        (Ok(literal_expr(SLiteral::Bool(true))), q1)
                    } else if advanced(t, p, q1) {
                        expression_at(t, q1)
                    } else {
                        (Err(SFail::Halt), q1)
                    };
                    match rc {
                        Err(x) => (Err(x), q2),
                        Ok(condition) => {
                            let (rs, q3) = consume_at(t, q2, TokenKind::Semicolon);
                            match rs {
                                Err(x) => (Err(x), q3),
                                Ok(_) => {
                                    let (rn, q4) = if kind_at(t, q3) == TokenKind::RParen {
                                        (Ok(None), q3)
                                    } else if advanced(t, p, q3) {
                                        let (r, q4) = expression_at(t, q3);
                                        match r {
                                            Err(x) => (Err(x), q4),
                                            Ok(e) => (Ok(Some(e)), q4),
                                        }
                                    } else {
                                        (Err(SFail::Halt), q3)
                                    };
                                    match rn {
                                        Err(x) => (Err(x), q4),
                                        Ok(increment) => {
                                            let (rp, q5) = consume_at(t, q4, TokenKind::RParen);
                                            match rp {
                                                Err(x) => (Err(x), q5),
                                                Ok(_) => if advanced(t, p, q5) {
                                                    let (rb, q6) = statement_at(t, q5);
                                                    match rb {
                                                        Err(x) => (Err(x), q6),
                                                        Ok(body) => (
                                                            Ok(
                                                                desugar_for(
                                                                    initializer,
                                                                    condition,
                                                                    increment,
                                                                    body,
                                                                ),
                                                            ),
                                                            q6,
                                                        ),
                                                    }
                                                } else {
                                                    (Err(SFail::Halt), q5)
                                                },
                                            }
                                        },
                                    }
                                },
                            }
                        },
                    }
                },
            }
        },
    }
}

/// The parameters of a function: IDENTIFIER ( "," IDENTIFIER )*, at most 255
/// of them; `acc` holds those read so far.
pub open spec fn params_at(t: Seq<Token>, p: int, acc: Seq<Seq<char>>) -> (
    Result<Seq<Seq<char>>, SFail>,
    int,
)
    decreases t.len() - p,
{
    if acc.len() >= 255 {
        (Err(SFail::Syntax(SSyntaxError::TooManyArguments)), p)
    } else {
        let (r, p1) = ident_at(t, p);
        match r {
            Err(x) => (Err(x), p1),
            Ok(name) => {
                let acc2 = acc.push(name);
                if kind_at(t, p1) == TokenKind::Comma {
                    params_at(t, p1 + 1, acc2)
                } else {
                    (Ok(acc2), p1)
                }
            },
        }
    }
}

pub proof fn lemma_params_at_forward(t: Seq<Token>, p: int, acc: Seq<Seq<char>>)
    ensures
        params_at(t, p, acc).1 >= p,
    decreases t.len() - p,
{
    if acc.len() < 255 {
        let (r, p1) = ident_at(t, p);
        if r is Ok && kind_at(t, p1) == TokenKind::Comma {
            lemma_params_at_forward(t, p1 + 1, acc.push(r->Ok_0));
        }
    }
}

/// function declaration (after `fun`) := IDENTIFIER "(" parameters? ")" "{" block
pub open spec fn function_at(t: Seq<Token>, p: int) -> (Result<SStmt, SFail>, int)
    decreases t.len() - p, 60int,
{
    let (rn, p1) = ident_at(t, p);
    match rn {
        Err(x) => (Err(x), p1),
        Ok(name) => {
            let (r2, p2) = consume_at(t, p1, TokenKind::LParen);
            match r2 {
                Err(x) => (Err(x), p2),
                Ok(_) => {
                    let (rp, p3) = if kind_at(t, p2) != TokenKind::RParen {
                        params_at(t, p2, Seq::empty())
                    } else {
                        (Ok(Seq::empty()), p2)
                    };
                    match rp {
                        Err(x) => (Err(x), p3),
                        Ok(params) => {
                            let (r4, p4) = consume_at(t, p3, TokenKind::RParen);
                            match r4 {
                                Err(x) => (Err(x), p4),
                                Ok(_) => {
                                    let (r5, p5) = consume_at(t, p4, TokenKind::LBrace);
                                    match r5 {
                                        Err(x) => (Err(x), p5),
                                        Ok(_) => {
                                            proof {
                                                lemma_params_at_forward(t, p2, Seq::empty());
                                            }
                                            let (rb, p6) = block_statements_at(t, p5);
                                            match rb {
                                                Err(x) => (Err(x), p6),
                                                Ok(body) => (
                                                    Ok(SStmt::Function { name, params, body }),
                                                    p6,
                                                ),
                                            }
                                        },
                                    }
                                },
                            }
                        },
                    }
                },
            }
        },
    }
}

/// statement := print | if | block | while | for | expression statement
pub open spec fn statement_at(t: Seq<Token>, p: int) -> (Result<SStmt, SFail>, int)
    decreases t.len() - p, 68int,
{
    let k = kind_at(t, p);
    if k == TokenKind::Print {
        print_statement_at(t, p + 1)
    } else if k == TokenKind::If {
        if_statement_at(t, p + 1)
    } else if k == TokenKind::LBrace {
        block_at(t, p + 1)
    } else if k == TokenKind::While {
        while_at(t, p + 1)
    } else if k == TokenKind::For {
        for_at(t, p + 1)
    } else {
        expression_statement_at(t, p)
    }
}

/// declaration := "fun" function | "var" variable declaration | statement
pub open spec fn declaration_at(t: Seq<Token>, p: int) -> (Result<SStmt, SFail>, int)
    decreases t.len() - p, 70int,
{
    let k = kind_at(t, p);
    if k == TokenKind::Fun {
        function_at(t, p + 1)
    } else if k == TokenKind::Var {
        var_declaration_at(t, p + 1)
    } else {
        statement_at(t, p)
    }
}

/// Where parsing resumes after an error: just after the next `;`, or at the
/// next token that can start a declaration, or at the end.
pub open spec fn synchronize_at(t: Seq<Token>, p: int) -> int
    decreases t.len() - p,
{
    let k = kind_at(t, p);
    if k == TokenKind::Class || k == TokenKind::Fun || k == TokenKind::Var || k == TokenKind::For
        || k == TokenKind::If || k == TokenKind::While || k == TokenKind::Print || k
        == TokenKind::Return || k == TokenKind::Eof {
        p
    } else if k == TokenKind::Semicolon {
        p + 1
    } else {
        synchronize_at(t, p + 1)
    }
}

/// A whole program from `p`: declarations up to the `Eof`, with each syntax
/// error recorded and parsing resumed where `synchronize_at` says. `None`
/// when parsing never ends: a declaration halts, or an error leaves the
/// parser where it started, so that the same error repeats forever.
pub open spec fn program_at(
    t: Seq<Token>,
    p: int,
    stmts: Seq<SStmt>,
    errors: Seq<SSyntaxError>,
) -> Option<(Seq<SStmt>, Seq<SSyntaxError>, int)>
    decreases t.len() - p,
{
    if kind_at(t, p) == TokenKind::Eof {
        Some((stmts, errors, p))
    } else {
        let (r, p1) = declaration_at(t, p);
        match r {
            Ok(s) => if advanced(t, p, p1) {
                program_at(t, p1, stmts.push(s), errors)
            } else {
                None
            },
            Err(SFail::Halt) => None,
            Err(SFail::Syntax(e)) => {
                let p2 = synchronize_at(t, p1);
                if advanced(t, p, p2) {
                    program_at(t, p2, stmts, errors.push(e))
                } else {
                    None
                }
            },
        }
    }
}

} // verus!
