//! A rule that succeeds reads only the tokens from where it starts to where
//! it stops, and gives the same result wherever those tokens stand. An
//! expression rule also looks at the token where it stops; a statement rule
//! looks there only to see whether an `else` follows.

use vstd::prelude::*;

use super::syntax::{
    advanced, desugar_for, lemma_params_at_forward, literal_expr, SFail, arguments_at, assignment_at, binary_op_for, binary_rest_at, block_at,
    block_rest_at, block_statements_at, call_at, call_rest_at, consume_at, declaration_at,
    expression_at, expression_statement_at, finish_call_at, for_at, function_at, ident_at,
    if_statement_at, is_logical, kind_at, level_at, level_rank, lexeme_at, logical_op_for,
    logical_rest_at, operand_at, params_at, primary_at, print_statement_at, statement_at,
    program_at, synchronize_at, unary_at, var_declaration_at, while_at, Level,
};
use super::error::SSyntaxError;
use super::grammar::{SExpr, SLiteral, SStmt};
use super::laws::{law_program_ends_at_eof, law_program_from_position};
use crate::lexer::joining::{kinds_lexemes, law_joined_sources_scan};
use crate::lexer::laws::lemma_stream_ends_with_eof;
use crate::lexer::rules::scan_all;
use crate::lexer::token::tokens_view;
use crate::lexer::{Token, TokenKind};

verus! {

/// The token at `i` of `t` and the token at `j` of `u` have the same kind
/// and lexeme.
pub open spec fn same_token(t: Seq<Token>, i: int, u: Seq<Token>, j: int) -> bool {
    kind_at(t, i) == kind_at(u, j) && lexeme_at(t, i) == lexeme_at(u, j)
}

/// The tokens of `t` in `lo..hi` are those of `u` moved on by `d`.
pub open spec fn agree(t: Seq<Token>, u: Seq<Token>, d: int, lo: int, hi: int) -> bool {
    forall|i: int| #![trigger kind_at(t, i)] lo <= i < hi ==> same_token(t, i, u, i + d)
}

/// `t` fits in `u` when moved on by `d`.
pub open spec fn fits(t: Seq<Token>, u: Seq<Token>, d: int) -> bool {
    0 <= d && t.len() + d <= u.len()
}

/// Where a statement stops, the two token sequences agree, or `t` has ended
/// and `u` does not go on with an `else`.
pub open spec fn cut_ok(t: Seq<Token>, u: Seq<Token>, d: int, e: int) -> bool {
    same_token(t, e, u, e + d) || (kind_at(t, e) == TokenKind::Eof && kind_at(u, e + d)
        != TokenKind::Else)
}

/// No token of `t` in `lo..hi` is the `Eof`.
pub open spec fn no_eof(t: Seq<Token>, lo: int, hi: int) -> bool {
    forall|i: int| #![trigger kind_at(t, i)] lo <= i < hi ==> kind_at(t, i) != TokenKind::Eof
}

proof fn no_eof_join(t: Seq<Token>, a: int, b: int, c: int)
    requires
        no_eof(t, a, b),
        no_eof(t, b, c),
        a <= b <= c,
    ensures
        no_eof(t, a, c),
{
    assert forall|i: int| a <= i < c implies kind_at(t, i) != TokenKind::Eof by {
        if i < b {
            assert(kind_at(t, i) == kind_at(t, i));
        } else {
            assert(kind_at(t, i) == kind_at(t, i));
        }
    }
}

proof fn no_eof_one(t: Seq<Token>, i: int)
    requires
        kind_at(t, i) != TokenKind::Eof,
    ensures
        no_eof(t, i, i + 1),
{
    assert forall|j: int| i <= j < i + 1 implies kind_at(t, j) != TokenKind::Eof by {
        assert(j == i);
    }
}

proof fn agree_at(t: Seq<Token>, u: Seq<Token>, d: int, lo: int, hi: int, i: int)
    requires
        agree(t, u, d, lo, hi),
        lo <= i < hi,
    ensures
        same_token(t, i, u, i + d),
{
    assert(kind_at(t, i) == kind_at(t, i));
}

proof fn frame_primary(t: Seq<Token>, u: Seq<Token>, d: int, p: int)
    requires
        fits(t, u, d),
        0 <= p,
        primary_at(t, p).0 is Ok,
        agree(t, u, d, p, primary_at(t, p).1 + 1),
    ensures
        primary_at(u, p + d) == (primary_at(t, p).0, primary_at(t, p).1 + d),
        p < primary_at(t, p).1,
        no_eof(t, p, primary_at(t, p).1),
{
    agree_at(t, u, d, p, primary_at(t, p).1 + 1, p);
}

proof fn frame_call(t: Seq<Token>, u: Seq<Token>, d: int, p: int)
    requires
        fits(t, u, d),
        0 <= p,
        call_at(t, p).0 is Ok,
        agree(t, u, d, p, call_at(t, p).1 + 1),
    ensures
        call_at(u, p + d) == (call_at(t, p).0, call_at(t, p).1 + d),
        p < call_at(t, p).1,
        no_eof(t, p, call_at(t, p).1),
    decreases t.len() - p, 18int,
{
    let (r, p1) = primary_at(t, p);
    let e = call_at(t, p).1;
    frame_call_rest(t, u, d, p1, r->Ok_0);
    frame_primary(t, u, d, p);
}

proof fn frame_call_rest(t: Seq<Token>, u: Seq<Token>, d: int, p: int, callee: SExpr)
    requires
        fits(t, u, d),
        0 <= p,
        call_rest_at(t, p, callee).0 is Ok,
        agree(t, u, d, p, call_rest_at(t, p, callee).1 + 1),
    ensures
        call_rest_at(u, p + d, callee) == (
            call_rest_at(t, p, callee).0,
            call_rest_at(t, p, callee).1 + d,
        ),
        p <= call_rest_at(t, p, callee).1,
        no_eof(t, p, call_rest_at(t, p, callee).1),
    decreases t.len() - p, 17int,
{
    let e = call_rest_at(t, p, callee).1;
    if kind_at(t, p) == TokenKind::LParen {
        let (r, p1) = finish_call_at(t, p + 1, callee);
        frame_call_rest(t, u, d, p1, r->Ok_0);
        frame_finish_call(t, u, d, p + 1, callee);
    }
    agree_at(t, u, d, p, e + 1, p);
}

proof fn frame_finish_call(t: Seq<Token>, u: Seq<Token>, d: int, p: int, callee: SExpr)
    requires
        fits(t, u, d),
        0 <= p,
        finish_call_at(t, p, callee).0 is Ok,
        agree(t, u, d, p, finish_call_at(t, p, callee).1 + 1),
    ensures
        finish_call_at(u, p + d, callee) == (
            finish_call_at(t, p, callee).0,
            finish_call_at(t, p, callee).1 + d,
        ),
        p < finish_call_at(t, p, callee).1,
        no_eof(t, p, finish_call_at(t, p, callee).1),
    decreases t.len() - p, 54int,
{
    let e = finish_call_at(t, p, callee).1;
    if kind_at(t, p) != TokenKind::RParen {
        frame_arguments(t, u, d, p, Seq::empty());
        let pa = arguments_at(t, p, Seq::empty()).1;
        agree_at(t, u, d, p, e + 1, pa);
        no_eof_one(t, pa);
        no_eof_join(t, p, pa, e);
    } else {
        no_eof_one(t, p);
    }
    agree_at(t, u, d, p, e + 1, p);
}

proof fn frame_arguments(t: Seq<Token>, u: Seq<Token>, d: int, p: int, acc: Seq<SExpr>)
    requires
        fits(t, u, d),
        0 <= p,
        arguments_at(t, p, acc).0 is Ok,
        agree(t, u, d, p, arguments_at(t, p, acc).1 + 1),
    ensures
        arguments_at(u, p + d, acc) == (arguments_at(t, p, acc).0, arguments_at(t, p, acc).1 + d),
        p < arguments_at(t, p, acc).1,
        no_eof(t, p, arguments_at(t, p, acc).1),
    decreases t.len() - p, 52int,
{
    let e = arguments_at(t, p, acc).1;
    let (r, p1) = expression_at(t, p);
    if kind_at(t, p1) == TokenKind::Comma {
        frame_arguments(t, u, d, p1 + 1, acc.push(r->Ok_0));
    }
    frame_expression(t, u, d, p);
    agree_at(t, u, d, p, e + 1, p1);
}

proof fn frame_unary(t: Seq<Token>, u: Seq<Token>, d: int, p: int)
    requires
        fits(t, u, d),
        0 <= p,
        unary_at(t, p).0 is Ok,
        agree(t, u, d, p, unary_at(t, p).1 + 1),
    ensures
        unary_at(u, p + d) == (unary_at(t, p).0, unary_at(t, p).1 + d),
        p < unary_at(t, p).1,
        no_eof(t, p, unary_at(t, p).1),
    decreases t.len() - p, 20int,
{
    let e = unary_at(t, p).1;
    let k = kind_at(t, p);
    if k == TokenKind::Bang || k == TokenKind::Minus {
        frame_unary(t, u, d, p + 1);
    } else {
        frame_call(t, u, d, p);
    }
    agree_at(t, u, d, p, e + 1, p);
}

proof fn frame_operand(level: Level, t: Seq<Token>, u: Seq<Token>, d: int, p: int)
    requires
        fits(t, u, d),
        0 <= p,
        operand_at(level, t, p).0 is Ok,
        agree(t, u, d, p, operand_at(level, t, p).1 + 1),
    ensures
        operand_at(level, u, p + d) == (operand_at(level, t, p).0, operand_at(level, t, p).1 + d),
        p < operand_at(level, t, p).1,
        no_eof(t, p, operand_at(level, t, p).1),
    decreases t.len() - p, level_rank(level) - 1,
{
    match level {
        Level::Or => frame_level(Level::And, t, u, d, p),
        Level::And => frame_level(Level::Equality, t, u, d, p),
        Level::Equality => frame_level(Level::Comparison, t, u, d, p),
        Level::Comparison => frame_level(Level::Term, t, u, d, p),
        Level::Term => frame_level(Level::Factor, t, u, d, p),
        Level::Factor => frame_unary(t, u, d, p),
    }
}

proof fn frame_level(level: Level, t: Seq<Token>, u: Seq<Token>, d: int, p: int)
    requires
        fits(t, u, d),
        0 <= p,
        level_at(level, t, p).0 is Ok,
        agree(t, u, d, p, level_at(level, t, p).1 + 1),
    ensures
        level_at(level, u, p + d) == (level_at(level, t, p).0, level_at(level, t, p).1 + d),
        p < level_at(level, t, p).1,
        no_eof(t, p, level_at(level, t, p).1),
    decreases t.len() - p, level_rank(level),
{
    let (r, p1) = operand_at(level, t, p);
    if is_logical(level) {
        frame_logical_rest(level, t, u, d, p1, r->Ok_0);
    } else {
        frame_binary_rest(level, t, u, d, p1, r->Ok_0);
    }
    frame_operand(level, t, u, d, p);
}

proof fn frame_binary_rest(level: Level, t: Seq<Token>, u: Seq<Token>, d: int, p: int, lhs: SExpr)
    requires
        fits(t, u, d),
        0 <= p,
        binary_rest_at(level, t, p, lhs).0 is Ok,
        agree(t, u, d, p, binary_rest_at(level, t, p, lhs).1 + 1),
    ensures
        binary_rest_at(level, u, p + d, lhs) == (
            binary_rest_at(level, t, p, lhs).0,
            binary_rest_at(level, t, p, lhs).1 + d,
        ),
        p <= binary_rest_at(level, t, p, lhs).1,
        no_eof(t, p, binary_rest_at(level, t, p, lhs).1),
    decreases t.len() - p, 10int,
{
    let e = binary_rest_at(level, t, p, lhs).1;
    match binary_op_for(level, kind_at(t, p)) {
        None => {},
        Some(op) => {
            let (r, p1) = operand_at(level, t, p + 1);
            let ex = SExpr::Binary { left: Box::new(lhs), op, right: Box::new(r->Ok_0) };
            frame_binary_rest(level, t, u, d, p1, ex);
            frame_operand(level, t, u, d, p + 1);
        },
    }
    agree_at(t, u, d, p, e + 1, p);
}

proof fn frame_logical_rest(level: Level, t: Seq<Token>, u: Seq<Token>, d: int, p: int, lhs: SExpr)
    requires
        fits(t, u, d),
        0 <= p,
        logical_rest_at(level, t, p, lhs).0 is Ok,
        agree(t, u, d, p, logical_rest_at(level, t, p, lhs).1 + 1),
    ensures
        logical_rest_at(level, u, p + d, lhs) == (
            logical_rest_at(level, t, p, lhs).0,
            logical_rest_at(level, t, p, lhs).1 + d,
        ),
        p <= logical_rest_at(level, t, p, lhs).1,
        no_eof(t, p, logical_rest_at(level, t, p, lhs).1),
    decreases t.len() - p, 10int,
{
    let e = logical_rest_at(level, t, p, lhs).1;
    match logical_op_for(level, kind_at(t, p)) {
        None => {},
        Some(op) => {
            let (r, p1) = operand_at(level, t, p + 1);
            let ex = SExpr::Logical { left: Box::new(lhs), op, right: Box::new(r->Ok_0) };
            frame_logical_rest(level, t, u, d, p1, ex);
            frame_operand(level, t, u, d, p + 1);
        },
    }
    agree_at(t, u, d, p, e + 1, p);
}

proof fn frame_assignment(t: Seq<Token>, u: Seq<Token>, d: int, p: int)
    requires
        fits(t, u, d),
        0 <= p,
        assignment_at(t, p).0 is Ok,
        agree(t, u, d, p, assignment_at(t, p).1 + 1),
    ensures
        assignment_at(u, p + d) == (assignment_at(t, p).0, assignment_at(t, p).1 + d),
        p < assignment_at(t, p).1,
        no_eof(t, p, assignment_at(t, p).1),
    decreases t.len() - p, 48int,
{
    let e = assignment_at(t, p).1;
    let (r, p1) = level_at(Level::Or, t, p);
    if kind_at(t, p1) == TokenKind::Assign {
        let p2 = assignment_at(t, p1 + 1).1;
        assert(e == p2);
        frame_assignment(t, u, d, p1 + 1);
        frame_level(Level::Or, t, u, d, p);
        no_eof_one(t, p1);
        no_eof_join(t, p, p1, p1 + 1);
        no_eof_join(t, p, p1 + 1, p2);
    } else {
        assert(e == p1);
        frame_level(Level::Or, t, u, d, p);
    }
    agree_at(t, u, d, p, e + 1, p1);
}

proof fn frame_expression(t: Seq<Token>, u: Seq<Token>, d: int, p: int)
    requires
        fits(t, u, d),
        0 <= p,
        expression_at(t, p).0 is Ok,
        agree(t, u, d, p, expression_at(t, p).1 + 1),
    ensures
        expression_at(u, p + d) == (expression_at(t, p).0, expression_at(t, p).1 + d),
        p < expression_at(t, p).1,
        no_eof(t, p, expression_at(t, p).1),
    decreases t.len() - p, 50int,
{
    frame_assignment(t, u, d, p);
}

proof fn frame_params(t: Seq<Token>, u: Seq<Token>, d: int, p: int, acc: Seq<Seq<char>>)
    requires
        fits(t, u, d),
        0 <= p,
        params_at(t, p, acc).0 is Ok,
        agree(t, u, d, p, params_at(t, p, acc).1 + 1),
    ensures
        params_at(u, p + d, acc) == (params_at(t, p, acc).0, params_at(t, p, acc).1 + d),
        p < params_at(t, p, acc).1,
        no_eof(t, p, params_at(t, p, acc).1),
    decreases t.len() - p,
{
    let e = params_at(t, p, acc).1;
    let (r, p1) = ident_at(t, p);
    if kind_at(t, p1) == TokenKind::Comma {
        frame_params(t, u, d, p1 + 1, acc.push(r->Ok_0));
    }
    agree_at(t, u, d, p, e + 1, p);
    agree_at(t, u, d, p, e + 1, p1);
}

proof fn frame_expression_statement(t: Seq<Token>, u: Seq<Token>, d: int, p: int)
    requires
        fits(t, u, d),
        0 <= p,
        expression_statement_at(t, p).0 is Ok,
        agree(t, u, d, p, expression_statement_at(t, p).1),
        cut_ok(t, u, d, expression_statement_at(t, p).1),
    ensures
        expression_statement_at(u, p + d) == (
            expression_statement_at(t, p).0,
            expression_statement_at(t, p).1 + d,
        ),
        p < expression_statement_at(t, p).1,
        no_eof(t, p, expression_statement_at(t, p).1),
    decreases t.len() - p, 66int,
{
    let e = expression_statement_at(t, p).1;
    let p1 = expression_at(t, p).1;
    frame_expression(t, u, d, p);
    agree_at(t, u, d, p, e, p1);
}

proof fn frame_print_statement(t: Seq<Token>, u: Seq<Token>, d: int, p: int)
    requires
        fits(t, u, d),
        0 <= p,
        print_statement_at(t, p).0 is Ok,
        agree(t, u, d, p, print_statement_at(t, p).1),
        cut_ok(t, u, d, print_statement_at(t, p).1),
    ensures
        print_statement_at(u, p + d) == (print_statement_at(t, p).0, print_statement_at(t, p).1 + d),
        p < print_statement_at(t, p).1,
        no_eof(t, p, print_statement_at(t, p).1),
    decreases t.len() - p, 64int,
{
    let e = print_statement_at(t, p).1;
    let p1 = expression_at(t, p).1;
    frame_expression(t, u, d, p);
    agree_at(t, u, d, p, e, p1);
}

proof fn frame_var_declaration(t: Seq<Token>, u: Seq<Token>, d: int, p: int)
    requires
        fits(t, u, d),
        0 <= p,
        var_declaration_at(t, p).0 is Ok,
        agree(t, u, d, p, var_declaration_at(t, p).1),
        cut_ok(t, u, d, var_declaration_at(t, p).1),
    ensures
        var_declaration_at(u, p + d) == (var_declaration_at(t, p).0, var_declaration_at(t, p).1 + d),
        p < var_declaration_at(t, p).1,
        no_eof(t, p, var_declaration_at(t, p).1),
    decreases t.len() - p, 58int,
{
    let e = var_declaration_at(t, p).1;
    if kind_at(t, p + 1) == TokenKind::Assign {
        frame_expression(t, u, d, p + 2);
        agree_at(t, u, d, p, e, expression_at(t, p + 2).1);
    }
    agree_at(t, u, d, p, e, p);
    agree_at(t, u, d, p, e, p + 1);
}

#[verifier::spinoff_prover]
#[verifier::rlimit(100)]
proof fn frame_if_statement(t: Seq<Token>, u: Seq<Token>, d: int, p: int)
    requires
        fits(t, u, d),
        0 <= p,
        if_statement_at(t, p).0 is Ok,
        agree(t, u, d, p, if_statement_at(t, p).1),
        cut_ok(t, u, d, if_statement_at(t, p).1),
    ensures
        if_statement_at(u, p + d) == (if_statement_at(t, p).0, if_statement_at(t, p).1 + d),
        p < if_statement_at(t, p).1,
        no_eof(t, p, if_statement_at(t, p).1),
    decreases t.len() - p, 62int,
{
    let e = if_statement_at(t, p).1;
    let p0 = p + 1;
    let p1 = expression_at(t, p0).1;
    let p2 = p1 + 1;
    let p3 = statement_at(t, p2).1;
    if kind_at(t, p3) == TokenKind::Else {
        frame_statement(t, u, d, p3 + 1);
        agree_at(t, u, d, p, e, p3);
    }
    frame_statement(t, u, d, p2);
    frame_expression(t, u, d, p0);
    agree_at(t, u, d, p, e, p);
    agree_at(t, u, d, p, e, p1);
    no_eof_one(t, p);
    no_eof_one(t, p1);
    no_eof_join(t, p, p0, p1);
    no_eof_join(t, p, p1, p2);
    no_eof_join(t, p, p2, p3);
    if kind_at(t, p3) == TokenKind::Else {
        no_eof_one(t, p3);
        no_eof_join(t, p, p3, p3 + 1);
        no_eof_join(t, p, p3 + 1, e);
    }
}

proof fn frame_block(t: Seq<Token>, u: Seq<Token>, d: int, p: int)
    requires
        fits(t, u, d),
        0 <= p,
        block_at(t, p).0 is Ok,
        agree(t, u, d, p, block_at(t, p).1),
        cut_ok(t, u, d, block_at(t, p).1),
    ensures
        block_at(u, p + d) == (block_at(t, p).0, block_at(t, p).1 + d),
        p < block_at(t, p).1,
        no_eof(t, p, block_at(t, p).1),
    decreases t.len() - p, 76int,
{
    frame_block_statements(t, u, d, p);
}

proof fn frame_block_statements(t: Seq<Token>, u: Seq<Token>, d: int, p: int)
    requires
        fits(t, u, d),
        0 <= p,
        block_statements_at(t, p).0 is Ok,
        agree(t, u, d, p, block_statements_at(t, p).1),
        cut_ok(t, u, d, block_statements_at(t, p).1),
    ensures
        block_statements_at(u, p + d) == (
            block_statements_at(t, p).0,
            block_statements_at(t, p).1 + d,
        ),
        p < block_statements_at(t, p).1,
        no_eof(t, p, block_statements_at(t, p).1),
    decreases t.len() - p, 74int,
{
    frame_block_rest(t, u, d, p, Seq::empty());
}

proof fn frame_block_rest(t: Seq<Token>, u: Seq<Token>, d: int, p: int, acc: Seq<SStmt>)
    requires
        fits(t, u, d),
        0 <= p,
        block_rest_at(t, p, acc).0 is Ok,
        agree(t, u, d, p, block_rest_at(t, p, acc).1),
        cut_ok(t, u, d, block_rest_at(t, p, acc).1),
    ensures
        block_rest_at(u, p + d, acc) == (block_rest_at(t, p, acc).0, block_rest_at(t, p, acc).1 + d),
        p < block_rest_at(t, p, acc).1,
        no_eof(t, p, block_rest_at(t, p, acc).1),
    decreases t.len() - p, 72int,
{
    let e = block_rest_at(t, p, acc).1;
    if kind_at(t, p) != TokenKind::RBrace {
        let (r, p1) = declaration_at(t, p);
        frame_block_rest(t, u, d, p1, acc.push(r->Ok_0));
        agree_at(t, u, d, p, e, p1);
        frame_declaration(t, u, d, p);
    }
    agree_at(t, u, d, p, e, p);
}

#[verifier::spinoff_prover]
#[verifier::rlimit(100)]
proof fn frame_while(t: Seq<Token>, u: Seq<Token>, d: int, p: int)
    requires
        fits(t, u, d),
        0 <= p,
        while_at(t, p).0 is Ok,
        agree(t, u, d, p, while_at(t, p).1),
        cut_ok(t, u, d, while_at(t, p).1),
    ensures
        while_at(u, p + d) == (while_at(t, p).0, while_at(t, p).1 + d),
        p < while_at(t, p).1,
        no_eof(t, p, while_at(t, p).1),
    decreases t.len() - p, 61int,
{
    let e = while_at(t, p).1;
    let p0 = p + 1;
    let p1 = expression_at(t, p0).1;
    let p2 = p1 + 1;
    frame_statement(t, u, d, p2);
    frame_expression(t, u, d, p0);
    agree_at(t, u, d, p, e, p);
    agree_at(t, u, d, p, e, p1);
}

/// The initializer clause of a `for`, read from `q`.
#[verifier::opaque]
spec fn for_init(t: Seq<Token>, q: int) -> (Result<Option<SStmt>, SFail>, int) {
    let k = kind_at(t, q);
    if k == TokenKind::Semicolon {
        (Ok(None), q)
    } else if k == TokenKind::Var {
        let (r, q1) = var_declaration_at(t, q + 1);
        match r {
            Err(x) => (Err(x), q1),
            Ok(s) => (Ok(Some(s)), q1),
        }
    } else {
        let (r, q1) = expression_statement_at(t, q);
        match r {
            Err(x) => (Err(x), q1),
            Ok(s) => (Ok(Some(s)), q1),
        }
    }
}

/// The condition clause of a `for` that starts at `p`, read from `q1`.
#[verifier::opaque]
spec fn for_cond(t: Seq<Token>, p: int, q1: int) -> (Result<SExpr, SFail>, int) {
    if kind_at(t, q1) == TokenKind::Semicolon {
        (Ok(literal_expr(SLiteral::Bool(true))), q1)
    } else if advanced(t, p, q1) {
        expression_at(t, q1)
    } else {
        (Err(SFail::Halt), q1)
    }
}

/// The increment clause of a `for` that starts at `p`, read from `q3`.
#[verifier::opaque]
spec fn for_incr(t: Seq<Token>, p: int, q3: int) -> (Result<Option<SExpr>, SFail>, int) {
    if kind_at(t, q3) == TokenKind::RParen {
        (Ok(None), q3)
    } else if advanced(t, p, q3) {
        let (r, q4) = expression_at(t, q3);
        match r {
            Err(x) => (Err(x), q4),
            Ok(e) => (Ok(Some(e)), q4),
        }
    } else {
        (Err(SFail::Halt), q3)
    }
}

/// `for_at` assembled from its clauses.
#[verifier::opaque]
spec fn for_compose(t: Seq<Token>, p: int) -> (Result<SStmt, SFail>, int) {
    let (r0, q) = consume_at(t, p, TokenKind::LParen);
    match r0 {
        Err(x) => (Err(x), q),
        Ok(_) => {
            let (ri, q1) = for_init(t, q);
            match ri {
                Err(x) => (Err(x), q1),
                Ok(initializer) => {
                    let (rc, q2) = for_cond(t, p, q1);
                    match rc {
                        Err(x) => (Err(x), q2),
                        Ok(condition) => {
                            let (rs, q3) = consume_at(t, q2, TokenKind::Semicolon);
                            match rs {
                                Err(x) => (Err(x), q3),
                                Ok(_) => {
                                    let (rn, q4) = for_incr(t, p, q3);
                                    match rn {
                                        Err(x) => (Err(x), q4),
                                        Ok(increment) => {
                                            let (rp, q5) = consume_at(t, q4, TokenKind::RParen);
                                            match rp {
                                                Err(x) => (Err(x), q5),
                                                Ok(_) => if advanced(t, p, q5) {
                                                    let (rb, q6) = statement_at(t, q5);
                                                    match rb {
                                                        Err(x) => (Err(x), q6),
                                                        Ok(body) => (
                                                            Ok(
                                                                desugar_for(
                                                                    initializer,
                                                                    condition,
                                                                    increment,
                                                                    body,
                                                                ),
                                                            ),
                                                            q6,
                                                        ),
                                                    }
                                                } else {
                                                    (Err(SFail::Halt), q5)
                                                },
                                            }
                                        },
                                    }
                                },
                            }
                        },
                    }
                },
            }
        },
    }
}

#[verifier::rlimit(100)]
proof fn lemma_for_compose(t: Seq<Token>, p: int)
    ensures
        for_at(t, p) == for_compose(t, p),
{
    reveal(for_init);
    reveal(for_cond);
    reveal(for_incr);
    reveal(for_compose);
}

#[verifier::spinoff_prover]
#[verifier::rlimit(100)]
proof fn frame_for_init(t: Seq<Token>, u: Seq<Token>, d: int, q: int)
    requires
        fits(t, u, d),
        0 <= q,
        for_init(t, q).0 is Ok,
        agree(t, u, d, q, for_init(t, q).1 + 1),
    ensures
        for_init(u, q + d) == (for_init(t, q).0, for_init(t, q).1 + d),
        q <= for_init(t, q).1,
        no_eof(t, q, for_init(t, q).1),
    decreases t.len() - q, 67int,
{
    reveal(for_init);
    let k = kind_at(t, q);
    let q1 = for_init(t, q).1;
    assert(agree(t, t, 0, 0, t.len() as int + 1));
    if k == TokenKind::Var {
        frame_var_declaration(t, t, 0, q + 1);
        agree_at(t, u, d, q, q1 + 1, q1);
        frame_var_declaration(t, u, d, q + 1);
        no_eof_one(t, q);
        no_eof_join(t, q, q + 1, q1);
    } else if k != TokenKind::Semicolon {
        frame_expression_statement(t, t, 0, q);
        agree_at(t, u, d, q, q1 + 1, q1);
        frame_expression_statement(t, u, d, q);
    }
    agree_at(t, u, d, q, q1 + 1, q);
}

proof fn frame_for_cond(t: Seq<Token>, u: Seq<Token>, d: int, p: int, q1: int)
    requires
        fits(t, u, d),
        0 <= p,
        for_cond(t, p, q1).0 is Ok,
        agree(t, u, d, q1, for_cond(t, p, q1).1 + 1),
    ensures
        for_cond(u, p + d, q1 + d) == (for_cond(t, p, q1).0, for_cond(t, p, q1).1 + d),
        q1 <= for_cond(t, p, q1).1,
        no_eof(t, q1, for_cond(t, p, q1).1),
    decreases t.len() - p, 61int,
{
    reveal(for_cond);
    let q2 = for_cond(t, p, q1).1;
    if kind_at(t, q1) != TokenKind::Semicolon {
        frame_expression(t, u, d, q1);
    }
    agree_at(t, u, d, q1, q2 + 1, q1);
}

proof fn frame_for_incr(t: Seq<Token>, u: Seq<Token>, d: int, p: int, q3: int)
    requires
        fits(t, u, d),
        0 <= p,
        for_incr(t, p, q3).0 is Ok,
        agree(t, u, d, q3, for_incr(t, p, q3).1 + 1),
    ensures
        for_incr(u, p + d, q3 + d) == (for_incr(t, p, q3).0, for_incr(t, p, q3).1 + d),
        q3 <= for_incr(t, p, q3).1,
        no_eof(t, q3, for_incr(t, p, q3).1),
    decreases t.len() - p, 61int,
{
    reveal(for_incr);
    let q4 = for_incr(t, p, q3).1;
    if kind_at(t, q3) != TokenKind::RParen {
        frame_expression(t, u, d, q3);
    }
    agree_at(t, u, d, q3, q4 + 1, q3);
}

#[verifier::spinoff_prover]
#[verifier::rlimit(100)]
proof fn frame_for_compose(t: Seq<Token>, u: Seq<Token>, d: int, p: int)
    requires
        fits(t, u, d),
        0 <= p,
        for_compose(t, p).0 is Ok,
        agree(t, u, d, p, for_compose(t, p).1),
        cut_ok(t, u, d, for_compose(t, p).1),
    ensures
        for_compose(u, p + d) == (for_compose(t, p).0, for_compose(t, p).1 + d),
        p < for_compose(t, p).1,
        no_eof(t, p, for_compose(t, p).1),
    decreases t.len() - p, 62int,
{
    reveal(for_compose);
    let e = for_compose(t, p).1;
    let q = p + 1;
    let q1 = for_init(t, q).1;
    let q2 = for_cond(t, p, q1).1;
    let q3 = q2 + 1;
    let q4 = for_incr(t, p, q3).1;
    let q5 = q4 + 1;
    assert(agree(t, t, 0, 0, t.len() as int + 1));
    frame_for_init(t, t, 0, q);
    frame_for_cond(t, t, 0, p, q1);
    frame_for_incr(t, t, 0, p, q3);
    frame_statement(t, u, d, q5);
    frame_for_init(t, u, d, q);
    frame_for_cond(t, u, d, p, q1);
    frame_for_incr(t, u, d, p, q3);
    agree_at(t, u, d, p, e, p);
    agree_at(t, u, d, p, e, q2);
    agree_at(t, u, d, p, e, q4);
}

proof fn frame_for(t: Seq<Token>, u: Seq<Token>, d: int, p: int)
    requires
        fits(t, u, d),
        0 <= p,
        for_at(t, p).0 is Ok,
        agree(t, u, d, p, for_at(t, p).1),
        cut_ok(t, u, d, for_at(t, p).1),
    ensures
        for_at(u, p + d) == (for_at(t, p).0, for_at(t, p).1 + d),
        p < for_at(t, p).1,
        no_eof(t, p, for_at(t, p).1),
    decreases t.len() - p, 63int,
{
    lemma_for_compose(t, p);
    lemma_for_compose(u, p + d);
    frame_for_compose(t, u, d, p);
}

proof fn frame_function(t: Seq<Token>, u: Seq<Token>, d: int, p: int)
    requires
        fits(t, u, d),
        0 <= p,
        function_at(t, p).0 is Ok,
        agree(t, u, d, p, function_at(t, p).1),
        cut_ok(t, u, d, function_at(t, p).1),
    ensures
        function_at(u, p + d) == (function_at(t, p).0, function_at(t, p).1 + d),
        p < function_at(t, p).1,
        no_eof(t, p, function_at(t, p).1),
    decreases t.len() - p, 60int,
{
    let e = function_at(t, p).1;
    let p1 = p + 1;
    let p2 = p1 + 1;
    let p3 = if kind_at(t, p2) != TokenKind::RParen {
        params_at(t, p2, Seq::empty()).1
    } else {
        p2
    };
    let p4 = p3 + 1;
    let p5 = p4 + 1;
    lemma_params_at_forward(t, p2, Seq::empty());
    frame_block_statements(t, u, d, p5);
    if kind_at(t, p2) != TokenKind::RParen {
        frame_params(t, u, d, p2, Seq::empty());
    }
    agree_at(t, u, d, p, e, p);
    agree_at(t, u, d, p, e, p1);
    agree_at(t, u, d, p, e, p2);
    agree_at(t, u, d, p, e, p3);
    agree_at(t, u, d, p, e, p4);
}

#[verifier::spinoff_prover]
#[verifier::rlimit(100)]
proof fn frame_statement(t: Seq<Token>, u: Seq<Token>, d: int, p: int)
    requires
        fits(t, u, d),
        0 <= p,
        statement_at(t, p).0 is Ok,
        agree(t, u, d, p, statement_at(t, p).1),
        cut_ok(t, u, d, statement_at(t, p).1),
    ensures
        statement_at(u, p + d) == (statement_at(t, p).0, statement_at(t, p).1 + d),
        p < statement_at(t, p).1,
        no_eof(t, p, statement_at(t, p).1),
    decreases t.len() - p, 68int,
{
    let e = statement_at(t, p).1;
    let k = kind_at(t, p);
    if k == TokenKind::Print {
        frame_print_statement(t, u, d, p + 1);
    } else if k == TokenKind::If {
        frame_if_statement(t, u, d, p + 1);
    } else if k == TokenKind::LBrace {
        frame_block(t, u, d, p + 1);
    } else if k == TokenKind::While {
        frame_while(t, u, d, p + 1);
    } else if k == TokenKind::For {
        frame_for(t, u, d, p + 1);
    } else {
        frame_expression_statement(t, u, d, p);
    }
    agree_at(t, u, d, p, e, p);
    if k == TokenKind::Print || k == TokenKind::If || k == TokenKind::LBrace || k
        == TokenKind::While || k == TokenKind::For {
        no_eof_one(t, p);
        no_eof_join(t, p, p + 1, e);
    }
}

/// A declaration that succeeds gives the same statement, stopping at the
/// same place, over any token sequence that holds the same tokens from its
/// start to where it stops, and after that no `else` where the first has
/// ended.
pub proof fn frame_declaration(t: Seq<Token>, u: Seq<Token>, d: int, p: int)
    requires
        fits(t, u, d),
        0 <= p,
        declaration_at(t, p).0 is Ok,
        agree(t, u, d, p, declaration_at(t, p).1),
        cut_ok(t, u, d, declaration_at(t, p).1),
    ensures
        declaration_at(u, p + d) == (declaration_at(t, p).0, declaration_at(t, p).1 + d),
        p < declaration_at(t, p).1,
        no_eof(t, p, declaration_at(t, p).1),
    decreases t.len() - p, 70int,
{
    let e = declaration_at(t, p).1;
    let k = kind_at(t, p);
    if k == TokenKind::Fun {
        frame_function(t, u, d, p + 1);
    } else if k == TokenKind::Var {
        frame_var_declaration(t, u, d, p + 1);
    } else {
        frame_statement(t, u, d, p);
    }
    agree_at(t, u, d, p, e, p);
}

/// No declaration starts with `else`: the descent reaches the primary rule,
/// which rejects it.
proof fn lemma_else_starts_no_declaration(t: Seq<Token>, p: int)
    requires
        kind_at(t, p) == TokenKind::Else,
    ensures
        declaration_at(t, p).0 is Err,
{
    assert(primary_at(t, p).0 is Err);
    assert(call_at(t, p).0 is Err);
    assert(unary_at(t, p).0 is Err);
    assert(operand_at(Level::Factor, t, p).0 is Err);
    assert(level_at(Level::Factor, t, p).0 is Err);
    assert(operand_at(Level::Term, t, p).0 is Err);
    assert(level_at(Level::Term, t, p).0 is Err);
    assert(operand_at(Level::Comparison, t, p).0 is Err);
    assert(level_at(Level::Comparison, t, p).0 is Err);
    assert(operand_at(Level::Equality, t, p).0 is Err);
    assert(level_at(Level::Equality, t, p).0 is Err);
    assert(operand_at(Level::And, t, p).0 is Err);
    assert(level_at(Level::And, t, p).0 is Err);
    assert(operand_at(Level::Or, t, p).0 is Err);
    assert(level_at(Level::Or, t, p).0 is Err);
    assert(assignment_at(t, p).0 is Err);
    assert(expression_at(t, p).0 is Err);
    assert(expression_statement_at(t, p).0 is Err);
    assert(statement_at(t, p).0 is Err);
}

/// A parse of `t` from `p` that comes back with no new error reads only the
/// tokens up to where it stops, and none of them is the `Eof`: over a
/// sequence `u` with the same tokens moved on by `d`, and no `else` after
/// them where `t` has ended, the parse reaches the same place with the same
/// statements.
proof fn frame_program(
    t: Seq<Token>,
    u: Seq<Token>,
    d: int,
    p: int,
    stmts: Seq<SStmt>,
    errors: Seq<SSyntaxError>,
)
    requires
        fits(t, u, d),
        0 <= p <= t.len(),
        program_at(t, p, stmts, errors) is Some,
        program_at(t, p, stmts, errors)->Some_0.1 == errors,
        agree(t, u, d, p, program_at(t, p, stmts, errors)->Some_0.2),
        cut_ok(t, u, d, program_at(t, p, stmts, errors)->Some_0.2),
    ensures
        program_at(u, p + d, stmts, errors) == program_at(
            u,
            program_at(t, p, stmts, errors)->Some_0.2 + d,
            program_at(t, p, stmts, errors)->Some_0.0,
            errors,
        ),
        no_eof(t, p, program_at(t, p, stmts, errors)->Some_0.2),
    decreases t.len() - p,
{
    let end = program_at(t, p, stmts, errors)->Some_0.2;
    law_program_ends_at_eof(t, p, stmts, errors);
    if kind_at(t, p) != TokenKind::Eof {
        let (r, p1) = declaration_at(t, p);
        match r {
            Ok(s) => {
                law_program_ends_at_eof(t, p1, stmts.push(s), errors);
                frame_program(t, u, d, p1, stmts.push(s), errors);
                if p1 < end {
                    agree_at(t, u, d, p, end, p1);
                }
                frame_declaration(t, u, d, p);
                agree_at(t, u, d, p, end, p);
                no_eof_join(t, p, p1, end);
            },
            Err(SFail::Syntax(e)) => {
                let p2 = synchronize_at(t, p1);
                law_program_ends_at_eof(t, p2, stmts, errors.push(e));
            },
            Err(SFail::Halt) => {},
        }
    }
}

/// A parse with no error of a sequence whose only `Eof` is its last token
/// stops at that token.
proof fn lemma_stops_at_last(t: Seq<Token>)
    requires
        t.len() >= 1,
        t.last().kind == TokenKind::Eof,
        forall|i: int| 0 <= i < t.len() - 1 ==> (#[trigger] t[i]).kind != TokenKind::Eof,
        program_at(t, 0, seq![], seq![]) matches Some((_, e, _)) && e.len() == 0,
    ensures
        program_at(t, 0, seq![], seq![])->Some_0.2 == t.len() - 1,
{
    let m = t.len() - 1;
    let (s1, e1, end1) = program_at(t, 0, seq![], seq![])->0;
    assert(e1 =~= Seq::<SSyntaxError>::empty());
    law_program_ends_at_eof(t, 0, seq![], seq![]);
    assert(agree(t, t, 0, 0, t.len() as int + 1));
    frame_program(t, t, 0, 0, seq![], seq![]);
    assert(kind_at(t, end1) == TokenKind::Eof);
    assert(no_eof(t, 0, end1));
    assert(0 <= end1 <= t.len());
    if end1 > m {
        assert(kind_at(t, m) != TokenKind::Eof);
        assert(t[m] == t.last());
        assert(false);
    }
    if end1 < m {
        assert(t[end1].kind != TokenKind::Eof);
        assert(false);
    }
}

/// A sequence that parses with no error does not start with `else`.
proof fn lemma_not_else_first(t: Seq<Token>)
    requires
        program_at(t, 0, seq![], seq![]) matches Some((_, e, _)) && e.len() == 0,
    ensures
        kind_at(t, 0) != TokenKind::Else,
{
    if kind_at(t, 0) == TokenKind::Else {
        lemma_else_starts_no_declaration(t, 0);
        let (r, p1) = declaration_at(t, 0);
        if let Err(SFail::Syntax(e)) = r {
            law_program_ends_at_eof(t, synchronize_at(t, p1), seq![], seq![e]);
        }
    }
}

/// Two token sequences that each parse with no syntax error, the first
/// ending with its only `Eof`, parse with no error when joined (the first
/// without its `Eof`): to the statements of the first followed by those of
/// the second. `u` holds the joined tokens: their kinds and lexemes; the
/// lines they carry play no part in parsing.
#[verifier::rlimit(100)]
pub proof fn law_joined_programs(t1: Seq<Token>, t2: Seq<Token>, u: Seq<Token>)
    requires
        t1.len() >= 1,
        t1.last().kind == TokenKind::Eof,
        forall|i: int| 0 <= i < t1.len() - 1 ==> (#[trigger] t1[i]).kind != TokenKind::Eof,
        t2.len() >= 1,
        u.len() == t1.len() - 1 + t2.len(),
        agree(t1, u, 0, 0, t1.len() - 1),
        agree(t2, u, t1.len() - 1, 0, t2.len() as int),
        program_at(t1, 0, seq![], seq![]) matches Some((_, e1, _)) && e1.len() == 0,
        program_at(t2, 0, seq![], seq![]) matches Some((_, e2, _)) && e2.len() == 0,
    ensures
        ({
            let (s1, _, _) = program_at(t1, 0, seq![], seq![])->0;
            let (s2, _, end2) = program_at(t2, 0, seq![], seq![])->0;
            program_at(u, 0, seq![], seq![]) == Some(
                (s1 + s2, Seq::<SSyntaxError>::empty(), end2 + t1.len() - 1),
            )
        }),
{
    let m = t1.len() - 1;
    let r1 = program_at(t1, 0, seq![], seq![])->0;
    let r2 = program_at(t2, 0, seq![], seq![])->0;
    let s1 = r1.0;
    let s2 = r2.0;
    let end2 = r2.2;
    assert(r1.1 =~= Seq::<SSyntaxError>::empty());
    assert(r2.1 =~= Seq::<SSyntaxError>::empty());
    lemma_stops_at_last(t1);
    lemma_not_else_first(t2);
    agree_at(t2, u, m, 0, t2.len() as int, 0);
    assert(cut_ok(t1, u, 0, m));
    frame_program(t1, u, 0, 0, seq![], seq![]);
    assert(program_at(u, 0, seq![], seq![]) == program_at(u, m, s1, seq![]));
    law_program_ends_at_eof(t2, 0, seq![], seq![]);
    if end2 < t2.len() {
        agree_at(t2, u, m, 0, t2.len() as int, end2);
    }
    assert(cut_ok(t2, u, m, end2));
    frame_program(t2, u, m, 0, seq![], seq![]);
    assert(kind_at(u, end2 + m) == TokenKind::Eof);
    assert(program_at(u, end2 + m, s2, seq![]) == Some((s2, Seq::<SSyntaxError>::empty(), end2 + m)));
    law_program_from_position(u, m, s1, seq![]);
    assert(Seq::<SSyntaxError>::empty() + Seq::<SSyntaxError>::empty() =~= Seq::<
        SSyntaxError,
    >::empty());
}

/// Two sources that scan and parse with no error, joined by a line feed,
/// scan with no error and parse with no error to the statements of the
/// first followed by those of the second: a declaration parses the same
/// whatever follows it.
pub proof fn law_joined_sources(
    s1: Seq<char>,
    s2: Seq<char>,
    t1: Seq<Token>,
    t2: Seq<Token>,
    u: Seq<Token>,
)
    requires
        tokens_view(t1) == scan_all(s1, 0).0,
        scan_all(s1, 0).1.len() == 0,
        tokens_view(t2) == scan_all(s2, 0).0,
        scan_all(s2, 0).1.len() == 0,
        tokens_view(u) == scan_all(s1.push('\n') + s2, 0).0,
        program_at(t1, 0, seq![], seq![]) matches Some((_, e1, _)) && e1.len() == 0,
        program_at(t2, 0, seq![], seq![]) matches Some((_, e2, _)) && e2.len() == 0,
    ensures
        scan_all(s1.push('\n') + s2, 0).1.len() == 0,
        ({
            let (stmts1, _, _) = program_at(t1, 0, seq![], seq![])->0;
            let (stmts2, _, end2) = program_at(t2, 0, seq![], seq![])->0;
            program_at(u, 0, seq![], seq![]) == Some(
                (stmts1 + stmts2, Seq::<SSyntaxError>::empty(), end2 + t1.len() - 1),
            )
        }),
{
    let c = s1.push('\n') + s2;
    law_joined_sources_scan(s1, s2);
    lemma_stream_ends_with_eof(s1, 0);
    lemma_stream_ends_with_eof(s2, 0);
    let v1 = scan_all(s1, 0).0;
    let v2 = scan_all(s2, 0).0;
    let vu = scan_all(c, 0).0;
    let m = t1.len() - 1;
    assert(t1.len() == v1.len());
    assert(t2.len() == v2.len());
    assert(u.len() == vu.len());
    assert(kinds_lexemes(vu).len() == vu.len());
    assert(u.len() == t1.len() - 1 + t2.len());
    assert(tokens_view(t1)[m] == v1.last());
    assert forall|i: int| 0 <= i < t1.len() - 1 implies (#[trigger] t1[i]).kind
        != TokenKind::Eof by {
        assert(tokens_view(t1)[i] == v1[i]);
    }
    assert forall|i: int| #![trigger kind_at(t1, i)] 0 <= i < m implies same_token(
        t1,
        i,
        u,
        i + 0,
    ) by {
        assert(tokens_view(t1)[i] == v1[i]);
        assert(tokens_view(u)[i] == vu[i]);
        assert(kinds_lexemes(vu)[i] == kinds_lexemes(v1).drop_last()[i]);
    }
    assert forall|j: int| #![trigger kind_at(t2, j)] 0 <= j < t2.len() implies same_token(
        t2,
        j,
        u,
        j + m,
    ) by {
        assert(tokens_view(t2)[j] == v2[j]);
        assert(tokens_view(u)[j + m] == vu[j + m]);
        assert(kinds_lexemes(vu)[j + m] == kinds_lexemes(v2)[j]);
    }
    law_joined_programs(t1, t2, u);
}

} // verus!
