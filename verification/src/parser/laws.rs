//! What holds of every parse: it stops at the `Eof`, it only adds to what it
//! has collected, and the lexer's output is always fit to be parsed.

use vstd::prelude::*;

use super::error::SSyntaxError;
use super::grammar::{LogicalOp, SExpr, SStmt};
use super::syntax::{
    advanced, arguments_at, binary_op_for, block_rest_at, declaration_at, expression_at,
    ident_at, kind_at, logical_op_for, params_at, program_at, synchronize_at, unary_at, Level,
    SFail,
};
use super::eof_ahead;
use crate::lexer::laws::lemma_stream_ends_with_eof;
use crate::lexer::rules::scan_all;
use crate::lexer::token::tokens_view;
use crate::lexer::{Token, TokenKind};

verus! {

/// A parse that comes back ends at an `Eof` token; the statements and errors
/// it returns extend those it started with, each statement or error stands
/// for at least one token read, and unless it starts at the `Eof` it yields
/// at least one statement or error.
pub proof fn law_program_ends_at_eof(
    t: Seq<Token>,
    p: int,
    stmts: Seq<SStmt>,
    errors: Seq<SSyntaxError>,
)
    requires
        program_at(t, p, stmts, errors) is Some,
    ensures
        ({
            let (s2, e2, end) = program_at(t, p, stmts, errors)->0;
            &&& kind_at(t, end) == TokenKind::Eof
            &&& p <= end
            &&& p <= t.len() ==> end <= t.len()
            &&& s2.len() >= stmts.len() && s2.subrange(0, stmts.len() as int) == stmts
            &&& e2.len() >= errors.len() && e2.subrange(0, errors.len() as int) == errors
            &&& (s2.len() - stmts.len()) + (e2.len() - errors.len()) <= end - p
            &&& kind_at(t, p) != TokenKind::Eof ==> s2.len() + e2.len() > stmts.len()
                + errors.len()
        }),
    decreases t.len() - p,
{
    if kind_at(t, p) != TokenKind::Eof {
        let (r, p1) = declaration_at(t, p);
        match r {
            Ok(s) => {
                law_program_ends_at_eof(t, p1, stmts.push(s), errors);
                let s2 = program_at(t, p1, stmts.push(s), errors)->Some_0.0;
                assert(s2.subrange(0, stmts.len() as int) =~= stmts.push(s).subrange(
                    0,
                    stmts.len() as int,
                ));
            },
            Err(SFail::Syntax(e)) => {
                let p2 = synchronize_at(t, p1);
                law_program_ends_at_eof(t, p2, stmts, errors.push(e));
                let e2 = program_at(t, p2, stmts, errors.push(e))->Some_0.1;
                assert(e2.subrange(0, errors.len() as int) =~= errors.push(e).subrange(
                    0,
                    errors.len() as int,
                ));
            },
            Err(SFail::Halt) => {},
        }
    }
}

/// What a parse collects from a position does not depend on what was
/// collected before it: it is that, followed by the parse from the same
/// position started afresh, and it ends at the same place.
pub proof fn law_program_from_position(
    t: Seq<Token>,
    p: int,
    stmts: Seq<SStmt>,
    errors: Seq<SSyntaxError>,
)
    ensures
        program_at(t, p, stmts, errors) is Some <==> program_at(t, p, seq![], seq![]) is Some,
        program_at(t, p, stmts, errors) is Some ==> {
            let (s1, e1, end1) = program_at(t, p, stmts, errors)->0;
            let (s0, e0, end0) = program_at(t, p, seq![], seq![])->0;
            &&& s1 == stmts + s0
            &&& e1 == errors + e0
            &&& end1 == end0
        },
    decreases t.len() - p,
{
    if kind_at(t, p) == TokenKind::Eof {
        assert(stmts + Seq::<SStmt>::empty() =~= stmts);
        assert(errors + Seq::<SSyntaxError>::empty() =~= errors);
    } else {
        let (r, p1) = declaration_at(t, p);
        match r {
            Ok(s) => if advanced(t, p, p1) {
                law_program_from_position(t, p1, stmts.push(s), errors);
                law_program_from_position(t, p1, seq![s], seq![]);
                assert(Seq::<SStmt>::empty().push(s) =~= seq![s]);
                if program_at(t, p, stmts, errors) is Some {
                    let s0 = program_at(t, p1, seq![], seq![])->Some_0.0;
                    assert(stmts.push(s) + s0 =~= stmts + (seq![s] + s0));
                }
            },
            Err(SFail::Syntax(e)) => {
                let p2 = synchronize_at(t, p1);
                if advanced(t, p, p2) {
                    law_program_from_position(t, p2, stmts, errors.push(e));
                    law_program_from_position(t, p2, seq![], seq![e]);
                    assert(Seq::<SSyntaxError>::empty().push(e) =~= seq![e]);
                    if program_at(t, p, stmts, errors) is Some {
                        let e0 = program_at(t, p2, seq![], seq![])->Some_0.1;
                        assert(errors.push(e) + e0 =~= errors + (seq![e] + e0));
                    }
                }
            },
            Err(SFail::Halt) => {},
        }
    }
}

/// The tokens the lexer produces for any source end with the one `Eof`
/// token, so a parser over them starts well formed.
pub proof fn law_lexed_tokens_parse_ready(src: Seq<char>, tokens: Seq<Token>)
    requires
        tokens_view(tokens) == scan_all(src, 0).0,
    ensures
        eof_ahead(tokens, 0),
        tokens.len() >= 1,
        tokens.last().kind == TokenKind::Eof,
        forall|j: int| 0 <= j < tokens.len() - 1 ==> (#[trigger] tokens[j]).kind != TokenKind::Eof,
{
    lemma_stream_ends_with_eof(src, 0);
    let ts = scan_all(src, 0).0;
    assert(tokens.len() == ts.len());
    assert(ts.last() == tokens_view(tokens)[tokens.len() - 1]);
    assert forall|j: int| 0 <= j < tokens.len() - 1 implies (#[trigger] tokens[j]).kind
        != TokenKind::Eof by {
        assert(ts[j] == tokens_view(tokens)[j]);
    }
    assert(tokens[tokens.len() - 1].kind == TokenKind::Eof);
}

/// Each operator token stands for the operator written the same way, at
/// every level: `<=` is `<=`, `<` is `<`, `==` is `==`, `+` is `+`, and so
/// on; `and` and `or` stand for the logical operators of those names.
pub proof fn law_operator_spelling(level: Level, k: TokenKind)
    ensures
        binary_op_for(level, k) matches Some(op) ==> op.spec_symbol() == k.spec_text(),
        logical_op_for(level, k) == Some(LogicalOp::And) ==> k == TokenKind::And,
        logical_op_for(level, k) == Some(LogicalOp::Or) ==> k == TokenKind::Or,
{
}

/// A prefix `!` or `-` gives the unary operator written the same way.
pub proof fn law_unary_spelling(t: Seq<Token>, p: int)
    requires
        kind_at(t, p) == TokenKind::Bang || kind_at(t, p) == TokenKind::Minus,
        unary_at(t, p).0 is Ok,
    ensures
        unary_at(t, p).0->Ok_0 matches SExpr::Unary { op, .. } && op.spec_symbol() == kind_at(
            t,
            p,
        ).spec_text(),
{
}

/// The statements of a block come in the order they are written: those
/// already read stay first, and the declaration at the current position
/// comes right after them.
pub proof fn law_block_order(t: Seq<Token>, p: int, acc: Seq<SStmt>)
    requires
        block_rest_at(t, p, acc).0 is Ok,
    ensures
        ({
            let r = block_rest_at(t, p, acc).0->Ok_0;
            &&& r.len() >= acc.len()
            &&& r.subrange(0, acc.len() as int) == acc
            &&& kind_at(t, p) != TokenKind::RBrace ==> r.len() > acc.len() && r[acc.len() as int]
                == declaration_at(t, p).0->Ok_0
        }),
    decreases t.len() - p,
{
    if kind_at(t, p) != TokenKind::RBrace {
        let (d, p1) = declaration_at(t, p);
        let s = d->Ok_0;
        law_block_order(t, p1, acc.push(s));
        let r = block_rest_at(t, p, acc).0->Ok_0;
        assert(r.subrange(0, acc.len() as int) =~= r.subrange(0, acc.len() as int + 1).subrange(
            0,
            acc.len() as int,
        ));
        assert(r[acc.len() as int] == r.subrange(0, acc.len() as int + 1)[acc.len() as int]);
    }
}

/// The arguments of a call come in the order they are written.
pub proof fn law_arguments_order(t: Seq<Token>, p: int, acc: Seq<SExpr>)
    requires
        arguments_at(t, p, acc).0 is Ok,
    ensures
        ({
            let r = arguments_at(t, p, acc).0->Ok_0;
            &&& r.len() > acc.len()
            &&& r.subrange(0, acc.len() as int) == acc
            &&& r[acc.len() as int] == expression_at(t, p).0->Ok_0
        }),
    decreases t.len() - p,
{
    let (x, p1) = expression_at(t, p);
    let r = arguments_at(t, p, acc).0->Ok_0;
    if kind_at(t, p1) == TokenKind::Comma {
        law_arguments_order(t, p1 + 1, acc.push(x->Ok_0));
        assert(r.subrange(0, acc.len() as int) =~= r.subrange(0, acc.len() as int + 1).subrange(
            0,
            acc.len() as int,
        ));
        assert(r[acc.len() as int] == r.subrange(0, acc.len() as int + 1)[acc.len() as int]);
    } else {
        assert(r.subrange(0, acc.len() as int) =~= acc);
    }
}

/// The parameters of a function come in the order they are written.
pub proof fn law_params_order(t: Seq<Token>, p: int, acc: Seq<Seq<char>>)
    requires
        params_at(t, p, acc).0 is Ok,
    ensures
        ({
            let r = params_at(t, p, acc).0->Ok_0;
            &&& r.len() > acc.len()
            &&& r.subrange(0, acc.len() as int) == acc
            &&& r[acc.len() as int] == ident_at(t, p).0->Ok_0
        }),
    decreases t.len() - p,
{
    let (x, p1) = ident_at(t, p);
    let r = params_at(t, p, acc).0->Ok_0;
    if kind_at(t, p1) == TokenKind::Comma {
        law_params_order(t, p1 + 1, acc.push(x->Ok_0));
        assert(r.subrange(0, acc.len() as int) =~= r.subrange(0, acc.len() as int + 1).subrange(
            0,
            acc.len() as int,
        ));
        assert(r[acc.len() as int] == r.subrange(0, acc.len() as int + 1)[acc.len() as int]);
    } else {
        assert(r.subrange(0, acc.len() as int) =~= acc);
    }
}

} // verus!
