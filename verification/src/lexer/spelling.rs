//! The texts that stand for token kinds in messages lex back to those
//! kinds: the spelling of every keyword, operator and punctuation kind is a
//! source holding exactly that one token.

use vstd::prelude::*;

use super::error::LexError;
use super::rules::{ident_end, keyword_kind, newlines, scan, scan_all, scan_token};
use super::token::TokenKind;

verus! {

/// A kind with one fixed spelling: every kind but identifiers, strings,
/// numbers and the end of input.
pub open spec fn fixed_spelling(k: TokenKind) -> bool {
    k != TokenKind::Identifier && k != TokenKind::String && k != TokenKind::Number && k
        != TokenKind::Eof
}

/// A kind spelled as a keyword.
pub open spec fn is_keyword_kind(k: TokenKind) -> bool {
    k == TokenKind::And
        || k == TokenKind::Class
        || k == TokenKind::Else
        || k == TokenKind::False
        || k == TokenKind::Fun
        || k == TokenKind::For
        || k == TokenKind::If
        || k == TokenKind::Nil
        || k == TokenKind::Or
        || k == TokenKind::Print
        || k == TokenKind::Return
        || k == TokenKind::Super
        || k == TokenKind::This
        || k == TokenKind::True
        || k == TokenKind::Var
        || k == TokenKind::While
}

/// The spelling of an operator or punctuation kind scans as that kind,
/// up to the end of the text, which holds no line feed.
proof fn lemma_punctuation_scans(k: TokenKind)
    requires
        fixed_spelling(k),
        !is_keyword_kind(k),
    ensures
        scan(k.spec_text(), 0) == (
            Ok::<(TokenKind, Option<Seq<char>>), LexError>((k, None)),
            k.spec_text().len() as int,
        ),
        newlines(k.spec_text(), 0, k.spec_text().len() as int) == 0,
{
    reveal_with_fuel(newlines, 3);
    let s = k.spec_text();
    match k {
        TokenKind::LParen => {
            reveal_strlit("(");
            assert(scan(s, 0) == scan_token(s, 0));
        },
        TokenKind::RParen => {
            reveal_strlit(")");
            assert(scan(s, 0) == scan_token(s, 0));
        },
        TokenKind::LBrace => {
            reveal_strlit("{");
            assert(scan(s, 0) == scan_token(s, 0));
        },
        TokenKind::RBrace => {
            reveal_strlit("}");
            assert(scan(s, 0) == scan_token(s, 0));
        },
        TokenKind::Comma => {
            reveal_strlit(",");
            assert(scan(s, 0) == scan_token(s, 0));
        },
        TokenKind::Dot => {
            reveal_strlit(".");
            assert(scan(s, 0) == scan_token(s, 0));
        },
        TokenKind::Minus => {
            reveal_strlit("-");
            assert(scan(s, 0) == scan_token(s, 0));
        },
        TokenKind::Plus => {
            reveal_strlit("+");
            assert(scan(s, 0) == scan_token(s, 0));
        },
        TokenKind::Semicolon => {
            reveal_strlit(";");
            assert(scan(s, 0) == scan_token(s, 0));
        },
        TokenKind::Slash => {
            reveal_strlit("/");
            assert(scan(s, 0) == scan_token(s, 0));
        },
        TokenKind::Star => {
            reveal_strlit("*");
            assert(scan(s, 0) == scan_token(s, 0));
        },
        TokenKind::Bang => {
            reveal_strlit("!");
            assert(scan(s, 0) == scan_token(s, 0));
        },
        TokenKind::Neq => {
            reveal_strlit("!=");
            assert(scan(s, 0) == scan_token(s, 0));
        },
        TokenKind::Assign => {
            reveal_strlit("=");
            assert(scan(s, 0) == scan_token(s, 0));
        },
        TokenKind::Eq => {
            reveal_strlit("==");
            assert(scan(s, 0) == scan_token(s, 0));
        },
        TokenKind::Gt => {
            reveal_strlit(">");
            assert(scan(s, 0) == scan_token(s, 0));
        },
        TokenKind::Gte => {
            reveal_strlit(">=");
            assert(scan(s, 0) == scan_token(s, 0));
        },
        TokenKind::Lt => {
            reveal_strlit("<");
            assert(scan(s, 0) == scan_token(s, 0));
        },
        TokenKind::Lte => {
            reveal_strlit("<=");
            assert(scan(s, 0) == scan_token(s, 0));
        },
        _ => {},
    }
}

/// The keyword spellings, character by character.
proof fn keyword_spellings()
    ensures
        "and"@ == seq!['a', 'n', 'd'],
        "class"@ == seq!['c', 'l', 'a', 's', 's'],
        "else"@ == seq!['e', 'l', 's', 'e'],
        "false"@ == seq!['f', 'a', 'l', 's', 'e'],
        "fun"@ == seq!['f', 'u', 'n'],
        "for"@ == seq!['f', 'o', 'r'],
        "if"@ == seq!['i', 'f'],
        "nil"@ == seq!['n', 'i', 'l'],
        "or"@ == seq!['o', 'r'],
        "print"@ == seq!['p', 'r', 'i', 'n', 't'],
        "return"@ == seq!['r', 'e', 't', 'u', 'r', 'n'],
        "super"@ == seq!['s', 'u', 'p', 'e', 'r'],
        "this"@ == seq!['t', 'h', 'i', 's'],
        "true"@ == seq!['t', 'r', 'u', 'e'],
        "var"@ == seq!['v', 'a', 'r'],
        "while"@ == seq!['w', 'h', 'i', 'l', 'e'],
{
    reveal_strlit("and");
    reveal_strlit("class");
    reveal_strlit("else");
    reveal_strlit("false");
    reveal_strlit("fun");
    reveal_strlit("for");
    reveal_strlit("if");
    reveal_strlit("nil");
    reveal_strlit("or");
    reveal_strlit("print");
    reveal_strlit("return");
    reveal_strlit("super");
    reveal_strlit("this");
    reveal_strlit("true");
    reveal_strlit("var");
    reveal_strlit("while");
}

/// The spelling of a keyword is a word that `keyword_kind` maps to it, and
/// it scans as that keyword up to its end, with no line feed in it.
proof fn lemma_keyword_scans(k: TokenKind)
    requires
        is_keyword_kind(k),
    ensures
        scan(k.spec_text(), 0) == (
            Ok::<(TokenKind, Option<Seq<char>>), LexError>((k, None)),
            k.spec_text().len() as int,
        ),
        newlines(k.spec_text(), 0, k.spec_text().len() as int) == 0,
{
    reveal_with_fuel(newlines, 7);
    reveal_with_fuel(ident_end, 7);
    keyword_spellings();
    let s = k.spec_text();
    match k {
        TokenKind::And => {
            assert(s.subrange(0, s.len() as int) =~= s);
            assert(scan(s, 0) == scan_token(s, 0));
        },
        TokenKind::Class => {
            assert(s.subrange(0, s.len() as int) =~= s);
            assert(scan(s, 0) == scan_token(s, 0));
        },
        TokenKind::Else => {
            assert(s.subrange(0, s.len() as int) =~= s);
            assert(scan(s, 0) == scan_token(s, 0));
        },
        TokenKind::False => {
            assert(s.subrange(0, s.len() as int) =~= s);
            assert(scan(s, 0) == scan_token(s, 0));
        },
        TokenKind::Fun => {
            assert(s.subrange(0, s.len() as int) =~= s);
            assert(scan(s, 0) == scan_token(s, 0));
        },
        TokenKind::For => {
            assert(s.subrange(0, s.len() as int) =~= s);
            assert(scan(s, 0) == scan_token(s, 0));
        },
        TokenKind::If => {
            assert(s.subrange(0, s.len() as int) =~= s);
            assert(scan(s, 0) == scan_token(s, 0));
        },
        TokenKind::Nil => {
            assert(s.subrange(0, s.len() as int) =~= s);
            assert(scan(s, 0) == scan_token(s, 0));
        },
        TokenKind::Or => {
            assert(s.subrange(0, s.len() as int) =~= s);
            assert(scan(s, 0) == scan_token(s, 0));
        },
        TokenKind::Print => {
            assert(s.subrange(0, s.len() as int) =~= s);
            assert(scan(s, 0) == scan_token(s, 0));
        },
        TokenKind::Return => {
            assert(s.subrange(0, s.len() as int) =~= s);
            assert(scan(s, 0) == scan_token(s, 0));
        },
        TokenKind::Super => {
            assert(s.subrange(0, s.len() as int) =~= s);
            assert(scan(s, 0) == scan_token(s, 0));
        },
        TokenKind::This => {
            assert(s.subrange(0, s.len() as int) =~= s);
            assert(scan(s, 0) == scan_token(s, 0));
        },
        TokenKind::True => {
            assert(s.subrange(0, s.len() as int) =~= s);
            assert(scan(s, 0) == scan_token(s, 0));
        },
        TokenKind::Var => {
            assert(s.subrange(0, s.len() as int) =~= s);
            assert(scan(s, 0) == scan_token(s, 0));
        },
        TokenKind::While => {
            assert(s.subrange(0, s.len() as int) =~= s);
            assert(scan(s, 0) == scan_token(s, 0));
        },
        _ => {},
    }
}

/// Lexing the text a fixed-spelling kind is shown with gives back exactly
/// that kind on line 1, then the end of input, and no error.
pub proof fn law_kind_text_lexes_back(k: TokenKind)
    requires
        fixed_spelling(k),
    ensures
        scan_all(k.spec_text(), 0) == (
            seq![(k, None::<Seq<char>>, 1int), (TokenKind::Eof, None::<Seq<char>>, 1int)],
            Seq::<LexError>::empty(),
        ),
{
    let s = k.spec_text();
    keyword_spellings();
    match k {
        TokenKind::LParen => {
            reveal_strlit("(");
            lemma_punctuation_scans(k);
        },
        TokenKind::RParen => {
            reveal_strlit(")");
            lemma_punctuation_scans(k);
        },
        TokenKind::LBrace => {
            reveal_strlit("{");
            lemma_punctuation_scans(k);
        },
        TokenKind::RBrace => {
            reveal_strlit("}");
            lemma_punctuation_scans(k);
        },
        TokenKind::Comma => {
            reveal_strlit(",");
            lemma_punctuation_scans(k);
        },
        TokenKind::Dot => {
            reveal_strlit(".");
            lemma_punctuation_scans(k);
        },
        TokenKind::Minus => {
            reveal_strlit("-");
            lemma_punctuation_scans(k);
        },
        TokenKind::Plus => {
            reveal_strlit("+");
            lemma_punctuation_scans(k);
        },
        TokenKind::Semicolon => {
            reveal_strlit(";");
            lemma_punctuation_scans(k);
        },
        TokenKind::Slash => {
            reveal_strlit("/");
            lemma_punctuation_scans(k);
        },
        TokenKind::Star => {
            reveal_strlit("*");
            lemma_punctuation_scans(k);
        },
        TokenKind::Bang => {
            reveal_strlit("!");
            lemma_punctuation_scans(k);
        },
        TokenKind::Neq => {
            reveal_strlit("!=");
            lemma_punctuation_scans(k);
        },
        TokenKind::Assign => {
            reveal_strlit("=");
            lemma_punctuation_scans(k);
        },
        TokenKind::Eq => {
            reveal_strlit("==");
            lemma_punctuation_scans(k);
        },
        TokenKind::Gt => {
            reveal_strlit(">");
            lemma_punctuation_scans(k);
        },
        TokenKind::Gte => {
            reveal_strlit(">=");
            lemma_punctuation_scans(k);
        },
        TokenKind::Lt => {
            reveal_strlit("<");
            lemma_punctuation_scans(k);
        },
        TokenKind::Lte => {
            reveal_strlit("<=");
            lemma_punctuation_scans(k);
        },
        TokenKind::And => {
            lemma_keyword_scans(k);
        },
        TokenKind::Class => {
            lemma_keyword_scans(k);
        },
        TokenKind::Else => {
            lemma_keyword_scans(k);
        },
        TokenKind::False => {
            lemma_keyword_scans(k);
        },
        TokenKind::Fun => {
            lemma_keyword_scans(k);
        },
        TokenKind::For => {
            lemma_keyword_scans(k);
        },
        TokenKind::If => {
            lemma_keyword_scans(k);
        },
        TokenKind::Nil => {
            lemma_keyword_scans(k);
        },
        TokenKind::Or => {
            lemma_keyword_scans(k);
        },
        TokenKind::Print => {
            lemma_keyword_scans(k);
        },
        TokenKind::Return => {
            lemma_keyword_scans(k);
        },
        TokenKind::Super => {
            lemma_keyword_scans(k);
        },
        TokenKind::This => {
            lemma_keyword_scans(k);
        },
        TokenKind::True => {
            lemma_keyword_scans(k);
        },
        TokenKind::Var => {
            lemma_keyword_scans(k);
        },
        TokenKind::While => {
            lemma_keyword_scans(k);
        },
        _ => {},
    }
    let len = s.len() as int;
    assert(scan(s, len) == (Ok::<(TokenKind, Option<Seq<char>>), LexError>((TokenKind::Eof, None)), len));
    assert(scan_all(s, len) == (
        seq![(TokenKind::Eof, None::<Seq<char>>, 1int)],
        Seq::<LexError>::empty(),
    ));
    assert(scan_all(s, 0).0 =~= seq![(k, None::<Seq<char>>, 1int)] + scan_all(s, len).0);
}

} // verus!
