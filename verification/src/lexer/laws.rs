//! Properties of the lexical grammar that hold of every source.

use vstd::prelude::*;

use super::error::LexError;
use super::rules::{
    digits_end, ident_end, is_digit, is_eof, is_ident_char, is_ident_start_char, keyword_kind,
    lemma_digits_end_bounds, lemma_ident_end_bounds, lemma_quote_at_bounds, lemma_scan_bounds,
    lemma_newlines_split, lemma_through_bounds, line_at, number_end, quote_at, scan,
    scan_all, scan_token, single_char_kind, through, two_char_kinds,
};
use super::token::TokenKind;

verus! {

/// A number's text split after its first `d` characters: those are digits,
/// and what follows, if anything, is `.` and digits.
pub open spec fn number_split(w: Seq<char>, d: int) -> bool {
    &&& 1 <= d <= w.len()
    &&& forall|j: int| 0 <= j < d ==> is_digit(#[trigger] w[j])
    &&& d == w.len() || (w[d] == '.' && d + 1 < w.len() && forall|j: int|
        d + 1 <= j < w.len() ==> is_digit(#[trigger] w[j]))
}

/// The shape of a number literal: digits, then optionally `.` and digits.
pub open spec fn number_shape(w: Seq<char>) -> bool {
    exists|d: int| number_split(w, d)
}

/// Once the source is used up, every further scan gives `Eof` again, at the
/// same place.
pub proof fn lemma_eof_repeats(s: Seq<char>, i: int)
    requires
        0 <= i <= s.len(),
        is_eof(scan(s, i).0),
    ensures
        scan(s, scan(s, i).1) == (
            Ok::<(TokenKind, Option<Seq<char>>), LexError>((TokenKind::Eof, None)),
            s.len() as int,
        ),
{
    lemma_scan_bounds(s, i);
}

proof fn lemma_scan_token_text(s: Seq<char>, i: int)
    requires
        0 <= i < s.len(),
    ensures
        ({
            let (o, e) = scan_token(s, i);
            o matches Ok((k, l)) ==> {
                &&& (l is Some <==> (k == TokenKind::Identifier || k == TokenKind::Number || k
                    == TokenKind::String))
                &&& k == TokenKind::Identifier ==> {
                    let w = l->0;
                    &&& 0 < w.len() && w == s.subrange(e - w.len(), e)
                    &&& is_ident_start_char(w[0])
                    &&& forall|j: int| 0 < j < w.len() ==> is_ident_char(#[trigger] w[j])
                    &&& keyword_kind(w) is None
                }
                &&& k == TokenKind::Number ==> {
                    let w = l->0;
                    &&& 0 < w.len() && w == s.subrange(e - w.len(), e)
                    &&& number_shape(w)
                }
                &&& k == TokenKind::String ==> {
                    let w = l->0;
                    &&& w.len() + 1 < e && s[e - 1] == '"' && w == s.subrange(
                        e - 1 - w.len(),
                        e - 1,
                    )
                    &&& forall|j: int| 0 <= j < w.len() ==> #[trigger] w[j] != '"'
                }
            }
        }),
{
    let c = s[i];
    if single_char_kind(c) is Some || two_char_kinds(c) is Some {
    } else if c == '"' {
        lemma_quote_at_bounds(s, i + 1);
        let q = quote_at(s, i + 1);
        if q < s.len() {
            let w = s.subrange(i + 1, q);
            assert forall|j: int| 0 <= j < w.len() implies #[trigger] w[j] != '"' by {
                assert(w[j] == s[i + 1 + j]);
            }
        }
    } else if is_digit(c) {
        lemma_digits_end_bounds(s, i + 1);
        let d = digits_end(s, i + 1);
        let e = number_end(s, i);
        let w = s.subrange(i, e);
        if d + 1 < s.len() && s[d] == '.' && is_digit(s[d + 1]) {
            lemma_digits_end_bounds(s, d + 1);
            let dd = d - i;
            assert(forall|j: int| 0 <= j < dd ==> is_digit(#[trigger] w[j])) by {
                assert forall|j: int| 0 <= j < dd implies is_digit(#[trigger] w[j]) by {
                    assert(w[j] == s[i + j]);
                    if j > 0 {
                        assert(i + 1 <= i + j < d);
                    }
                }
            }
            assert(forall|j: int| dd + 1 <= j < w.len() ==> is_digit(#[trigger] w[j])) by {
                assert forall|j: int| dd + 1 <= j < w.len() implies is_digit(#[trigger] w[j]) by {
                    assert(w[j] == s[i + j]);
                }
            }
            assert(w[dd] == s[d]);
            assert(number_split(w, dd));
        } else {
            let dd = d - i;
            assert(forall|j: int| 0 <= j < dd ==> is_digit(#[trigger] w[j])) by {
                assert forall|j: int| 0 <= j < dd implies is_digit(#[trigger] w[j]) by {
                    assert(w[j] == s[i + j]);
                    if j > 0 {
                        assert(i + 1 <= i + j < d);
                    }
                }
            }
            assert(number_split(w, dd));
        }
    } else if is_ident_start_char(c) {
        lemma_ident_end_bounds(s, i + 1);
        let e = ident_end(s, i + 1);
        let w = s.subrange(i, e);
        assert forall|j: int| 0 < j < w.len() implies is_ident_char(#[trigger] w[j]) by {
            assert(w[j] == s[i + j]);
        }
    }
}

/// The text a token carries is the text it was read from: an identifier is
/// a word that is no keyword, a number has the shape `digits(.digits)?`, a
/// string is what lies between its quotes and holds no `"`. Exactly those
/// three kinds carry a lexeme.
pub proof fn lemma_token_text(s: Seq<char>, i: int)
    requires
        0 <= i <= s.len(),
    ensures
        ({
            let (o, e) = scan(s, i);
            o matches Ok((k, l)) ==> {
                &&& (l is Some <==> (k == TokenKind::Identifier || k == TokenKind::Number || k
                    == TokenKind::String))
                &&& k == TokenKind::Identifier ==> {
                    let w = l->0;
                    &&& 0 < w.len() && w == s.subrange(e - w.len(), e)
                    &&& is_ident_start_char(w[0])
                    &&& forall|j: int| 0 < j < w.len() ==> is_ident_char(#[trigger] w[j])
                    &&& keyword_kind(w) is None
                }
                &&& k == TokenKind::Number ==> {
                    let w = l->0;
                    &&& 0 < w.len() && w == s.subrange(e - w.len(), e)
                    &&& number_shape(w)
                }
                &&& k == TokenKind::String ==> {
                    let w = l->0;
                    &&& w.len() + 1 < e && s[e - 1] == '"' && w == s.subrange(
                        e - 1 - w.len(),
                        e - 1,
                    )
                    &&& forall|j: int| 0 <= j < w.len() ==> #[trigger] w[j] != '"'
                }
            }
        }),
    decreases s.len() - i,
{
    if i < s.len() {
        if super::rules::is_white_space(s[i]) {
            lemma_token_text(s, i + 1);
        } else if s[i] == '/' && i + 1 < s.len() && s[i + 1] == '/' {
            lemma_through_bounds(s, i + 2, '\n');
            lemma_token_text(s, through(s, i + 2, '\n'));
        } else {
            lemma_scan_token_text(s, i);
        }
    }
}

/// The line only grows as the source is read.
pub proof fn lemma_line_at_grows(s: Seq<char>, i: int, j: int)
    requires
        0 <= i <= j,
    ensures
        line_at(s, i) <= line_at(s, j),
{
    lemma_newlines_split(s, 0, i, j);
}

/// The token stream of a source ends with an `Eof` token and holds no other.
pub proof fn lemma_stream_ends_with_eof(s: Seq<char>, i: int)
    requires
        0 <= i <= s.len(),
    ensures
        ({
            let ts = scan_all(s, i).0;
            &&& ts.len() >= 1
            &&& ts.last().0 == TokenKind::Eof
            &&& forall|j: int| 0 <= j < ts.len() - 1 ==> (#[trigger] ts[j]).0 != TokenKind::Eof
        }),
    decreases s.len() - i,
{
    lemma_scan_bounds(s, i);
    let (o, e) = scan(s, i);
    if !is_eof(o) {
        lemma_stream_ends_with_eof(s, e);
        let ts = scan_all(s, i).0;
        let rest = scan_all(s, e).0;
        if o is Ok {
            assert forall|j: int| 0 <= j < ts.len() - 1 implies (#[trigger] ts[j]).0
                != TokenKind::Eof by {
                if j > 0 {
                    assert(ts[j] == rest[j - 1]);
                }
            }
        }
    }
}

/// Token lines never go down along the stream: each lies between the line
/// where the scan starts and the last line of the source, where the `Eof`
/// stands.
pub proof fn lemma_stream_lines(s: Seq<char>, i: int)
    requires
        0 <= i <= s.len(),
    ensures
        ({
            let ts = scan_all(s, i).0;
            &&& forall|j: int, k: int| 0 <= j <= k < ts.len() ==> (#[trigger] ts[j]).2 <= (
            #[trigger] ts[k]).2
            &&& forall|j: int| 0 <= j < ts.len() ==> line_at(s, i) <= (#[trigger] ts[j]).2 <= line_at(
                s,
                s.len() as int,
            )
            &&& ts.len() >= 1 && ts.last().2 == line_at(s, s.len() as int)
        }),
    decreases s.len() - i,
{
    lemma_scan_bounds(s, i);
    let (o, e) = scan(s, i);
    lemma_line_at_grows(s, i, e);
    lemma_line_at_grows(s, e, s.len() as int);
    if !is_eof(o) {
        lemma_stream_lines(s, e);
        let ts = scan_all(s, i).0;
        let rest = scan_all(s, e).0;
        if o is Ok {
            assert forall|j: int| 0 <= j < ts.len() implies line_at(s, i) <= (#[trigger] ts[j]).2
                <= line_at(s, s.len() as int) by {
                if j > 0 {
                    assert(ts[j] == rest[j - 1]);
                }
            }
            assert forall|j: int, k: int| 0 <= j <= k < ts.len() implies (#[trigger] ts[j]).2 <= (
            #[trigger] ts[k]).2 by {
                if j > 0 {
                    assert(ts[j] == rest[j - 1]);
                }
                if k > 0 {
                    assert(ts[k] == rest[k - 1]);
                }
            }
        }
    }
}

/// Along the stream, exactly the identifier, number and string tokens carry
/// a lexeme.
pub proof fn lemma_stream_lexemes(s: Seq<char>, i: int)
    requires
        0 <= i <= s.len(),
    ensures
        ({
            let ts = scan_all(s, i).0;
            forall|j: int|
                0 <= j < ts.len() ==> ((#[trigger] ts[j]).1 is Some <==> (ts[j].0
                    == TokenKind::Identifier || ts[j].0 == TokenKind::Number || ts[j].0
                    == TokenKind::String))
        }),
    decreases s.len() - i,
{
    lemma_scan_bounds(s, i);
    lemma_token_text(s, i);
    let (o, e) = scan(s, i);
    if !is_eof(o) {
        lemma_stream_lexemes(s, e);
        let ts = scan_all(s, i).0;
        let rest = scan_all(s, e).0;
        if o is Ok {
            assert forall|j: int| 0 <= j < ts.len() implies ((#[trigger] ts[j]).1 is Some <==> (
            ts[j].0 == TokenKind::Identifier || ts[j].0 == TokenKind::Number || ts[j].0
                == TokenKind::String)) by {
                if j > 0 {
                    assert(ts[j] == rest[j - 1]);
                }
            }
        }
    }
}

/// An ASCII letter.
pub open spec fn ascii_letter(c: char) -> bool {
    ('a' <= c && c <= 'z') || ('A' <= c && c <= 'Z')
}

/// A character of a word: an ASCII letter, an ASCII digit or `_`.
pub open spec fn word_char(c: char) -> bool {
    ascii_letter(c) || ('0' <= c && c <= '9') || c == '_'
}

/// An identifier is a whole word: it starts with an ASCII letter or `_`,
/// holds only ASCII letters, digits and `_`, and the character after it,
/// if any, is none of those, so a `_` or a digit inside a word never ends
/// it.
pub proof fn law_identifier_is_whole_word(s: Seq<char>, i: int)
    requires
        0 <= i <= s.len(),
    ensures
        ({
            let (o, e) = scan(s, i);
            o is Ok && o->Ok_0.0 == TokenKind::Identifier ==> {
                let w = o->Ok_0.1->0;
                &&& 0 < w.len() <= e <= s.len()
                &&& w == s.subrange(e - w.len(), e)
                &&& ascii_letter(w[0]) || w[0] == '_'
                &&& forall|j: int| 0 <= j < w.len() ==> word_char(#[trigger] w[j])
                &&& e < s.len() ==> !word_char(s[e])
            }
        }),
    decreases s.len() - i,
{
    if i < s.len() {
        if super::rules::is_white_space(s[i]) {
            law_identifier_is_whole_word(s, i + 1);
        } else if s[i] == '/' && i + 1 < s.len() && s[i + 1] == '/' {
            lemma_through_bounds(s, i + 2, '\n');
            law_identifier_is_whole_word(s, through(s, i + 2, '\n'));
        } else {
            lemma_ident_end_bounds(s, i + 1);
            let e = ident_end(s, i + 1);
            let w = s.subrange(i, e);
            let o = scan_token(s, i).0;
            if o is Ok && o->Ok_0.0 == TokenKind::Identifier {
                assert(is_ident_start_char(s[i]));
                assert forall|j: int| 0 <= j < w.len() implies word_char(#[trigger] w[j]) by {
                    assert(w[j] == s[i + j]);
                    if j > 0 {
                        assert(is_ident_char(s[i + j]));
                    }
                }
            }
        }
    }
}

/// An ASCII digit.
pub open spec fn ascii_digit(c: char) -> bool {
    '0' <= c && c <= '9'
}

/// A number is a whole numeral: it starts with an ASCII digit, holds only
/// ASCII digits and at most one `.`, which is followed by a digit, and the
/// character after it, if any, is no digit.
pub proof fn law_number_is_whole_numeral(s: Seq<char>, i: int)
    requires
        0 <= i <= s.len(),
    ensures
        ({
            let (o, e) = scan(s, i);
            o is Ok && o->Ok_0.0 == TokenKind::Number ==> {
                let w = o->Ok_0.1->0;
                &&& 0 < w.len() <= e <= s.len()
                &&& w == s.subrange(e - w.len(), e)
                &&& ascii_digit(w[0])
                &&& forall|j: int|
                    0 <= j < w.len() ==> ascii_digit(#[trigger] w[j]) || (w[j] == '.' && j + 1
                        < w.len() && ascii_digit(w[j + 1]))
                &&& forall|j: int, k: int|
                    0 <= j < k < w.len() && #[trigger] w[j] == '.' ==> #[trigger] w[k] != '.'
                &&& e < s.len() ==> !ascii_digit(s[e])
            }
        }),
    decreases s.len() - i,
{
    if i < s.len() {
        if super::rules::is_white_space(s[i]) {
            law_number_is_whole_numeral(s, i + 1);
        } else if s[i] == '/' && i + 1 < s.len() && s[i + 1] == '/' {
            lemma_through_bounds(s, i + 2, '\n');
            law_number_is_whole_numeral(s, through(s, i + 2, '\n'));
        } else {
            let o = scan_token(s, i).0;
            if o is Ok && o->Ok_0.0 == TokenKind::Number {
                assert(is_digit(s[i]));
                lemma_digits_end_bounds(s, i + 1);
                let d = digits_end(s, i + 1);
                let e = number_end(s, i);
                if d + 1 < s.len() && s[d] == '.' && is_digit(s[d + 1]) {
                    lemma_digits_end_bounds(s, d + 1);
                }
                let w = s.subrange(i, e);
                assert forall|j: int|
                    0 <= j < w.len() implies ascii_digit(#[trigger] w[j]) || (w[j] == '.' && j
                        + 1 < w.len() && ascii_digit(w[j + 1])) by {
                    assert(w[j] == s[i + j]);
                    if i + j < d {
                        if j > 0 {
                            assert(is_digit(s[i + j]));
                        }
                    } else if i + j > d {
                        assert(is_digit(s[i + j]));
                    } else {
                        assert(w[j + 1] == s[d + 1]);
                    }
                }
                assert forall|j: int, k: int|
                    0 <= j < k < w.len() && #[trigger] w[j] == '.' implies #[trigger] w[k]
                    != '.' by {
                    assert(w[j] == s[i + j]);
                    assert(w[k] == s[i + k]);
                    if i + j < d && j > 0 {
                        assert(is_digit(s[i + j]));
                    }
                    if i + k > d {
                        assert(is_digit(s[i + k]));
                    } else if i + k < d {
                        assert(is_digit(s[i + k]));
                    }
                }
            }
        }
    }
}

} // verus!
