//! Scanning a source made of two sources joined by a line feed: the tokens
//! of the first (without its `Eof`), then those of the second. Lines aside,
//! each part scans as it does alone.

use vstd::prelude::*;

use super::error::LexError;
use super::rules::{
    digits_end, ident_end, is_digit, is_eof, lemma_digits_end_bounds, lemma_ident_end_bounds,
    lemma_quote_at_bounds, lemma_scan_bounds, lemma_through_bounds, number_end, quote_at, scan,
    scan_all, scan_token, through, TokenView,
};
use super::laws::lemma_stream_ends_with_eof;
use super::token::TokenKind;

verus! {

/// The kinds and lexemes of a token stream, without the lines.
pub open spec fn kinds_lexemes(ts: Seq<TokenView>) -> Seq<(TokenKind, Option<Seq<char>>)> {
    Seq::new(ts.len(), |i: int| (ts[i].0, ts[i].1))
}

/// `y` is some text followed by `s`, which starts at `n`.
pub open spec fn ends_with(y: Seq<char>, s: Seq<char>, n: int) -> bool {
    &&& 0 <= n
    &&& y.len() == n + s.len()
    &&& forall|k: int| 0 <= k < s.len() ==> y[n + k] == #[trigger] s[k]
}

/// `y` is `s` followed by a line feed and more text.
pub open spec fn starts_with_line(y: Seq<char>, s: Seq<char>) -> bool {
    &&& y.len() > s.len()
    &&& y[s.len() as int] == '\n'
    &&& forall|k: int| 0 <= k < s.len() ==> y[k] == #[trigger] s[k]
}

proof fn kl_push_front(x: TokenView, ts: Seq<TokenView>)
    ensures
        kinds_lexemes(seq![x] + ts) == seq![(x.0, x.1)] + kinds_lexemes(ts),
{
    assert(kinds_lexemes(seq![x] + ts) =~= seq![(x.0, x.1)] + kinds_lexemes(ts));
}

// ---- text after a prefix scans as it does alone ----

proof fn sfx_digits_end(y: Seq<char>, s: Seq<char>, n: int, j: int)
    requires
        ends_with(y, s, n),
        0 <= j <= s.len(),
    ensures
        digits_end(y, n + j) == digits_end(s, j) + n,
    decreases s.len() - j,
{
    if j < s.len() {
        assert(y[n + j] == s[j]);
        if is_digit(s[j]) {
            sfx_digits_end(y, s, n, j + 1);
        }
    }
}

proof fn sfx_ident_end(y: Seq<char>, s: Seq<char>, n: int, j: int)
    requires
        ends_with(y, s, n),
        0 <= j <= s.len(),
    ensures
        ident_end(y, n + j) == ident_end(s, j) + n,
    decreases s.len() - j,
{
    if j < s.len() {
        assert(y[n + j] == s[j]);
        sfx_ident_end(y, s, n, j + 1);
    }
}

proof fn sfx_through(y: Seq<char>, s: Seq<char>, n: int, j: int, c: char)
    requires
        ends_with(y, s, n),
        0 <= j <= s.len(),
    ensures
        through(y, n + j, c) == through(s, j, c) + n,
    decreases s.len() - j,
{
    if j < s.len() {
        assert(y[n + j] == s[j]);
        sfx_through(y, s, n, j + 1, c);
    }
}

proof fn sfx_quote_at(y: Seq<char>, s: Seq<char>, n: int, j: int)
    requires
        ends_with(y, s, n),
        0 <= j <= s.len(),
    ensures
        quote_at(y, n + j) == quote_at(s, j) + n,
    decreases s.len() - j,
{
    if j < s.len() {
        assert(y[n + j] == s[j]);
        sfx_quote_at(y, s, n, j + 1);
    }
}

proof fn sfx_scan_token(y: Seq<char>, s: Seq<char>, n: int, j: int)
    requires
        ends_with(y, s, n),
        0 <= j < s.len(),
    ensures
        scan_token(y, n + j) == (scan_token(s, j).0, scan_token(s, j).1 + n),
{
    assert(y[n + j] == s[j]);
    if j + 1 < s.len() {
        assert(y[n + j + 1] == s[j + 1]);
    }
    sfx_quote_at(y, s, n, j + 1);
    lemma_quote_at_bounds(s, j + 1);
    sfx_ident_end(y, s, n, j + 1);
    lemma_ident_end_bounds(s, j + 1);
    sfx_digits_end(y, s, n, j + 1);
    lemma_digits_end_bounds(s, j + 1);
    let d = digits_end(s, j + 1);
    if d < s.len() {
        assert(y[n + d] == s[d]);
    }
    if d + 1 < s.len() {
        assert(y[n + d + 1] == s[d + 1]);
        sfx_digits_end(y, s, n, d + 1);
        lemma_digits_end_bounds(s, d + 1);
    }
    let q = quote_at(s, j + 1);
    assert(y.subrange(n + j + 1, n + q) =~= s.subrange(j + 1, q));
    let ie = ident_end(s, j + 1);
    assert(y.subrange(n + j, n + ie) =~= s.subrange(j, ie));
    let ne = number_end(s, j);
    assert(number_end(y, n + j) == ne + n);
    assert(y.subrange(n + j, n + ne) =~= s.subrange(j, ne));
}

proof fn sfx_scan(y: Seq<char>, s: Seq<char>, n: int, j: int)
    requires
        ends_with(y, s, n),
        0 <= j <= s.len(),
    ensures
        scan(y, n + j) == (scan(s, j).0, scan(s, j).1 + n),
    decreases s.len() - j,
{
    if j < s.len() {
        assert(y[n + j] == s[j]);
        if j + 1 < s.len() {
            assert(y[n + j + 1] == s[j + 1]);
        }
        if super::rules::is_white_space(s[j]) {
            sfx_scan(y, s, n, j + 1);
        } else if s[j] == '/' && j + 1 < s.len() && s[j + 1] == '/' {
            sfx_through(y, s, n, j + 2, '\n');
            lemma_through_bounds(s, j + 2, '\n');
            sfx_scan(y, s, n, through(s, j + 2, '\n'));
        } else {
            sfx_scan_token(y, s, n, j);
        }
    }
}

/// Scanning the text that ends `y` gives, lines aside, the tokens and
/// errors it gives alone.
pub proof fn sfx_scan_all(y: Seq<char>, s: Seq<char>, n: int, j: int)
    requires
        ends_with(y, s, n),
        0 <= j <= s.len(),
    ensures
        kinds_lexemes(scan_all(y, n + j).0) == kinds_lexemes(scan_all(s, j).0),
        scan_all(y, n + j).1 == scan_all(s, j).1,
    decreases s.len() - j,
{
    sfx_scan(y, s, n, j);
    lemma_scan_bounds(s, j);
    let (o, e) = scan(s, j);
    if !is_eof(o) {
        sfx_scan_all(y, s, n, e);
        match o {
            Ok((k, l)) => {
                kl_push_front((k, l, super::rules::line_at(y, n + e)), scan_all(y, n + e).0);
                kl_push_front((k, l, super::rules::line_at(s, e)), scan_all(s, e).0);
            },
            Err(_) => {},
        }
    } else {
        assert(kinds_lexemes(scan_all(y, n + j).0) =~= kinds_lexemes(scan_all(s, j).0));
    }
}

// ---- a source followed by a line feed scans as it does alone ----

proof fn pfx_digits_end(y: Seq<char>, s: Seq<char>, j: int)
    requires
        starts_with_line(y, s),
        0 <= j <= s.len(),
    ensures
        digits_end(y, j) == digits_end(s, j),
    decreases s.len() - j,
{
    if j < s.len() {
        assert(y[j] == s[j]);
        pfx_digits_end(y, s, j + 1);
    }
}

proof fn pfx_ident_end(y: Seq<char>, s: Seq<char>, j: int)
    requires
        starts_with_line(y, s),
        0 <= j <= s.len(),
    ensures
        ident_end(y, j) == ident_end(s, j),
    decreases s.len() - j,
{
    if j < s.len() {
        assert(y[j] == s[j]);
        pfx_ident_end(y, s, j + 1);
    }
}

proof fn pfx_quote_at(y: Seq<char>, s: Seq<char>, j: int)
    requires
        starts_with_line(y, s),
        0 <= j <= s.len(),
        quote_at(s, j) < s.len(),
    ensures
        quote_at(y, j) == quote_at(s, j),
    decreases s.len() - j,
{
    if j < s.len() {
        assert(y[j] == s[j]);
        if s[j] != '"' {
            pfx_quote_at(y, s, j + 1);
        }
    }
}

proof fn pfx_through(y: Seq<char>, s: Seq<char>, j: int)
    requires
        starts_with_line(y, s),
        0 <= j <= s.len(),
    ensures
        through(y, j, '\n') == through(s, j, '\n') || (through(s, j, '\n') == s.len() && through(
            y,
            j,
            '\n',
        ) == s.len() as int + 1),
    decreases s.len() - j,
{
    if j < s.len() {
        assert(y[j] == s[j]);
        pfx_through(y, s, j + 1);
    }
}

proof fn pfx_scan_token(y: Seq<char>, s: Seq<char>, j: int)
    requires
        starts_with_line(y, s),
        0 <= j < s.len(),
        scan_token(s, j).0 is Ok,
    ensures
        scan_token(y, j) == scan_token(s, j),
{
    assert(y[j] == s[j]);
    if j + 1 < s.len() {
        assert(y[j + 1] == s[j + 1]);
    }
    lemma_quote_at_bounds(s, j + 1);
    if quote_at(s, j + 1) < s.len() {
        pfx_quote_at(y, s, j + 1);
        let q = quote_at(s, j + 1);
        assert(y.subrange(j + 1, q) =~= s.subrange(j + 1, q));
    }
    pfx_ident_end(y, s, j + 1);
    lemma_ident_end_bounds(s, j + 1);
    let ie = ident_end(s, j + 1);
    assert(y.subrange(j, ie) =~= s.subrange(j, ie));
    pfx_digits_end(y, s, j + 1);
    lemma_digits_end_bounds(s, j + 1);
    let d = digits_end(s, j + 1);
    if d < s.len() {
        assert(y[d] == s[d]);
    }
    if d + 1 < s.len() {
        assert(y[d + 1] == s[d + 1]);
        pfx_digits_end(y, s, d + 1);
        lemma_digits_end_bounds(s, d + 1);
    }
    let ne = number_end(s, j);
    assert(number_end(y, j) == ne);
    assert(y.subrange(j, ne) =~= s.subrange(j, ne));
}

proof fn pfx_scan(y: Seq<char>, s: Seq<char>, j: int)
    requires
        starts_with_line(y, s),
        0 <= j <= s.len(),
        scan(s, j).0 is Ok,
    ensures
        !is_eof(scan(s, j).0) ==> scan(y, j) == scan(s, j),
        is_eof(scan(s, j).0) ==> scan(y, j) == scan(y, s.len() as int + 1),
    decreases s.len() - j,
{
    if j < s.len() {
        assert(y[j] == s[j]);
        if j + 1 < s.len() {
            assert(y[j + 1] == s[j + 1]);
        }
        if super::rules::is_white_space(s[j]) {
            pfx_scan(y, s, j + 1);
        } else if s[j] == '/' && j + 1 < s.len() && s[j + 1] == '/' {
            pfx_through(y, s, j + 2);
            lemma_through_bounds(s, j + 2, '\n');
            let th = through(s, j + 2, '\n');
            pfx_scan(y, s, th);
            if through(y, j + 2, '\n') != th {
                assert(scan(s, s.len() as int).0 == Ok::<
                    (TokenKind, Option<Seq<char>>),
                    LexError,
                >((TokenKind::Eof, None)));
            }
        } else {
            pfx_scan_token(y, s, j);
        }
    } else {
        assert(super::rules::is_white_space(y[s.len() as int]));
    }
}

/// Scanning a source followed by a line feed gives, lines aside, the tokens
/// of the source without its `Eof`, then what scanning gives after the line
/// feed; when the source scans without error, no error comes before.
pub proof fn pfx_scan_all(y: Seq<char>, s: Seq<char>, j: int)
    requires
        starts_with_line(y, s),
        0 <= j <= s.len(),
        scan_all(s, j).1.len() == 0,
    ensures
        kinds_lexemes(scan_all(y, j).0) == kinds_lexemes(scan_all(s, j).0).drop_last()
            + kinds_lexemes(scan_all(y, s.len() as int + 1).0),
        scan_all(y, j).1 == scan_all(y, s.len() as int + 1).1,
    decreases s.len() - j,
{
    lemma_scan_bounds(s, j);
    let (o, e) = scan(s, j);
    match o {
        Err(x) => {
            assert(scan_all(s, j).1 == seq![x] + scan_all(s, e).1);
        },
        Ok((k, l)) => {
            pfx_scan(y, s, j);
            if is_eof(o) {
                assert(kinds_lexemes(scan_all(s, j).0).drop_last() =~= Seq::<
                    (TokenKind, Option<Seq<char>>),
                >::empty());
                assert(kinds_lexemes(scan_all(y, j).0) =~= kinds_lexemes(
                    scan_all(y, s.len() as int + 1).0,
                ));
            } else {
                pfx_scan_all(y, s, e);
                lemma_stream_ends_with_eof(s, e);
                kl_push_front((k, l, super::rules::line_at(y, e)), scan_all(y, e).0);
                kl_push_front((k, l, super::rules::line_at(s, e)), scan_all(s, e).0);
                let a = kinds_lexemes(scan_all(s, e).0);
                assert((seq![(k, l)] + a).drop_last() =~= seq![(k, l)] + a.drop_last());
                assert(seq![(k, l)] + (a.drop_last() + kinds_lexemes(
                    scan_all(y, s.len() as int + 1).0,
                )) =~= (seq![(k, l)] + a.drop_last()) + kinds_lexemes(
                    scan_all(y, s.len() as int + 1).0,
                ));
            }
        },
    }
}

/// Two sources joined by a line feed scan, lines aside, to the tokens of the
/// first without its `Eof` followed by those of the second, with the errors
/// of the second when the first has none.
pub proof fn law_joined_sources_scan(s1: Seq<char>, s2: Seq<char>)
    requires
        scan_all(s1, 0).1.len() == 0,
    ensures
        kinds_lexemes(scan_all(s1.push('\n') + s2, 0).0) == kinds_lexemes(scan_all(s1, 0).0).drop_last()
            + kinds_lexemes(scan_all(s2, 0).0),
        scan_all(s1.push('\n') + s2, 0).1 == scan_all(s2, 0).1,
{
    let y = s1.push('\n') + s2;
    assert(starts_with_line(y, s1));
    assert(ends_with(y, s2, s1.len() as int + 1));
    pfx_scan_all(y, s1, 0);
    sfx_scan_all(y, s2, s1.len() as int + 1, 0);
}

} // verus!
