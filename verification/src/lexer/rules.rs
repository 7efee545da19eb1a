//! The lexical grammar: which token the lexer finds at a position of the
//! source, and where that token ends.

use vstd::prelude::*;

use super::error::LexError;
use super::token::TokenKind;

verus! {

pub open spec fn is_digit(c: char) -> bool {
    '0' <= c && c <= '9'
}

pub open spec fn is_alpha(c: char) -> bool {
    ('a' <= c && c <= 'z') || ('A' <= c && c <= 'Z')
}

/// A character that may start an identifier.
pub open spec fn is_ident_start_char(c: char) -> bool {
    is_alpha(c) || c == '_'
}

/// A character that may continue an identifier.
pub open spec fn is_ident_char(c: char) -> bool {
    is_alpha(c) || is_digit(c) || c == '_'
}

/// The characters with the Unicode `White_Space` property.
pub open spec fn is_white_space(c: char) -> bool {
    ||| '\u{9}' <= c && c <= '\u{d}'
    ||| c == ' '
    ||| c == '\u{85}'
    ||| c == '\u{a0}'
    ||| c == '\u{1680}'
    ||| '\u{2000}' <= c && c <= '\u{200a}'
    ||| c == '\u{2028}'
    ||| c == '\u{2029}'
    ||| c == '\u{202f}'
    ||| c == '\u{205f}'
    ||| c == '\u{3000}'
}

/// The number of line feeds among `s[i..j]`.
pub open spec fn newlines(s: Seq<char>, i: int, j: int) -> nat
    decreases j - i,
{
    if j <= i {
        0
    } else {
        newlines(s, i, j - 1) + if 0 <= j - 1 < s.len() && s[j - 1] == '\n' {
            1nat
        } else {
            0nat
        }
    }
}

/// The end of the run of digits that starts at `i`.
pub open spec fn digits_end(s: Seq<char>, i: int) -> int
    decreases s.len() - i,
{
    if 0 <= i < s.len() && is_digit(s[i]) {
        digits_end(s, i + 1)
    } else {
        i
    }
}

/// The end of the run of identifier characters that starts at `i`.
pub open spec fn ident_end(s: Seq<char>, i: int) -> int
    decreases s.len() - i,
{
    if 0 <= i < s.len() && is_ident_char(s[i]) {
        ident_end(s, i + 1)
    } else {
        i
    }
}

/// The position just after the first `target` at or after `i`, or the end of
/// the source when there is none.
pub open spec fn through(s: Seq<char>, i: int, target: char) -> int
    decreases s.len() - i,
{
    if 0 <= i < s.len() {
        if s[i] == target {
            i + 1
        } else {
            through(s, i + 1, target)
        }
    } else {
        i
    }
}

/// The position of the first `"` at or after `i`, or the end of the source
/// when there is none.
pub open spec fn quote_at(s: Seq<char>, i: int) -> int
    decreases s.len() - i,
{
    if 0 <= i < s.len() {
        if s[i] == '"' {
            i
        } else {
            quote_at(s, i + 1)
        }
    } else {
        i
    }
}

/// The end of the number literal whose first digit is at `i`: its digits,
/// then `.` and more digits when a digit follows the `.`.
pub open spec fn number_end(s: Seq<char>, i: int) -> int {
    let d = digits_end(s, i + 1);
    if d + 1 < s.len() && s[d] == '.' && is_digit(s[d + 1]) {
        digits_end(s, d + 1)
    } else {
        d
    }
}

/// The keyword a word spells, if any.
pub open spec fn keyword_kind(w: Seq<char>) -> Option<TokenKind> {
    if w == "and"@ {
        Some(TokenKind::And)
    } else if w == "class"@ {
        Some(TokenKind::Class)
    } else if w == "else"@ {
        Some(TokenKind::Else)
    } else if w == "false"@ {
        Some(TokenKind::False)
    } else if w == "fun"@ {
        Some(TokenKind::Fun)
    } else if w == "for"@ {
        Some(TokenKind::For)
    } else if w == "if"@ {
        Some(TokenKind::If)
    } else if w == "nil"@ {
        Some(TokenKind::Nil)
    } else if w == "or"@ {
        Some(TokenKind::Or)
    } else if w == "print"@ {
        Some(TokenKind::Print)
    } else if w == "return"@ {
        Some(TokenKind::Return)
    } else if w == "super"@ {
        Some(TokenKind::Super)
    } else if w == "this"@ {
        Some(TokenKind::This)
    } else if w == "true"@ {
        Some(TokenKind::True)
    } else if w == "var"@ {
        Some(TokenKind::Var)
    } else if w == "while"@ {
        Some(TokenKind::While)
    } else {
        None
    }
}

/// The kind of a one-character token.
pub open spec fn single_char_kind(c: char) -> Option<TokenKind> {
    if c == '(' {
        Some(TokenKind::LParen)
    } else if c == ')' {
        Some(TokenKind::RParen)
    } else if c == '{' {
        Some(TokenKind::LBrace)
    } else if c == '}' {
        Some(TokenKind::RBrace)
    } else if c == ',' {
        Some(TokenKind::Comma)
    } else if c == '.' {
        Some(TokenKind::Dot)
    } else if c == '-' {
        Some(TokenKind::Minus)
    } else if c == '+' {
        Some(TokenKind::Plus)
    } else if c == ';' {
        Some(TokenKind::Semicolon)
    } else if c == '/' {
        Some(TokenKind::Slash)
    } else if c == '*' {
        Some(TokenKind::Star)
    } else {
        None
    }
}

/// For `!`, `=`, `<` and `>`: the kind when `=` follows, and the kind alone.
pub open spec fn two_char_kinds(c: char) -> Option<(TokenKind, TokenKind)> {
    if c == '!' {
        Some((TokenKind::Neq, TokenKind::Bang))
    } else if c == '=' {
        Some((TokenKind::Eq, TokenKind::Assign))
    } else if c == '<' {
        Some((TokenKind::Lte, TokenKind::Lt))
    } else if c == '>' {
        Some((TokenKind::Gte, TokenKind::Gt))
    } else {
        None
    }
}

/// What one scan gives: a token kind with its lexeme, or an error.
pub type Scanned = Result<(TokenKind, Option<Seq<char>>), LexError>;

/// The token that starts at `i` (no whitespace or comment there), with the
/// position where the scan stops.
pub open spec fn scan_token(s: Seq<char>, i: int) -> (Scanned, int) {
    let c = s[i];
    if single_char_kind(c) is Some {
        (Ok((single_char_kind(c)->0, None)), i + 1)
    } else if two_char_kinds(c) is Some {
        let (with_eq, alone) = two_char_kinds(c)->0;
        if i + 1 < s.len() && s[i + 1] == '=' {
            (Ok((with_eq, None)), i + 2)
        } else {
            (Ok((alone, None)), i + 1)
        }
    } else if c == '"' {
        let q = quote_at(s, i + 1);
        if q < s.len() {
            (Ok((TokenKind::String, Some(s.subrange(i + 1, q)))), q + 1)
        } else {
            (Err(LexError::UnterminatedString), q)
        }
    } else if is_digit(c) {
        let e = number_end(s, i);
        (Ok((TokenKind::Number, Some(s.subrange(i, e)))), e)
    } else if is_ident_start_char(c) {
        let e = ident_end(s, i + 1);
        let w = s.subrange(i, e);
        match keyword_kind(w) {
            Some(k) => (Ok((k, None)), e),
            None => (Ok((TokenKind::Identifier, Some(w))), e),
        }
    } else {
        // the character after an invalid one is skipped as well
        (Err(LexError::InvalidCharacter(c)), if i + 1 < s.len() { i + 2 } else { i + 1 })
    }
}

/// The next token at or after `i`: whitespace and `//` comments are skipped;
/// at the end of the source the token is `Eof`.
pub open spec fn scan(s: Seq<char>, i: int) -> (Scanned, int)
    decreases s.len() - i,
{
    if !(0 <= i < s.len()) {
        (Ok((TokenKind::Eof, None)), i)
    } else if is_white_space(s[i]) {
        scan(s, i + 1)
    } else if s[i] == '/' && i + 1 < s.len() && s[i + 1] == '/' {
        proof {
            lemma_through_bounds(s, i + 2, '\n');
        }
        scan(s, through(s, i + 2, '\n'))
    } else {
        scan_token(s, i)
    }
}

/// Whether an outcome is the `Eof` token.
pub open spec fn is_eof(o: Scanned) -> bool {
    o matches Ok((k, _)) && k == TokenKind::Eof
}

proof fn lemma_scan_token_bounds(s: Seq<char>, i: int)
    requires
        0 <= i < s.len(),
    ensures
        i < scan_token(s, i).1 <= s.len(),
        !is_eof(scan_token(s, i).0),
{
    let c = s[i];
    lemma_quote_at_bounds(s, i + 1);
    lemma_ident_end_bounds(s, i + 1);
    lemma_digits_end_bounds(s, i + 1);
    let d = digits_end(s, i + 1);
    if d + 1 < s.len() {
        lemma_digits_end_bounds(s, d + 1);
    }
}

/// A scan stops inside the source and never moves back; it moves forward
/// unless it gives `Eof`, and it gives `Eof` only at the end of the source,
/// with no lexeme.
pub proof fn lemma_scan_bounds(s: Seq<char>, i: int)
    requires
        0 <= i <= s.len(),
    ensures
        i <= scan(s, i).1 <= s.len(),
        !is_eof(scan(s, i).0) ==> i < scan(s, i).1,
        is_eof(scan(s, i).0) ==> scan(s, i).1 == s.len() && scan(s, i).0 == Ok::<
            (TokenKind, Option<Seq<char>>),
            LexError,
        >((TokenKind::Eof, None)),
    decreases s.len() - i,
{
    if i < s.len() {
        if is_white_space(s[i]) {
            lemma_scan_bounds(s, i + 1);
        } else if s[i] == '/' && i + 1 < s.len() && s[i + 1] == '/' {
            lemma_through_bounds(s, i + 2, '\n');
            lemma_scan_bounds(s, through(s, i + 2, '\n'));
        } else {
            lemma_scan_token_bounds(s, i);
        }
    }
}

pub proof fn lemma_through_bounds(s: Seq<char>, i: int, target: char)
    requires
        0 <= i <= s.len(),
    ensures
        i <= through(s, i, target) <= s.len(),
    decreases s.len() - i,
{
    if i < s.len() && s[i] != target {
        lemma_through_bounds(s, i + 1, target);
    }
}

pub proof fn lemma_quote_at_bounds(s: Seq<char>, i: int)
    requires
        0 <= i <= s.len(),
    ensures
        i <= quote_at(s, i) <= s.len(),
        forall|j: int| i <= j < quote_at(s, i) ==> s[j] != '"',
        quote_at(s, i) < s.len() ==> s[quote_at(s, i)] == '"',
    decreases s.len() - i,
{
    if i < s.len() && s[i] != '"' {
        lemma_quote_at_bounds(s, i + 1);
    }
}

pub proof fn lemma_digits_end_bounds(s: Seq<char>, i: int)
    requires
        0 <= i <= s.len(),
    ensures
        i <= digits_end(s, i) <= s.len(),
        forall|j: int| i <= j < digits_end(s, i) ==> is_digit(#[trigger] s[j]),
        digits_end(s, i) < s.len() ==> !is_digit(s[digits_end(s, i)]),
    decreases s.len() - i,
{
    if i < s.len() && is_digit(s[i]) {
        lemma_digits_end_bounds(s, i + 1);
    }
}

pub proof fn lemma_ident_end_bounds(s: Seq<char>, i: int)
    requires
        0 <= i <= s.len(),
    ensures
        i <= ident_end(s, i) <= s.len(),
        forall|j: int| i <= j < ident_end(s, i) ==> is_ident_char(#[trigger] s[j]),
        ident_end(s, i) < s.len() ==> !is_ident_char(s[ident_end(s, i)]),
    decreases s.len() - i,
{
    if i < s.len() && is_ident_char(s[i]) {
        lemma_ident_end_bounds(s, i + 1);
    }
}

/// Newline counts add up over adjacent ranges.
pub proof fn lemma_newlines_split(s: Seq<char>, i: int, j: int, k: int)
    requires
        i <= j <= k,
    ensures
        newlines(s, i, k) == newlines(s, i, j) + newlines(s, j, k),
    decreases k - j,
{
    if j < k {
        lemma_newlines_split(s, i, j, k - 1);
    }
}

/// A range holds no more line feeds than characters.
pub proof fn lemma_newlines_bound(s: Seq<char>, i: int, j: int)
    requires
        i <= j,
    ensures
        newlines(s, i, j) <= j - i,
    decreases j - i,
{
    if i < j {
        lemma_newlines_bound(s, i, j - 1);
    }
}

/// What the lexer reports of one token: kind, lexeme and line.
pub type TokenView = (TokenKind, Option<Seq<char>>, int);

/// The line the lexer is on after reading the source up to `i`.
pub open spec fn line_at(s: Seq<char>, i: int) -> int {
    1 + newlines(s, 0, i) as int
}

/// Scanning the whole source from `i`: the tokens up to and including the
/// `Eof`, and the errors met on the way, scanning going on after each error.
pub open spec fn scan_all(s: Seq<char>, i: int) -> (Seq<TokenView>, Seq<LexError>)
    decreases s.len() - i,
{
    if !(0 <= i <= s.len()) {
        (Seq::empty(), Seq::empty())
    } else {
        let (o, e) = scan(s, i);
        proof {
            lemma_scan_bounds(s, i);
        }
        match o {
            Ok((k, l)) => if k == TokenKind::Eof {
                (seq![(k, l, line_at(s, e))], Seq::empty())
            } else {
                let (ts, es) = scan_all(s, e);
                (seq![(k, l, line_at(s, e))] + ts, es)
            },
            Err(x) => {
                let (ts, es) = scan_all(s, e);
                (ts, seq![x] + es)
            },
        }
    }
}

} // verus!
