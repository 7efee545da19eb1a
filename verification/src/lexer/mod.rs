//! The lexer: source text to tokens. What it produces is stated in `rules`,
//! a lexical grammar over the characters of the source.

pub mod error;
pub mod joining;
pub mod laws;
pub mod rules;
pub mod spelling;
pub mod token;

pub use error::LexError;
pub use token::{Token, TokenKind};

use vstd::prelude::*;

use crate::text::{push_char, same_text};
use rules::{
    digits_end, ident_end, is_digit, is_eof, is_ident_char, is_ident_start_char, is_white_space,
    keyword_kind, lemma_newlines_bound, lemma_newlines_split, lemma_quote_at_bounds,
    lemma_scan_bounds, lemma_through_bounds, line_at, newlines, number_end, quote_at, scan,
    scan_all, scan_token, through, Scanned,
};
use token::{lexeme_view, tokens_view};

verus! {

/// Turns source text into tokens, one `next_token` call at a time.
pub struct Lexer {
    chars: Vec<char>,
    pos: usize,
    line: usize,
}

/// Whether a call's result agrees with what the lexical grammar scans: the
/// same token kind and lexeme at the given line, or the same error.
pub open spec fn agrees(r: Result<Token, LexError>, o: Scanned, line: int) -> bool {
    match (r, o) {
        (Ok(t), Ok((k, l))) => t.kind == k && lexeme_view(t.lexeme) == l && t.line == line,
        (Err(e), Err(f)) => e == f,
        _ => false,
    }
}

impl Lexer {
    /// The characters of the source.
    pub closed spec fn source(&self) -> Seq<char> {
        self.chars@
    }

    /// How many characters of the source have been read.
    pub closed spec fn position(&self) -> int {
        self.pos as int
    }

    /// The line the lexer is on: one more than the line feeds read so far.
    pub closed spec fn current_line(&self) -> int {
        self.line as int
    }

    /// The position lies in the source and the line counts the line feeds
    /// before it.
    pub closed spec fn wf(&self) -> bool {
        &&& self.pos <= self.chars@.len()
        &&& self.chars@.len() < usize::MAX
        &&& self.line == 1 + newlines(self.chars@, 0, self.pos as int)
    }

    /// What `wf` says, for callers outside this module.
    pub proof fn lemma_wf(&self)
        requires
            self.wf(),
        ensures
            0 <= self.position() <= self.source().len(),
            self.current_line() == 1 + newlines(self.source(), 0, self.position()),
    {
    }

    /// A lexer at the start of `src`, on line 1.
    pub fn new(src: &str) -> (l: Self)
        requires
            src@.len() < usize::MAX,
        ensures
            l.wf(),
            l.source() == src@,
            l.position() == 0,
            l.current_line() == 1,
    {
        let mut chars: Vec<char> = Vec::new();
        for c in it: src.chars()
            invariant
                chars@ == it.seq().take(it.index() as int),
        {
            chars.push(c);
        }
        assert(chars@ =~= src@) by {
            broadcast use vstd::string::axiom_spec_iter;
        }
        Lexer { chars, pos: 0, line: 1 }
    }

    /// Scans the next token. Whitespace and `//` comments before it are
    /// skipped; at the end of the source the token is `Eof`. A token carries
    /// the line reached at its end.
    pub fn next_token(&mut self) -> (r: Result<Token, LexError>)
        requires
            old(self).wf(),
        ensures
            final(self).wf(),
            final(self).source() == old(self).source(),
            final(self).position() == scan(old(self).source(), old(self).position()).1,
            final(self).current_line() == old(self).current_line() + newlines(
                old(self).source(),
                old(self).position(),
                final(self).position(),
            ),
            agrees(r, scan(old(self).source(), old(self).position()).0, final(self).current_line()),
    {
        let ghost s = self.chars@;
        let ghost start = self.pos as int;
        loop
            invariant
                self.wf(),
                self.chars@ == s,
                old(self).chars@ == s,
                0 <= start <= self.pos,
                old(self).wf(),
                old(self).chars@ == s,
                old(self).pos == start,
                scan(s, start) == scan(s, self.pos as int),
            decreases s.len() - self.pos,
        {
            let ghost i = self.pos as int;
            proof {
                lemma_newlines_split(s, 0, start, i);
            }
            let first_char = match self.bump() {
                Some(c) => c,
                None => {
                    return Ok(Token::new(TokenKind::Eof, None, self.line));
                },
            };
            proof {
                lemma_newlines_split(s, 0, start, i + 1);
            }
            if Self::is_white_space(first_char) {
                continue;
            }
            if first_char == '/' && self.eat('/') {
                proof {
                    lemma_through_bounds(s, i + 2, '\n');
                }
                self.eat_until('\n');
                continue;
            }
            assert(scan(s, i) == scan_token(s, i));
            let (token_kind, lexeme) = match first_char {
                '(' => (TokenKind::LParen, None),
                ')' => (TokenKind::RParen, None),
                '{' => (TokenKind::LBrace, None),
                '}' => (TokenKind::RBrace, None),
                ',' => (TokenKind::Comma, None),
                '.' => (TokenKind::Dot, None),
                '-' => (TokenKind::Minus, None),
                '+' => (TokenKind::Plus, None),
                ';' => (TokenKind::Semicolon, None),
                '/' => (TokenKind::Slash, None),
                '*' => (TokenKind::Star, None),
                '!' => {
                    let k = self.two_char('=', TokenKind::Neq, TokenKind::Bang);
                    (k, None)
                },
                '=' => {
                    let k = self.two_char('=', TokenKind::Eq, TokenKind::Assign);
                    (k, None)
                },
                '<' => {
                    let k = self.two_char('=', TokenKind::Lte, TokenKind::Lt);
                    (k, None)
                },
                '>' => {
                    let k = self.two_char('=', TokenKind::Gte, TokenKind::Gt);
                    (k, None)
                },
                '"' => {
                    proof {
                        lemma_quote_at_bounds(s, i + 1);
                    }
                    let string = match self.string() {
                        Some(st) => st,
                        None => {
                            proof {
                                lemma_newlines_split(s, 0, start, self.pos as int);
                            }
                            return Err(LexError::UnterminatedString);
                        },
                    };
                    (TokenKind::String, Some(string))
                },
                c if Self::is_digit(c) => {
                    let n = self.number(c);
                    (TokenKind::Number, Some(n))
                },
                c if Self::is_ident_start(c) => {
                    let w = self.identifier(c);
                    Self::keyword(w)
                },
                c => {
                    self.bump();
                    proof {
                        lemma_newlines_split(s, 0, start, self.pos as int);
                    }
                    return Err(LexError::InvalidCharacter(c));
                },
            };
            proof {
                lemma_newlines_split(s, 0, start, self.pos as int);
            }
            return Ok(Token::new(token_kind, lexeme, self.line));
        }
    }

    /// Reads one character, counting the line feeds.
    fn bump(&mut self) -> (r: Option<char>)
        requires
            old(self).wf(),
        ensures
            final(self).wf(),
            final(self).chars@ == old(self).chars@,
            old(self).pos < old(self).chars@.len() ==> r == Some(old(self).chars@[old(
                self,
            ).pos as int]) && final(self).pos == old(self).pos + 1,
            old(self).pos >= old(self).chars@.len() ==> r is None && final(self).pos == old(
                self,
            ).pos,
    {
        if self.pos < self.chars.len() {
            let c = self.chars[self.pos];
            proof {
                lemma_newlines_bound(self.chars@, 0, self.pos as int);
            }
            self.pos = self.pos + 1;
            if c == '\n' {
                self.line = self.line + 1;
            }
            Some(c)
        } else {
            None
        }
    }

    /// `yes` when the next character is `expected` (which is then read),
    /// `no` otherwise.
    fn two_char(&mut self, expected: char, yes: TokenKind, no: TokenKind) -> (k: TokenKind)
        requires
            old(self).wf(),
        ensures
            final(self).wf(),
            final(self).chars@ == old(self).chars@,
            if old(self).pos < old(self).chars@.len() && old(self).chars@[old(self).pos as int]
                == expected {
                k == yes && final(self).pos == old(self).pos + 1
            } else {
                k == no && final(self).pos == old(self).pos
            },
    {
        if self.eat(expected) {
            yes
        } else {
            no
        }
    }

    /// Reads the next character when it is `target`.
    fn eat(&mut self, target: char) -> (r: bool)
        requires
            old(self).wf(),
        ensures
            final(self).wf(),
            final(self).chars@ == old(self).chars@,
            r == (old(self).pos < old(self).chars@.len() && old(self).chars@[old(self).pos as int]
                == target),
            final(self).pos == if r {
                old(self).pos + 1
            } else {
                old(self).pos as int
            },
    {
        if self.first() == Some(target) {
            self.bump();
            true
        } else {
            false
        }
    }

    /// The next character, not read.
    fn first(&self) -> (r: Option<char>)
        requires
            self.wf(),
        ensures
            r == if self.pos < self.chars@.len() {
                Some(self.chars@[self.pos as int])
            } else {
                None
            },
    {
        if self.pos < self.chars.len() {
            Some(self.chars[self.pos])
        } else {
            None
        }
    }

    /// The character after the next one, not read.
    fn second(&self) -> (r: Option<char>)
        requires
            self.wf(),
        ensures
            r == if self.pos + 1 < self.chars@.len() {
                Some(self.chars@[self.pos + 1])
            } else {
                None
            },
    {
        if self.pos + 1 < self.chars.len() {
            Some(self.chars[self.pos + 1])
        } else {
            None
        }
    }

    /// Reads up to and including the next `target`, or to the end.
    fn eat_until(&mut self, target: char)
        requires
            old(self).wf(),
        ensures
            final(self).wf(),
            final(self).chars@ == old(self).chars@,
            final(self).pos == through(old(self).chars@, old(self).pos as int, target),
    {
        let ghost s = self.chars@;
        let ghost start = self.pos as int;
        loop
            invariant_except_break
                self.wf(),
                self.chars@ == s,
                old(self).chars@ == s,
                through(s, start, target) == through(s, self.pos as int, target),
            ensures
                self.wf(),
                self.chars@ == s,
                old(self).chars@ == s,
                self.pos == through(s, start, target),
            decreases s.len() - self.pos,
        {
            match self.bump() {
                Some(c) => {
                    if c == target {
                        break;
                    }
                },
                None => {
                    break;
                },
            }
        }
    }

    /// Reads the rest of a string literal up to its closing `"`; `None` when
    /// the source ends first.
    fn string(&mut self) -> (r: Option<String>)
        requires
            old(self).wf(),
        ensures
            final(self).wf(),
            final(self).chars@ == old(self).chars@,
            ({
                let q = quote_at(old(self).chars@, old(self).pos as int);
                if q < old(self).chars@.len() {
                    &&& r is Some
                    &&& r->0@ == old(self).chars@.subrange(old(self).pos as int, q)
                    &&& final(self).pos == q + 1
                } else {
                    r is None && final(self).pos == old(self).chars@.len()
                }
            }),
    {
        let ghost s = self.chars@;
        let ghost start = self.pos as int;
        let mut st = String::new();
        loop
            invariant
                self.wf(),
                self.chars@ == s,
                old(self).chars@ == s,
                start == old(self).pos,
                0 <= start <= self.pos,
                quote_at(s, start) == quote_at(s, self.pos as int),
                st@ == s.subrange(start, self.pos as int),
            decreases s.len() - self.pos,
        {
            let ghost i = self.pos as int;
            match self.bump() {
                Some(c) => {
                    if c == '"' {
                        return Some(st);
                    }
                    push_char(&mut st, c);
                    assert(st@ =~= s.subrange(start, self.pos as int));
                },
                None => {
                    return None;
                },
            }
        }
    }

    /// Reads the rest of a number literal whose first digit, `first`, was
    /// just read.
    fn number(&mut self, first: char) -> (r: String)
        requires
            old(self).wf(),
            0 < old(self).pos,
            old(self).chars@[old(self).pos - 1] == first,
            is_digit(first),
        ensures
            final(self).wf(),
            final(self).chars@ == old(self).chars@,
            final(self).pos == number_end(old(self).chars@, old(self).pos - 1),
            final(self).pos >= old(self).pos,
            r@ == old(self).chars@.subrange(old(self).pos - 1, final(self).pos as int),
    {
        let ghost s = self.chars@;
        let ghost start = self.pos - 1;
        let mut st = String::new();
        push_char(&mut st, first);
        assert(st@ =~= s.subrange(start, self.pos as int));
        loop
            invariant_except_break
                self.wf(),
                self.chars@ == s,
                old(self).chars@ == s,
                start == old(self).pos - 1,
                0 <= start < self.pos,
                digits_end(s, start + 1) == digits_end(s, self.pos as int),
                st@ == s.subrange(start, self.pos as int),
            ensures
                self.wf(),
                self.chars@ == s,
                old(self).chars@ == s,
                start == old(self).pos - 1,
                0 <= start < self.pos,
                self.pos == digits_end(s, start + 1),
                st@ == s.subrange(start, self.pos as int),
            decreases s.len() - self.pos,
        {
            match self.first() {
                Some(c) if Self::is_digit(c) => {
                    self.bump();
                    push_char(&mut st, c);
                    assert(st@ =~= s.subrange(start, self.pos as int));
                },
                _ => {
                    break;
                },
            }
        }
        let ghost d = self.pos as int;
        let after = self.first();
        let after_next = self.second();
        if after == Some('.') && after_next.is_some() && Self::is_digit(after_next.unwrap()) {
            {
                self.bump();
                push_char(&mut st, '.');
                assert(st@ =~= s.subrange(start, self.pos as int));
                loop
                    invariant_except_break
                        self.wf(),
                        self.chars@ == s,
                        old(self).chars@ == s,
                        start == old(self).pos - 1,
                        0 <= start < self.pos,
                        digits_end(s, d + 1) == digits_end(s, self.pos as int),
                        st@ == s.subrange(start, self.pos as int),
                    ensures
                        self.wf(),
                        self.chars@ == s,
                        old(self).chars@ == s,
                        start == old(self).pos - 1,
                        0 <= start < self.pos,
                        self.pos == digits_end(s, d + 1),
                        st@ == s.subrange(start, self.pos as int),
                    decreases s.len() - self.pos,
                {
                    match self.first() {
                        Some(c) if Self::is_digit(c) => {
                            self.bump();
                            push_char(&mut st, c);
                            assert(st@ =~= s.subrange(start, self.pos as int));
                        },
                        _ => {
                            break;
                        },
                    }
                }
            }
        }
        st
    }

    fn is_digit(c: char) -> (r: bool)
        ensures
            r == is_digit(c),
    {
        '0' <= c && c <= '9'
    }

    fn is_white_space(c: char) -> (r: bool)
        ensures
            r == is_white_space(c),
    {
        ('\u{9}' <= c && c <= '\u{d}') || c == ' ' || c == '\u{85}' || c == '\u{a0}' || c
            == '\u{1680}' || ('\u{2000}' <= c && c <= '\u{200a}') || c == '\u{2028}' || c
            == '\u{2029}' || c == '\u{202f}' || c == '\u{205f}' || c == '\u{3000}'
    }

    fn is_ident_start(c: char) -> (r: bool)
        ensures
            r == is_ident_start_char(c),
    {
        ('a' <= c && c <= 'z') || ('A' <= c && c <= 'Z') || c == '_'
    }

    fn is_ident_continue(c: char) -> (r: bool)
        ensures
            r == is_ident_char(c),
    {
        ('a' <= c && c <= 'z') || ('A' <= c && c <= 'Z') || ('0' <= c && c <= '9') || c == '_'
    }

    /// Reads the rest of a word whose first character, `first`, was just read.
    fn identifier(&mut self, first: char) -> (r: String)
        requires
            old(self).wf(),
            0 < old(self).pos,
            old(self).chars@[old(self).pos - 1] == first,
        ensures
            final(self).wf(),
            final(self).chars@ == old(self).chars@,
            final(self).pos == ident_end(old(self).chars@, old(self).pos as int),
            final(self).pos >= old(self).pos,
            r@ == old(self).chars@.subrange(old(self).pos - 1, final(self).pos as int),
    {
        let ghost s = self.chars@;
        let ghost start = self.pos - 1;
        let mut st = String::new();
        push_char(&mut st, first);
        assert(st@ =~= s.subrange(start, self.pos as int));
        loop
            invariant_except_break
                self.wf(),
                self.chars@ == s,
                old(self).chars@ == s,
                start == old(self).pos - 1,
                0 <= start < self.pos,
                ident_end(s, start + 1) == ident_end(s, self.pos as int),
                st@ == s.subrange(start, self.pos as int),
            ensures
                self.wf(),
                self.chars@ == s,
                old(self).chars@ == s,
                start == old(self).pos - 1,
                0 <= start < self.pos,
                self.pos == ident_end(s, start + 1),
                st@ == s.subrange(start, self.pos as int),
            decreases s.len() - self.pos,
        {
            match self.first() {
                Some(c) if Self::is_ident_continue(c) => {
                    self.bump();
                    push_char(&mut st, c);
                    assert(st@ =~= s.subrange(start, self.pos as int));
                },
                _ => {
                    break;
                },
            }
        }
        st
    }

    /// The keyword a word spells, or an identifier carrying the word.
    fn keyword(identifier: String) -> (r: (TokenKind, Option<String>))
        ensures
            match keyword_kind(identifier@) {
                Some(k) => r.0 == k && r.1 is None,
                None => r.0 == TokenKind::Identifier && r.1 == Some(identifier),
            },
    {
        let w = identifier.as_str();
        if same_text(w, "and") {
            (TokenKind::And, None)
        } else if same_text(w, "class") {
            (TokenKind::Class, None)
        } else if same_text(w, "else") {
            (TokenKind::Else, None)
        } else if same_text(w, "false") {
            (TokenKind::False, None)
        } else if same_text(w, "fun") {
            (TokenKind::Fun, None)
        } else if same_text(w, "for") {
            (TokenKind::For, None)
        } else if same_text(w, "if") {
            (TokenKind::If, None)
        } else if same_text(w, "nil") {
            (TokenKind::Nil, None)
        } else if same_text(w, "or") {
            (TokenKind::Or, None)
        } else if same_text(w, "print") {
            (TokenKind::Print, None)
        } else if same_text(w, "return") {
            (TokenKind::Return, None)
        } else if same_text(w, "super") {
            (TokenKind::Super, None)
        } else if same_text(w, "this") {
            (TokenKind::This, None)
        } else if same_text(w, "true") {
            (TokenKind::True, None)
        } else if same_text(w, "var") {
            (TokenKind::Var, None)
        } else if same_text(w, "while") {
            (TokenKind::While, None)
        } else {
            (TokenKind::Identifier, Some(identifier))
        }
    }
}

/// Scans the whole source: the tokens up to and including the `Eof`, and the
/// errors met on the way. After an error, scanning goes on where the failed
/// scan stopped.
pub fn tokenize(src: &str) -> (r: (Vec<Token>, Vec<LexError>))
    requires
        src@.len() < usize::MAX,
    ensures
        tokens_view(r.0@) == scan_all(src@, 0).0,
        r.1@ == scan_all(src@, 0).1,
{
    let ghost s = src@;
    let mut lexer = Lexer::new(src);
    let mut tokens: Vec<Token> = Vec::new();
    let mut errors: Vec<LexError> = Vec::new();
    assert(tokens_view(tokens@) =~= Seq::empty());
    assert(scan_all(s, 0).1 =~= errors@ + scan_all(s, 0).1);
    assert(scan_all(s, 0).0 =~= tokens_view(tokens@) + scan_all(s, 0).0);
    loop
        invariant_except_break
            lexer.wf(),
            lexer.source() == s,
            scan_all(s, 0).0 == tokens_view(tokens@) + scan_all(s, lexer.position()).0,
            scan_all(s, 0).1 == errors@ + scan_all(s, lexer.position()).1,
        ensures
            scan_all(s, 0).0 == tokens_view(tokens@),
            scan_all(s, 0).1 == errors@,
        decreases s.len() - lexer.position(),
    {
        let ghost i = lexer.position();
        proof {
            lexer.lemma_wf();
            lemma_scan_bounds(s, i);
        }
        let ghost ts = tokens_view(tokens@);
        match lexer.next_token() {
            Ok(token) => {
                let is_eof = token.kind == TokenKind::Eof;
                proof {
                    lexer.lemma_wf();
                    rules::lemma_newlines_split(s, 0, i, lexer.position());
                    assert(tokens_view(tokens@.push(token)) =~= ts.push(
                        (token.kind, lexeme_view(token.lexeme), token.line as int),
                    ));
                }
                tokens.push(token);
                if is_eof {
                    assert(scan_all(s, 0).0 =~= tokens_view(tokens@));
                    assert(scan_all(s, 0).1 =~= errors@);
                    break;
                }
                assert(scan_all(s, 0).0 =~= tokens_view(tokens@) + scan_all(
                    s,
                    lexer.position(),
                ).0);
            },
            Err(e) => {
                errors.push(e);
                assert(scan_all(s, 0).1 =~= errors@ + scan_all(s, lexer.position()).1);
            },
        }
    }
    (tokens, errors)
}

} // verus!
