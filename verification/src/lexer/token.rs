//! Tokens and their kinds.

use vstd::prelude::*;

verus! {

/// The kinds of tokens of the language.
#[derive(Debug, Clone, Copy, PartialEq, Eq, Structural)]
pub enum TokenKind {
    // Single-character tokens.
    LParen,
    RParen,
    LBrace,
    RBrace,
    Comma,
    Dot,
    Minus,
    Plus,
    Semicolon,
    Slash,
    Star,
    // One or two character tokens.
    Bang,
    Neq,
    Assign,
    Eq,
    Gt,
    Gte,
    Lt,
    Lte,
    // Literals.
    Identifier,
    String,
    Number,
    // Keywords.
    And,
    Class,
    Else,
    False,
    Fun,
    For,
    If,
    Nil,
    Or,
    Print,
    Return,
    Super,
    This,
    True,
    Var,
    While,
    Eof,
}

impl TokenKind {
    /// How a token kind is written in messages.
    pub open spec fn spec_text(self) -> Seq<char> {
        match self {
            TokenKind::LParen => "("@,
            TokenKind::RParen => ")"@,
            TokenKind::LBrace => "{"@,
            TokenKind::RBrace => "}"@,
            TokenKind::Comma => ","@,
            TokenKind::Dot => "."@,
            TokenKind::Minus => "-"@,
            TokenKind::Plus => "+"@,
            TokenKind::Semicolon => ";"@,
            TokenKind::Slash => "/"@,
            TokenKind::Star => "*"@,
            TokenKind::Bang => "!"@,
            TokenKind::Neq => "!="@,
            TokenKind::Assign => "="@,
            TokenKind::Eq => "=="@,
            TokenKind::Gt => ">"@,
            TokenKind::Gte => ">="@,
            TokenKind::Lt => "<"@,
            TokenKind::Lte => "<="@,
            TokenKind::Identifier => "identifer"@,
            TokenKind::String => "string"@,
            TokenKind::Number => "number"@,
            TokenKind::And => "and"@,
            TokenKind::Class => "class"@,
            TokenKind::Else => "else"@,
            TokenKind::False => "false"@,
            TokenKind::Fun => "fun"@,
            TokenKind::For => "for"@,
            TokenKind::If => "if"@,
            TokenKind::Nil => "nil"@,
            TokenKind::Or => "or"@,
            TokenKind::Print => "print"@,
            TokenKind::Return => "return"@,
            TokenKind::Super => "super"@,
            TokenKind::This => "this"@,
            TokenKind::True => "true"@,
            TokenKind::Var => "var"@,
            TokenKind::While => "while"@,
            TokenKind::Eof => "eof"@,
        }
    }

    /// The text that stands for this kind in messages (its display form).
    pub fn text(&self) -> (s: &'static str)
        ensures
            s@ == self.spec_text(),
    {
        match self {
            TokenKind::LParen => "(",
            TokenKind::RParen => ")",
            TokenKind::LBrace => "{",
            TokenKind::RBrace => "}",
            TokenKind::Comma => ",",
            TokenKind::Dot => ".",
            TokenKind::Minus => "-",
            TokenKind::Plus => "+",
            TokenKind::Semicolon => ";",
            TokenKind::Slash => "/",
            TokenKind::Star => "*",
            TokenKind::Bang => "!",
            TokenKind::Neq => "!=",
            TokenKind::Assign => "=",
            TokenKind::Eq => "==",
            TokenKind::Gt => ">",
            TokenKind::Gte => ">=",
            TokenKind::Lt => "<",
            TokenKind::Lte => "<=",
            TokenKind::Identifier => "identifer",
            TokenKind::String => "string",
            TokenKind::Number => "number",
            TokenKind::And => "and",
            TokenKind::Class => "class",
            TokenKind::Else => "else",
            TokenKind::False => "false",
            TokenKind::Fun => "fun",
            TokenKind::For => "for",
            TokenKind::If => "if",
            TokenKind::Nil => "nil",
            TokenKind::Or => "or",
            TokenKind::Print => "print",
            TokenKind::Return => "return",
            TokenKind::Super => "super",
            TokenKind::This => "this",
            TokenKind::True => "true",
            TokenKind::Var => "var",
            TokenKind::While => "while",
            TokenKind::Eof => "eof",
        }
    }
}

/// A token: its kind, the text it carries (identifiers, strings and numbers)
/// and the line the lexer had reached when it produced it.
#[derive(Debug)]
pub struct Token {
    pub kind: TokenKind,
    pub lexeme: Option<String>,
    pub line: usize,
}

/// The characters of an optional lexeme.
pub open spec fn lexeme_view(lexeme: Option<String>) -> Option<Seq<char>> {
    match lexeme {
        Some(s) => Some(s@),
        None => None,
    }
}

/// What a token reports: kind, lexeme and line.
pub open spec fn token_view(t: Token) -> (TokenKind, Option<Seq<char>>, int) {
    (t.kind, lexeme_view(t.lexeme), t.line as int)
}

pub open spec fn tokens_view(v: Seq<Token>) -> Seq<(TokenKind, Option<Seq<char>>, int)> {
    Seq::new(v.len(), |i: int| token_view(v[i]))
}

impl Token {
    pub fn new(kind: TokenKind, lexeme: Option<String>, line: usize) -> (t: Self)
        ensures
            t.kind == kind,
            t.lexeme == lexeme,
            t.line == line,
    {
        Self { kind, lexeme, line }
    }
}

} // verus!
