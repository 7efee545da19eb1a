use interpreter::lexer::{tokenize, LexError, Lexer, Token, TokenKind};

fn kinds(tokens: &[Token]) -> Vec<TokenKind> {
    tokens.iter().map(|t| t.kind).collect()
}

fn lexemes(tokens: &[Token]) -> Vec<Option<String>> {
    tokens.iter().map(|t| t.lexeme.clone()).collect()
}

fn some(s: &str) -> Option<String> {
    Some(s.to_string())
}

#[test]
fn var_declaration_tokens() {
    let (tokens, errors) = tokenize("var x = 12.5;");
    assert!(errors.is_empty());
    assert_eq!(
        kinds(&tokens),
        vec![
            TokenKind::Var,
            TokenKind::Identifier,
            TokenKind::Assign,
            TokenKind::Number,
            TokenKind::Semicolon,
            TokenKind::Eof
        ]
    );
    assert_eq!(lexemes(&tokens), vec![None, some("x"), None, some("12.5"), None, None]);
    assert!(tokens.iter().all(|t| t.line == 1));
}

#[test]
fn empty_source_is_just_eof() {
    let (tokens, errors) = tokenize("");
    assert!(errors.is_empty());
    assert_eq!(kinds(&tokens), vec![TokenKind::Eof]);
    assert_eq!(tokens[0].line, 1);
    assert_eq!(tokens[0].lexeme, None);
}

#[test]
fn number_without_fraction_digits_leaves_the_dot() {
    let (tokens, errors) = tokenize("1. 2.x 3.25");
    assert!(errors.is_empty());
    assert_eq!(
        kinds(&tokens),
        vec![
            TokenKind::Number,
            TokenKind::Dot,
            TokenKind::Number,
            TokenKind::Dot,
            TokenKind::Identifier,
            TokenKind::Number,
            TokenKind::Eof
        ]
    );
    assert_eq!(
        lexemes(&tokens),
        vec![some("1"), None, some("2"), None, some("x"), some("3.25"), None]
    );
}

#[test]
fn keywords_and_identifiers() {
    let src = "and class else false fun for if nil or print return super this true var while \
               foo _bar9 Andy";
    let (tokens, errors) = tokenize(src);
    assert!(errors.is_empty());
    assert_eq!(
        kinds(&tokens),
        vec![
            TokenKind::And,
            TokenKind::Class,
            TokenKind::Else,
            TokenKind::False,
            TokenKind::Fun,
            TokenKind::For,
            TokenKind::If,
            TokenKind::Nil,
            TokenKind::Or,
            TokenKind::Print,
            TokenKind::Return,
            TokenKind::Super,
            TokenKind::This,
            TokenKind::True,
            TokenKind::Var,
            TokenKind::While,
            TokenKind::Identifier,
            TokenKind::Identifier,
            TokenKind::Identifier,
            TokenKind::Eof
        ]
    );
    let names: Vec<Option<String>> = lexemes(&tokens)[16..19].to_vec();
    assert_eq!(names, vec![some("foo"), some("_bar9"), some("Andy")]);
    assert!(lexemes(&tokens)[..16].iter().all(|l| l.is_none()));
}

#[test]
fn one_and_two_character_operators() {
    let (tokens, errors) = tokenize("(){},.-+;/* ! != = == < <= > >=");
    assert!(errors.is_empty());
    assert_eq!(
        kinds(&tokens),
        vec![
            TokenKind::LParen,
            TokenKind::RParen,
            TokenKind::LBrace,
            TokenKind::RBrace,
            TokenKind::Comma,
            TokenKind::Dot,
            TokenKind::Minus,
            TokenKind::Plus,
            TokenKind::Semicolon,
            TokenKind::Slash,
            TokenKind::Star,
            TokenKind::Bang,
            TokenKind::Neq,
            TokenKind::Assign,
            TokenKind::Eq,
            TokenKind::Lt,
            TokenKind::Lte,
            TokenKind::Gt,
            TokenKind::Gte,
            TokenKind::Eof
        ]
    );
}

#[test]
fn comments_and_lines() {
    let (tokens, errors) = tokenize("a // a comment ( ;\nb\n\n  c");
    assert!(errors.is_empty());
    assert_eq!(
        kinds(&tokens),
        vec![TokenKind::Identifier, TokenKind::Identifier, TokenKind::Identifier, TokenKind::Eof]
    );
    let lines: Vec<usize> = tokens.iter().map(|t| t.line).collect();
    assert_eq!(lines, vec![1, 2, 4, 4]);
}

#[test]
fn a_single_slash_is_division() {
    let (tokens, errors) = tokenize("6 / 3");
    assert!(errors.is_empty());
    assert_eq!(
        kinds(&tokens),
        vec![TokenKind::Number, TokenKind::Slash, TokenKind::Number, TokenKind::Eof]
    );
}

#[test]
fn string_spanning_lines() {
    let (tokens, errors) = tokenize("\"hi\nthere\" x");
    assert!(errors.is_empty());
    assert_eq!(kinds(&tokens), vec![TokenKind::String, TokenKind::Identifier, TokenKind::Eof]);
    assert_eq!(tokens[0].lexeme, some("hi\nthere"));
    assert_eq!(tokens[0].line, 2);
    assert_eq!(tokens[1].line, 2);
}

#[test]
fn empty_string_literal() {
    let (tokens, errors) = tokenize("\"\"");
    assert!(errors.is_empty());
    assert_eq!(kinds(&tokens), vec![TokenKind::String, TokenKind::Eof]);
    assert_eq!(tokens[0].lexeme, some(""));
}

#[test]
fn unterminated_string() {
    let (tokens, errors) = tokenize("x \"abc");
    assert_eq!(errors, vec![LexError::UnterminatedString]);
    assert_eq!(kinds(&tokens), vec![TokenKind::Identifier, TokenKind::Eof]);
}

#[test]
fn invalid_character_skips_the_next_character() {
    let (tokens, errors) = tokenize("@a b");
    assert_eq!(errors, vec![LexError::InvalidCharacter('@')]);
    assert_eq!(kinds(&tokens), vec![TokenKind::Identifier, TokenKind::Eof]);
    assert_eq!(tokens[0].lexeme, some("b"));
}

#[test]
fn scanning_goes_on_after_errors() {
    let (tokens, errors) = tokenize("# 1 $ 2 \"x");
    assert_eq!(
        errors,
        vec![
            LexError::InvalidCharacter('#'),
            LexError::InvalidCharacter('$'),
            LexError::UnterminatedString
        ]
    );
    assert_eq!(kinds(&tokens), vec![TokenKind::Number, TokenKind::Number, TokenKind::Eof]);
}

#[test]
fn unicode_white_space_is_skipped() {
    let (tokens, errors) = tokenize("a\u{00A0}b\tc\r\n");
    assert!(errors.is_empty());
    assert_eq!(
        lexemes(&tokens),
        vec![some("a"), some("b"), some("c"), None]
    );
    assert_eq!(tokens[3].line, 2);
}

#[test]
fn non_ascii_letters_are_invalid() {
    let (tokens, errors) = tokenize("é x");
    assert_eq!(errors, vec![LexError::InvalidCharacter('é')]);
    assert_eq!(kinds(&tokens), vec![TokenKind::Identifier, TokenKind::Eof]);
}

#[test]
fn lexer_gives_eof_again_at_the_end() {
    let mut lexer = Lexer::new("x");
    let first = lexer.next_token().ok().unwrap();
    assert_eq!(first.kind, TokenKind::Identifier);
    for _ in 0..3 {
        let t = lexer.next_token().ok().unwrap();
        assert_eq!(t.kind, TokenKind::Eof);
        assert_eq!(t.line, 1);
    }
}

#[test]
fn lexer_reports_error_then_continues() {
    let mut lexer = Lexer::new("?? 7");
    assert_eq!(lexer.next_token().err(), Some(LexError::InvalidCharacter('?')));
    let t = lexer.next_token().ok().unwrap();
    assert_eq!(t.kind, TokenKind::Number);
    assert_eq!(t.lexeme, some("7"));
}

#[test]
fn lex_error_messages() {
    assert_eq!(LexError::InvalidCharacter('@').message(), "found invalid character `@`");
    assert_eq!(LexError::UnterminatedString.message(), "found unterminated string");
}

#[test]
fn token_kind_texts() {
    assert_eq!(TokenKind::Identifier.text(), "identifer");
    assert_eq!(TokenKind::Gte.text(), ">=");
    assert_eq!(TokenKind::Eof.text(), "eof");
    assert_eq!(TokenKind::While.text(), "while");
    assert_eq!(TokenKind::LParen.text(), "(");
}

#[test]
fn token_new_keeps_its_fields() {
    let t = Token::new(TokenKind::Number, some("4"), 3);
    assert_eq!(t.kind, TokenKind::Number);
    assert_eq!(t.lexeme, some("4"));
    assert_eq!(t.line, 3);
}

#[test]
fn only_the_last_token_is_eof() {
    for src in ["", "print 1;", "\"open", "a\nb // c", "@@@"] {
        let (tokens, _) = tokenize(src);
        let last = tokens.last().expect("at least the Eof token");
        assert_eq!(last.kind, TokenKind::Eof);
        assert!(tokens[..tokens.len() - 1].iter().all(|t| t.kind != TokenKind::Eof));
    }
}

#[test]
fn token_lines_never_decrease() {
    let (tokens, _) = tokenize("a\nb \"x\ny\" c\n\nd");
    let lines: Vec<usize> = tokens.iter().map(|t| t.line).collect();
    assert_eq!(lines, vec![1, 2, 3, 3, 5, 5]);
}

#[test]
fn kind_texts_lex_back_to_their_kinds() {
    let fixed = [
        TokenKind::LParen,
        TokenKind::RParen,
        TokenKind::LBrace,
        TokenKind::RBrace,
        TokenKind::Comma,
        TokenKind::Dot,
        TokenKind::Minus,
        TokenKind::Plus,
        TokenKind::Semicolon,
        TokenKind::Slash,
        TokenKind::Star,
        TokenKind::Bang,
        TokenKind::Neq,
        TokenKind::Assign,
        TokenKind::Eq,
        TokenKind::Gt,
        TokenKind::Gte,
        TokenKind::Lt,
        TokenKind::Lte,
        TokenKind::And,
        TokenKind::Class,
        TokenKind::Else,
        TokenKind::False,
        TokenKind::Fun,
        TokenKind::For,
        TokenKind::If,
        TokenKind::Nil,
        TokenKind::Or,
        TokenKind::Print,
        TokenKind::Return,
        TokenKind::Super,
        TokenKind::This,
        TokenKind::True,
        TokenKind::Var,
        TokenKind::While,
    ];
    for kind in fixed {
        let (tokens, errors) = tokenize(kind.text());
        assert!(errors.is_empty());
        assert_eq!(kinds(&tokens), vec![kind, TokenKind::Eof]);
        assert_eq!(lexemes(&tokens), vec![None, None]);
        assert!(tokens.iter().all(|t| t.line == 1));
    }
}
