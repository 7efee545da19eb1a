use interpreter::lexer::{tokenize, Token, TokenKind};
use interpreter::parser::{Parser, Program, Stmt, SyntaxError};

fn parse_source(src: &str) -> Option<(Program, Vec<SyntaxError>)> {
    let (tokens, errors) = tokenize(src);
    assert!(errors.is_empty());
    Parser::new(tokens).parse_checked()
}

fn parse_ok(src: &str) -> (Vec<Stmt>, Vec<SyntaxError>) {
    let (program, errors) = parse_source(src).expect("the parse comes back");
    (program.statements, errors)
}

fn debug<T: std::fmt::Debug>(t: &T) -> String {
    format!("{:?}", t)
}

fn num(n: &str) -> String {
    format!("Literal(Number({:?}))", n)
}

fn var(n: &str) -> String {
    format!("Variable({:?})", n)
}

fn bin(l: &str, op: &str, r: &str) -> String {
    format!("Binary {{ left: {}, op: {}, right: {} }}", l, op, r)
}

#[test]
fn subtraction_is_left_associative() {
    let (stmts, errors) = parse_ok("1 - 2 - 3;");
    assert!(errors.is_empty());
    assert_eq!(stmts.len(), 1);
    let inner = bin(&num("1"), "Sub", &num("2"));
    assert_eq!(debug(&stmts[0]), format!("Expr({})", bin(&inner, "Sub", &num("3"))));
}

#[test]
fn product_binds_tighter_than_sum() {
    let (stmts, errors) = parse_ok("1 + 2 * 3;");
    assert!(errors.is_empty());
    let product = bin(&num("2"), "Mul", &num("3"));
    assert_eq!(debug(&stmts[0]), format!("Expr({})", bin(&num("1"), "Add", &product)));
}

#[test]
fn comparison_and_equality_levels() {
    let (stmts, errors) = parse_ok("a < b == c >= d;");
    assert!(errors.is_empty());
    let lt = bin(&var("a"), "Lt", &var("b"));
    let gte = bin(&var("c"), "Gte", &var("d"));
    assert_eq!(debug(&stmts[0]), format!("Expr({})", bin(&lt, "Eq", &gte)));
}

#[test]
fn assignment_is_right_associative() {
    let (stmts, errors) = parse_ok("a = b = 1;");
    assert!(errors.is_empty());
    let inner = format!("Assign {{ name: \"b\", value: {} }}", num("1"));
    assert_eq!(debug(&stmts[0]), format!("Expr(Assign {{ name: \"a\", value: {} }})", inner));
}

#[test]
fn logical_operators_nest_by_precedence() {
    let (stmts, errors) = parse_ok("a and b or c;");
    assert!(errors.is_empty());
    let and = format!("Logical {{ left: {}, op: And, right: {} }}", var("a"), var("b"));
    assert_eq!(
        debug(&stmts[0]),
        format!("Expr(Logical {{ left: {}, op: Or, right: {} }})", and, var("c"))
    );
}

#[test]
fn unary_operators_and_literals() {
    let (stmts, errors) = parse_ok("print !true; print -x; print nil; print \"s\"; print false;");
    assert!(errors.is_empty());
    let texts: Vec<String> = stmts.iter().map(debug).collect();
    assert_eq!(
        texts,
        vec![
            "Print(Unary { op: Not, right: Literal(Bool(true)) })".to_string(),
            format!("Print(Unary {{ op: Negate, right: {} }})", var("x")),
            "Print(Literal(Nil))".to_string(),
            "Print(Literal(String(\"s\")))".to_string(),
            "Print(Literal(Bool(false)))".to_string(),
        ]
    );
}

#[test]
fn variable_declarations() {
    let (stmts, errors) = parse_ok("var x; var y = 2;");
    assert!(errors.is_empty());
    assert_eq!(debug(&stmts[0]), "Var { name: \"x\", initializer: None }");
    assert_eq!(debug(&stmts[1]), format!("Var {{ name: \"y\", initializer: Some({}) }}", num("2")));
}

#[test]
fn calls_chain() {
    let (stmts, errors) = parse_ok("f(1, 2)(3);");
    assert!(errors.is_empty());
    let first = format!("Call {{ callee: {}, arguments: [{}, {}] }}", var("f"), num("1"), num("2"));
    assert_eq!(
        debug(&stmts[0]),
        format!("Expr(Call {{ callee: {}, arguments: [{}] }})", first, num("3"))
    );
}

#[test]
fn if_while_and_blocks() {
    let (stmts, errors) = parse_ok("if (a) print 1; else { b; } while (c) d;");
    assert!(errors.is_empty());
    assert_eq!(
        debug(&stmts[0]),
        format!(
            "If {{ condition: {}, then_branch: Print({}), else_branch: Some(Block([Expr({})])) }}",
            var("a"),
            num("1"),
            var("b")
        )
    );
    assert_eq!(
        debug(&stmts[1]),
        format!("While {{ condition: {}, body: Expr({}) }}", var("c"), var("d"))
    );
}

#[test]
fn if_without_else() {
    let (stmts, errors) = parse_ok("if (a) b;");
    assert!(errors.is_empty());
    assert_eq!(
        debug(&stmts[0]),
        format!("If {{ condition: {}, then_branch: Expr({}), else_branch: None }}", var("a"), var("b"))
    );
}

#[test]
fn for_loop_becomes_a_while_loop() {
    let (stmts, errors) = parse_ok("for (var i = 0; i < 3; i = i + 1) print i;");
    assert!(errors.is_empty());
    assert_eq!(stmts.len(), 1);
    let init = format!("Var {{ name: \"i\", initializer: Some({}) }}", num("0"));
    let cond = bin(&var("i"), "Lt", &num("3"));
    let incr = format!("Assign {{ name: \"i\", value: {} }}", bin(&var("i"), "Add", &num("1")));
    let body = format!("Block([Print({}), Expr({})])", var("i"), incr);
    assert_eq!(
        debug(&stmts[0]),
        format!("Block([{}, While {{ condition: {}, body: {} }}])", init, cond, body)
    );
}

#[test]
fn for_loop_without_initializer_or_increment() {
    let (stmts, errors) = parse_ok("for (x = 1; x; ) y;");
    assert!(errors.is_empty());
    let init = format!("Expr(Assign {{ name: \"x\", value: {} }})", num("1"));
    assert_eq!(
        debug(&stmts[0]),
        format!(
            "Block([{}, While {{ condition: {}, body: Expr({}) }}])",
            init,
            var("x"),
            var("y")
        )
    );
}

#[test]
fn for_loop_with_empty_clauses_is_an_error() {
    let (stmts, errors) = parse_ok("for (;;) print 1;");
    assert_eq!(debug(&stmts), format!("[Print({})]", num("1")));
    assert_eq!(errors.len(), 2);
    assert_eq!(
        errors[0].message(),
        "unexpected token `;`; expected one of: false, true, nil, string, number, identifer, ("
    );
    assert_eq!(
        errors[1].message(),
        "unexpected token `)`; expected one of: false, true, nil, string, number, identifer, ("
    );
}

#[test]
fn function_declaration() {
    let (stmts, errors) = parse_ok("fun add(a, b) { print a + b; }");
    assert!(errors.is_empty());
    assert_eq!(
        debug(&stmts[0]),
        format!(
            "Function {{ name: \"add\", params: [\"a\", \"b\"], body: [Print({})] }}",
            bin(&var("a"), "Add", &var("b"))
        )
    );
}

#[test]
fn function_without_parameters() {
    let (stmts, errors) = parse_ok("fun f() {}");
    assert!(errors.is_empty());
    assert_eq!(debug(&stmts[0]), "Function { name: \"f\", params: [], body: [] }");
}

#[test]
fn invalid_assignment_target() {
    let (stmts, errors) = parse_ok("1 = 2; print 3;");
    assert_eq!(debug(&stmts), format!("[Print({})]", num("3")));
    assert_eq!(errors.len(), 1);
    assert_eq!(errors[0].message(), "invalid expression");
}

#[test]
fn missing_semicolon_at_the_end() {
    let (stmts, errors) = parse_ok("print 1");
    assert!(stmts.is_empty());
    assert_eq!(errors.len(), 1);
    assert_eq!(errors[0].message(), "unexpected token `eof`; expected: ;");
}

#[test]
fn one_expected_kind_with_a_long_name_reads_one_of() {
    let (stmts, errors) = parse_ok("var 1; print 2;");
    assert_eq!(debug(&stmts), format!("[Print({})]", num("2")));
    assert_eq!(errors.len(), 1);
    assert_eq!(errors[0].message(), "unexpected token `number`; expected one of: identifer");
}

#[test]
fn recovery_resumes_at_the_next_statement_keyword() {
    let (stmts, errors) = parse_ok("x + ; var y = 1; print y;");
    assert_eq!(errors.len(), 1);
    assert_eq!(stmts.len(), 2);
    assert_eq!(debug(&stmts[0]), format!("Var {{ name: \"y\", initializer: Some({}) }}", num("1")));
}

#[test]
fn unclosed_block_reports_eof() {
    let (stmts, errors) = parse_ok("{ print 1;");
    assert!(stmts.is_empty());
    assert_eq!(errors.len(), 1);
    assert_eq!(
        errors[0].message(),
        "unexpected token `eof`; expected one of: false, true, nil, string, number, identifer, ("
    );
}

#[test]
fn too_many_arguments() {
    let args_255 = vec!["0"; 255].join(", ");
    let (stmts, errors) = parse_ok(&format!("f({});", args_255));
    assert!(errors.is_empty());
    assert_eq!(stmts.len(), 1);

    let args_256 = vec!["0"; 256].join(", ");
    let (stmts, errors) = parse_ok(&format!("f({});", args_256));
    assert!(stmts.is_empty());
    assert_eq!(errors.len(), 1);
    assert_eq!(errors[0].message(), "too many arguments");
}

#[test]
fn too_many_parameters() {
    let params: Vec<String> = (0..256).map(|i| format!("p{}", i)).collect();
    let (stmts, errors) = parse_ok(&format!("fun f({}) {{}}", params.join(", ")));
    assert!(stmts.is_empty());
    assert!(!errors.is_empty());
    assert_eq!(errors[0].message(), "too many arguments");
}

#[test]
fn parenthesized_expression_never_returns() {
    assert!(parse_source("(1);").is_none());
}

#[test]
fn return_statement_never_returns() {
    assert!(parse_source("return 1;").is_none());
    assert!(parse_source("class A {}").is_none());
}

#[test]
fn empty_program() {
    let (stmts, errors) = parse_ok("");
    assert!(stmts.is_empty());
    assert!(errors.is_empty());
}

#[test]
fn parse_gives_what_parse_checked_gives() {
    let (tokens, _) = tokenize("var a = 1; print a;");
    let (program, errors) = Parser::new(tokens).parse();
    assert!(errors.is_empty());
    assert_eq!(program.statements.len(), 2);
    assert_eq!(debug(&program.statements[1]), format!("Print({})", var("a")));
}

#[test]
fn parser_over_handmade_tokens() {
    let tokens = vec![
        Token::new(TokenKind::Print, None, 1),
        Token::new(TokenKind::Number, Some("7".to_string()), 1),
        Token::new(TokenKind::Semicolon, None, 1),
        Token::new(TokenKind::Eof, None, 1),
    ];
    let (program, errors) = Parser::new(tokens).parse();
    assert!(errors.is_empty());
    assert_eq!(debug(&program.statements), format!("[Print({})]", num("7")));
}

#[test]
fn syntax_error_messages() {
    let e = SyntaxError::UnexpectedToken { expected: vec![TokenKind::RParen], found: TokenKind::Semicolon };
    assert_eq!(e.message(), "unexpected token `;`; expected: )");
    let e = SyntaxError::UnexpectedToken {
        expected: vec![TokenKind::Comma, TokenKind::RParen],
        found: TokenKind::Eof,
    };
    assert_eq!(e.message(), "unexpected token `eof`; expected one of: ,, )");
    assert_eq!(SyntaxError::InvalidExpression.message(), "invalid expression");
    assert_eq!(SyntaxError::TooManyArguments.message(), "too many arguments");
}

#[test]
fn joined_programs_parse_to_joined_statements() {
    let pairs = [
        ("print 1;", "var x = 2;"),
        ("if (a) b; // note", "while (c) { d; }"),
        ("fun f(a) { print a; }", "f(1);"),
        ("for (var i = 0; i < 2; i = i + 1) print i;", "x = y = 3;"),
        ("", "print nil;"),
    ];
    for (s1, s2) in pairs {
        let (a, ea) = parse_ok(s1);
        let (b, eb) = parse_ok(s2);
        let (joined, ej) = parse_ok(&format!("{}\n{}", s1, s2));
        assert!(ea.is_empty() && eb.is_empty() && ej.is_empty());
        let expected: Vec<String> = a.iter().chain(b.iter()).map(debug).collect();
        let found: Vec<String> = joined.iter().map(debug).collect();
        assert_eq!(found, expected);
    }
}
