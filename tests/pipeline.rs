use mini_compiler::ast::{Expr, Stmt};
use mini_compiler::code_gen::{generate, try_generate};
use mini_compiler::lexer::{tokenize, Token};
use mini_compiler::parser::parse;

fn compile(source: &str) -> String {
    generate(parse(tokenize(source)))
}

#[test]
fn tokenize_let_statement() {
    assert_eq!(
        tokenize("let x = 42;"),
        vec![
            Token::Let,
            Token::Identifier("x".to_string()),
            Token::Equals,
            Token::Integer(42),
            Token::Semicolon,
        ]
    );
}

#[test]
fn tokenize_keywords_need_exact_spelling() {
    assert_eq!(
        tokenize("letter if else iffy _a1 elsewhere"),
        vec![
            Token::Identifier("letter".to_string()),
            Token::If,
            Token::Else,
            Token::Identifier("iffy".to_string()),
            Token::Identifier("_a1".to_string()),
            Token::Identifier("elsewhere".to_string()),
        ]
    );
}

#[test]
fn tokenize_operators_and_punctuation() {
    assert_eq!(
        tokenize("+-*/=><(){};"),
        vec![
            Token::Plus,
            Token::Minus,
            Token::Asterisk,
            Token::Slash,
            Token::Equals,
            Token::GreaterThan,
            Token::LessThan,
            Token::LeftParen,
            Token::RightParen,
            Token::LeftBrace,
            Token::RightBrace,
            Token::Semicolon,
        ]
    );
}

#[test]
fn tokenize_skips_whitespace() {
    assert_eq!(tokenize(" \t\n\x0C"), vec![]);
    assert_eq!(tokenize(""), vec![]);
}

#[test]
fn tokenize_marks_unknown_characters() {
    assert_eq!(
        tokenize("a @ 1\r"),
        vec![
            Token::Identifier("a".to_string()),
            Token::Error,
            Token::Integer(1),
            Token::Error,
        ]
    );
}

#[test]
fn tokenize_integer_range() {
    assert_eq!(tokenize("2147483647"), vec![Token::Integer(2147483647)]);
    assert_eq!(tokenize("2147483648"), vec![Token::Error]);
    assert_eq!(tokenize("99999999999999999999;"), vec![Token::Error, Token::Semicolon]);
    assert_eq!(tokenize("007"), vec![Token::Integer(7)]);
}

#[test]
fn tokenize_digits_then_letters() {
    assert_eq!(
        tokenize("12ab"),
        vec![Token::Integer(12), Token::Identifier("ab".to_string())]
    );
}

#[test]
fn let_with_literal_parses_to_one_assignment() {
    for (text, n) in [("0", 0), ("7", 7), ("2147483647", 2147483647)] {
        let source = format!("let x = {};", text);
        assert_eq!(
            parse(tokenize(&source)),
            vec![Stmt::Assign("x".to_string(), Expr::Const(n))]
        );
    }
}

#[test]
fn operators_share_one_precedence() {
    let expected = Stmt::Expr(Expr::Mul(
        Box::new(Expr::Add(Box::new(Expr::Const(2)), Box::new(Expr::Const(3)))),
        Box::new(Expr::Const(4)),
    ));
    assert_eq!(parse(tokenize("2 + 3 * 4 ;")), vec![expected]);
}

#[test]
fn parenthesised_expression() {
    let expected = Stmt::Expr(Expr::Sub(
        Box::new(Expr::Const(1)),
        Box::new(Expr::Div(Box::new(Expr::Var("a".to_string())), Box::new(Expr::Const(2)))),
    ));
    assert_eq!(parse(tokenize("1 - (a / 2);")), vec![expected]);
}

#[test]
fn if_without_else() {
    let expected = Stmt::Expr(Expr::If(
        Box::new(Expr::Greater(Box::new(Expr::Var("a".to_string())), Box::new(Expr::Const(0)))),
        Box::new(Stmt::Block(vec![Stmt::Assign("b".to_string(), Expr::Const(1))])),
        None,
    ));
    assert_eq!(parse(tokenize("if (a > 0) { let b = 1; }")), vec![expected]);
}

#[test]
fn variable_offsets_follow_first_assignment() {
    let expected = ".text\n.globl main\nmain:\n    li t0, 1\n    sw t0, 0(sp)\n    li t1, 2\n    sw t1, 4(sp)\n    li a0, 0\n    ret\n";
    assert_eq!(compile("let a = 1; let b = 2;"), expected);
}

#[test]
fn reassignment_reuses_the_slot() {
    let out = compile("let a = 1; let b = 2; let a = 3; a;");
    assert!(out.contains("    li t2, 3\n    sw t2, 0(sp)\n"));
    assert!(out.contains("    lw t3, 0(sp)\n"));
}

#[test]
fn conditional_uses_three_labels() {
    let expected = concat_lines(&[
        ".text",
        ".globl main",
        "main:",
        "    li t0, 1",
        "    li t1, 0",
        "    sgt t2, t0, t1",
        "    bnez t2, L0",
        "    j L1",
        "L0:",
        "    li t3, 1",
        "    sw t3, 0(sp)",
        "    j L2",
        "L1:",
        "    li t4, 2",
        "    sw t4, 0(sp)",
        "L2:",
        "    li a0, 0",
        "    ret",
    ]);
    assert_eq!(
        compile("if (1 > 0) { let x = 1; } else { let x = 2; }"),
        expected
    );
}

fn concat_lines(lines: &[&str]) -> String {
    let mut s = String::new();
    for l in lines {
        s.push_str(l);
        s.push('\n');
    }
    s
}

#[test]
fn labels_are_unique_across_conditionals() {
    let out = compile("if (1) { 1; } if (2) { 2; } else { 3; }");
    for l in ["L0:", "L1:", "L2:", "L3:", "L4:", "L5:"] {
        assert_eq!(out.matches(l).count(), 1);
    }
}

#[test]
fn parsing_is_deterministic() {
    let source = "let a = 1; if (a > 0) { let b = a * 2; } else { b; } a - 1;";
    assert_eq!(parse(tokenize(source)), parse(tokenize(source)));
}

#[test]
fn missing_identifier_is_dropped() {
    let result = parse(tokenize("let = 5;"));
    assert!(!result.iter().any(|s| matches!(s, Stmt::Assign(..))));
    assert_eq!(result, vec![Stmt::Expr(Expr::Const(5))]);
}

#[test]
fn malformed_inputs_do_not_crash() {
    assert_eq!(parse(tokenize("let x = ;")), vec![]);
    assert_eq!(parse(tokenize("( ( (")), vec![]);
    assert_eq!(parse(tokenize("@ 1 +")), vec![]);
    assert_eq!(
        parse(tokenize("{ let x = 1;")),
        vec![Stmt::Assign("x".to_string(), Expr::Const(1))]
    );
}

#[test]
fn undeclared_variable_is_fatal() {
    assert_eq!(try_generate(parse(tokenize("y + 1;"))), None);
    assert!(try_generate(parse(tokenize("let y = 0; y + 1;"))).is_some());
}

#[test]
fn negative_constant_and_all_operators() {
    let ast = vec![
        Stmt::Assign("x".to_string(), Expr::Const(-7)),
        Stmt::Expr(Expr::Div(Box::new(Expr::Var("x".to_string())), Box::new(Expr::Const(0)))),
    ];
    let out = generate(ast);
    assert!(out.contains("    li t0, -7\n    sw t0, 0(sp)\n"));
    assert!(out.contains("    lw t1, 0(sp)\n    li t2, 0\n    div t3, t1, t2\n"));
    let out = compile("1 - 2; 3 * 4;");
    assert!(out.contains("    sub t2, t0, t1\n"));
    assert!(out.contains("    mul t5, t3, t4\n"));
}

#[test]
fn empty_program() {
    assert_eq!(compile(""), ".text\n.globl main\nmain:\n    li a0, 0\n    ret\n");
}

#[test]
fn less_than_is_not_an_operator() {
    assert_eq!(
        tokenize("1 < 2;"),
        vec![Token::Integer(1), Token::LessThan, Token::Integer(2), Token::Semicolon]
    );
    assert_eq!(parse(tokenize("1 < 2;")), vec![Stmt::Expr(Expr::Const(2))]);
}

#[test]
fn operator_without_right_operand_fails() {
    assert_eq!(
        parse(tokenize("let a = 1 + ; 3;")),
        vec![Stmt::Expr(Expr::Const(3))]
    );
    assert_eq!(parse(tokenize("let a = 1 + ;;")), vec![]);
    assert_eq!(parse(tokenize("1 * (2 - ) ;")), vec![]);
}

#[test]
fn else_without_block_fails() {
    assert_eq!(parse(tokenize("if (1) { 2; } else 3;")), vec![]);
    assert_eq!(
        parse(tokenize("if (1) { 2; } else 3; 4;")),
        vec![Stmt::Expr(Expr::Const(4))]
    );
}

#[test]
fn empty_blocks_parse() {
    let expected = Stmt::Expr(Expr::If(
        Box::new(Expr::Const(1)),
        Box::new(Stmt::Block(vec![])),
        Some(Box::new(Stmt::Block(vec![]))),
    ));
    assert_eq!(parse(tokenize("if (1) { } else {}")), vec![expected]);
    let expected = Stmt::Expr(Expr::If(
        Box::new(Expr::Const(1)),
        Box::new(Stmt::Block(vec![])),
        None,
    ));
    assert_eq!(parse(tokenize("if (1) {}")), vec![expected]);
    assert_eq!(parse(tokenize("if (1) {")), vec![]);
}

#[test]
fn empty_branches_generate_labels_only() {
    let out = compile("if (1) {} else {}");
    assert!(out.contains("    li t0, 1\n    bnez t0, L0\n    j L1\nL0:\n    j L2\nL1:\nL2:\n"));
}

#[test]
fn statements_span_at_least_two_tokens() {
    for src in ["1;2;3;", "let = 5;", "; ; ;", "if (1) {} else {}", "a; b c; (d);"] {
        let tokens = tokenize(src);
        let n = tokens.len();
        assert!(2 * parse(tokens).len() <= n);
    }
    assert_eq!(parse(tokenize("1;2;3;")).len(), 3);
}
