use rlox::ast::{Expr, Stmt};
use rlox::error_reporter::Location;
use rlox::parser::Parser;
use rlox::scanner::Scanner;
use rlox::tokens::{Object, Token, TokenType};

fn tok(kind: TokenType, lexeme: &str) -> Token {
    Token::new(kind, lexeme.to_string(), None, 1)
}

fn num(text: &str) -> Token {
    Token::new(TokenType::Number, text.to_string(), Some(Object::Number(text.to_string())), 1)
}

fn lit(text: &str) -> Box<Expr> {
    Box::new(Expr::Literal(Object::Number(text.to_string())))
}

fn parse_source(source: &str) -> (Vec<Stmt>, Parser) {
    let mut scanner = Scanner::new(source.to_string());
    let tokens = scanner.scan_tokens();
    let mut parser = Parser::new(tokens);
    let statements = parser.parse();
    (statements, parser)
}

#[test]
fn test_parser() {
    // 1 + (2 * 3);
    let tokens = vec![
        Token::new(TokenType::Number, "1.0".to_string(), Some(Object::Number("1.0".to_string())), 1),
        Token::new(TokenType::Plus, "+".to_string(), None, 1),
        Token::new(TokenType::LeftParen, "(".to_string(), None, 1),
        Token::new(TokenType::Number, "2.0".to_string(), Some(Object::Number("2.0".to_string())), 1),
        Token::new(TokenType::Star, "*".to_string(), None, 1),
        Token::new(TokenType::Number, "3.0".to_string(), Some(Object::Number("3.0".to_string())), 1),
        Token::new(TokenType::RightParen, ")".to_string(), None, 1),
        Token::new(TokenType::Semicolon, ";".to_string(), None, 1),
        Token::new(TokenType::Eof, "".to_string(), None, 1),
    ];

    let mut parser = Parser::new(tokens);
    let statements = parser.parse();
    let expected = Stmt::Expression(Box::new(Expr::Binary(
        Box::new(Expr::Literal(Object::Number("1.0".to_string()))),
        Token::new(TokenType::Plus, "+".to_string(), None, 1),
        Box::new(Expr::Grouping(Box::new(Expr::Binary(
            Box::new(Expr::Literal(Object::Number("2.0".to_string()))),
            Token::new(TokenType::Star, "*".to_string(), None, 1),
            Box::new(Expr::Literal(Object::Number("3.0".to_string()))),
        )))),
    )));
    assert_eq!(statements[0], expected);
}

#[test]
fn test_for_loop_desugaring() {
    // for (var i = 0; i < 3; i = i + 1) print i;
    let tokens = vec![
        tok(TokenType::For, "for"),
        tok(TokenType::LeftParen, "("),
        tok(TokenType::Var, "var"),
        tok(TokenType::Identifier, "i"),
        tok(TokenType::Equal, "="),
        num("0"),
        tok(TokenType::Semicolon, ";"),
        tok(TokenType::Identifier, "i"),
        tok(TokenType::Less, "<"),
        num("3"),
        tok(TokenType::Semicolon, ";"),
        tok(TokenType::Identifier, "i"),
        tok(TokenType::Equal, "="),
        tok(TokenType::Identifier, "i"),
        tok(TokenType::Plus, "+"),
        num("1"),
        tok(TokenType::RightParen, ")"),
        tok(TokenType::Print, "print"),
        tok(TokenType::Identifier, "i"),
        tok(TokenType::Semicolon, ";"),
        tok(TokenType::Eof, ""),
    ];

    let mut parser = Parser::new(tokens);
    let statements = parser.parse();

    let var_token = tok(TokenType::Identifier, "i");
    let expected = Stmt::Block(vec![
        Stmt::Var(var_token.clone(), Some(lit("0"))),
        Stmt::While(
            Box::new(Expr::Binary(
                Box::new(Expr::Variable(var_token.clone())),
                tok(TokenType::Less, "<"),
                lit("3"),
            )),
            Box::new(Stmt::Block(vec![
                Stmt::Print(Box::new(Expr::Variable(var_token.clone()))),
                Stmt::Expression(Box::new(Expr::Assignment(
                    var_token.clone(),
                    Box::new(Expr::Binary(
                        Box::new(Expr::Variable(var_token.clone())),
                        tok(TokenType::Plus, "+"),
                        lit("1"),
                    )),
                ))),
            ])),
        ),
    ]);

    assert_eq!(statements[0], expected);
}

#[test]
fn grouping_and_precedence_from_source() {
    let (statements, parser) = parse_source("1 + (2 * 3);");
    assert_eq!(statements.len(), 1);
    let expected = Stmt::Expression(Box::new(Expr::Binary(
        lit("1"),
        tok(TokenType::Plus, "+"),
        Box::new(Expr::Grouping(Box::new(Expr::Binary(lit("2"), tok(TokenType::Star, "*"), lit("3"))))),
    )));
    assert_eq!(statements[0], expected);
    assert!(!parser.error_reporter.had_error);
}

#[test]
fn for_loop_from_source_desugars() {
    let (statements, parser) = parse_source("for (var i = 0; i < 3; i = i + 1) print i;");
    assert!(!parser.error_reporter.had_error);
    assert_eq!(statements.len(), 1);
    let i = tok(TokenType::Identifier, "i");
    let expected = Stmt::Block(vec![
        Stmt::Var(i.clone(), Some(lit("0"))),
        Stmt::While(
            Box::new(Expr::Binary(Box::new(Expr::Variable(i.clone())), tok(TokenType::Less, "<"), lit("3"))),
            Box::new(Stmt::Block(vec![
                Stmt::Print(Box::new(Expr::Variable(i.clone()))),
                Stmt::Expression(Box::new(Expr::Assignment(
                    i.clone(),
                    Box::new(Expr::Binary(Box::new(Expr::Variable(i.clone())), tok(TokenType::Plus, "+"), lit("1"))),
                ))),
            ])),
        ),
    ]);
    assert_eq!(statements[0], expected);
}

#[test]
fn for_loop_without_clauses_loops_on_true() {
    let (statements, parser) = parse_source("for (;;) print 1;");
    assert!(!parser.error_reporter.had_error);
    let expected = Stmt::While(
        Box::new(Expr::Literal(Object::Boolean(true))),
        Box::new(Stmt::Print(lit("1"))),
    );
    assert_eq!(statements, vec![expected]);
}

#[test]
fn binary_operators_associate_left() {
    let (statements, _) = parse_source("1 - 2 - 3;");
    let expected = Stmt::Expression(Box::new(Expr::Binary(
        Box::new(Expr::Binary(lit("1"), tok(TokenType::Minus, "-"), lit("2"))),
        tok(TokenType::Minus, "-"),
        lit("3"),
    )));
    assert_eq!(statements, vec![expected]);
}

#[test]
fn assignment_associates_right_and_logic_builds_logical_nodes() {
    let (statements, parser) = parse_source("a = b = c or d and e;");
    assert!(!parser.error_reporter.had_error);
    let v = |n: &str| Box::new(Expr::Variable(tok(TokenType::Identifier, n)));
    let expected = Stmt::Expression(Box::new(Expr::Assignment(
        tok(TokenType::Identifier, "a"),
        Box::new(Expr::Assignment(
            tok(TokenType::Identifier, "b"),
            Box::new(Expr::Logical(
                v("c"),
                tok(TokenType::Or, "or"),
                Box::new(Expr::Logical(v("d"), tok(TokenType::And, "and"), v("e"))),
            )),
        )),
    )));
    assert_eq!(statements, vec![expected]);
}

#[test]
fn if_else_binds_to_nearest_if() {
    let (statements, parser) = parse_source("if (a) if (b) print 1; else print 2;");
    assert!(!parser.error_reporter.had_error);
    let v = |n: &str| Box::new(Expr::Variable(tok(TokenType::Identifier, n)));
    let expected = Stmt::If(
        v("a"),
        Box::new(Stmt::If(v("b"), Box::new(Stmt::Print(lit("1"))), Some(Box::new(Stmt::Print(lit("2")))))),
        None,
    );
    assert_eq!(statements, vec![expected]);
}

#[test]
fn unary_and_call_expressions() {
    let (statements, parser) = parse_source("-!f(1, 2)(3);");
    assert!(!parser.error_reporter.had_error);
    let inner = Expr::Call(
        Box::new(Expr::Variable(tok(TokenType::Identifier, "f"))),
        tok(TokenType::RightParen, ")"),
        vec![Expr::Literal(Object::Number("1".to_string())), Expr::Literal(Object::Number("2".to_string()))],
    );
    let outer = Expr::Call(Box::new(inner), tok(TokenType::RightParen, ")"), vec![Expr::Literal(Object::Number("3".to_string()))]);
    let expected = Stmt::Expression(Box::new(Expr::Unary(
        tok(TokenType::Minus, "-"),
        Box::new(Expr::Unary(tok(TokenType::Bang, "!"), Box::new(outer))),
    )));
    assert_eq!(statements, vec![expected]);
}

#[test]
fn invalid_assignment_target_is_reported_and_parsing_goes_on() {
    let (statements, parser) = parse_source("1 = 2; print 3;");
    assert_eq!(statements.len(), 2);
    assert_eq!(statements[0], Stmt::Expression(lit("1")));
    assert_eq!(parser.error_reporter.diagnostics.len(), 1);
    let d = &parser.error_reporter.diagnostics[0];
    assert_eq!(d.message, "Invalid assignment target");
    assert_eq!(d.location, Location::AtLexeme("=".to_string()));
}

#[test]
fn syntax_error_recovers_at_next_statement() {
    let (statements, parser) = parse_source("print ; var x = 1; (2; print x;");
    assert_eq!(parser.error_reporter.diagnostics.len(), 2);
    assert_eq!(parser.error_reporter.diagnostics[0].message, "Expect expression.");
    assert_eq!(parser.error_reporter.diagnostics[0].location, Location::AtLexeme(";".to_string()));
    assert_eq!(parser.error_reporter.diagnostics[1].message, "Expect ')' after expression.");
    assert_eq!(statements.len(), 2);
    assert!(matches!(statements[0], Stmt::Var(_, _)));
    assert!(matches!(statements[1], Stmt::Print(_)));
}

#[test]
fn unterminated_block_is_reported_at_end() {
    let (statements, parser) = parse_source("{ print 1;");
    assert!(statements.is_empty());
    assert_eq!(parser.error_reporter.diagnostics.len(), 1);
    assert_eq!(parser.error_reporter.diagnostics[0].message, "Expect '}' after block.");
    assert_eq!(parser.error_reporter.diagnostics[0].location, Location::AtEnd);
}

#[test]
fn missing_variable_name_is_reported() {
    let (statements, parser) = parse_source("var 1 = 2;");
    assert!(statements.is_empty());
    assert_eq!(parser.error_reporter.diagnostics[0].message, "Expect variable name.");
    assert!(parser.error_reporter.had_error);
}

fn call_with_arguments(n: usize) -> (Vec<Stmt>, Parser) {
    let mut tokens = vec![tok(TokenType::Identifier, "f"), tok(TokenType::LeftParen, "(")];
    for k in 0..n {
        if k > 0 {
            tokens.push(tok(TokenType::Comma, ","));
        }
        tokens.push(num("1"));
    }
    tokens.push(tok(TokenType::RightParen, ")"));
    tokens.push(tok(TokenType::Semicolon, ";"));
    tokens.push(tok(TokenType::Eof, ""));
    let mut parser = Parser::new(tokens);
    let statements = parser.parse();
    (statements, parser)
}

fn argument_count(statements: &[Stmt]) -> usize {
    match &statements[0] {
        Stmt::Expression(e) => match e.as_ref() {
            Expr::Call(_, _, args) => args.len(),
            _ => panic!("expected a call"),
        },
        _ => panic!("expected an expression statement"),
    }
}

#[test]
fn too_many_arguments_are_reported_and_the_call_completes() {
    let (statements, parser) = call_with_arguments(256);
    assert_eq!(statements.len(), 1);
    assert_eq!(argument_count(&statements), 256);
    assert_eq!(parser.error_reporter.diagnostics.len(), 1);
    assert_eq!(parser.error_reporter.diagnostics[0].message, "Too many arguments in function call.");
    assert!(parser.error_reporter.had_error);
}

#[test]
fn a_call_takes_up_to_255_arguments() {
    let (statements, parser) = call_with_arguments(255);
    assert_eq!(argument_count(&statements), 255);
    assert!(parser.error_reporter.diagnostics.is_empty());
    assert!(!parser.error_reporter.had_error);
}

#[test]
fn parsing_twice_gives_the_same_statements() {
    let text = "var a = 1; while (a < 3) { a = a + 1; } if (a) print a; else print nil;";
    let (first, _) = parse_source(text);
    let (second, _) = parse_source(text);
    assert_eq!(first, second);
}
