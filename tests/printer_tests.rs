use rlox::ast::Expr;
use rlox::tokens::{Object, Token, TokenType};

#[test]
fn test_simple_expr() {
    let expr = Expr::Binary(
        Box::new(Expr::Literal(Object::Number("1".to_string()))),
        Token::new(TokenType::Plus, "+".to_string(), None, 1),
        Box::new(Expr::Literal(Object::Number("2".to_string()))),
    );
    assert_eq!(expr.to_string(), "(+ 1 2)");
}

#[test]
fn test_book_expr() {
    let expr = Expr::Binary(
        Box::new(Expr::Unary(
            Token::new(TokenType::Minus, "-".to_string(), None, 1),
            Box::new(Expr::Literal(Object::Number("123".to_string()))),
        )),
        Token::new(TokenType::Star, "*".to_string(), None, 1),
        Box::new(Expr::Grouping(Box::new(Expr::Literal(Object::Number("45.67".to_string()))))),
    );
    assert_eq!(expr.to_string(), "(* (- 123) (group 45.67))");
}

#[test]
fn literals_variables_assignments_and_logic_print() {
    let t = |k: TokenType, s: &str| Token::new(k, s.to_string(), None, 1);
    let expr = Expr::Assignment(
        t(TokenType::Identifier, "a"),
        Box::new(Expr::Logical(
            Box::new(Expr::Literal(Object::String("x".to_string()))),
            t(TokenType::Or, "or"),
            Box::new(Expr::Logical(
                Box::new(Expr::Literal(Object::Nil)),
                t(TokenType::And, "and"),
                Box::new(Expr::Literal(Object::Boolean(false))),
            )),
        )),
    );
    assert_eq!(expr.to_string(), "a = (or \"x\" (and nil false))");
    assert_eq!(Expr::Variable(t(TokenType::Identifier, "v")).to_string(), "v");
}

#[test]
fn calls_print_callee_paren_and_arguments() {
    let t = |k: TokenType, s: &str| Token::new(k, s.to_string(), None, 1);
    let expr = Expr::Call(
        Box::new(Expr::Variable(t(TokenType::Identifier, "f"))),
        t(TokenType::RightParen, ")"),
        vec![Expr::Literal(Object::Number("1".to_string())), Expr::Literal(Object::Boolean(true))],
    );
    assert_eq!(expr.to_string(), "fRightParen ) None(call 1 true)");
}

#[test]
fn tokens_print_kind_lexeme_and_literal() {
    let s = Token::new(TokenType::String, "\"hi\"".to_string(), Some(Object::String("hi".to_string())), 2);
    assert_eq!(s.to_string(), "String \"hi\" \"hi\"");
    let n = Token::new(TokenType::Number, "7".to_string(), Some(Object::Number("7".to_string())), 1);
    assert_eq!(n.to_string(), "Number 7 7");
    let e = Token::new(TokenType::Eof, String::new(), None, 3);
    assert_eq!(e.to_string(), "Eof  None");
    assert_eq!(Object::Nil.to_string(), "nil");
}
