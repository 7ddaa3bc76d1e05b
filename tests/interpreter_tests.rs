use rlox::ast::{Expr, Stmt};
use rlox::interpreter::{Interpreter, NumberOp, NumberRequest};
use rlox::parser::Parser;
use rlox::scanner::Scanner;
use rlox::tokens::{Object, Token, TokenType};
use rlox::values::Value;

fn numbers(request: NumberRequest<f64>) -> Value<f64> {
    match request {
        NumberRequest::Numeral(text) => Value::Number(text.parse::<f64>().unwrap()),
        NumberRequest::Negate(n) => Value::Number(-n),
        NumberRequest::Apply(op, a, b) => match op {
            NumberOp::Add => Value::Number(a + b),
            NumberOp::Subtract => Value::Number(a - b),
            NumberOp::Multiply => Value::Number(a * b),
            NumberOp::Divide => Value::Number(a / b),
            NumberOp::Greater => Value::Boolean(a > b),
            NumberOp::GreaterEqual => Value::Boolean(a >= b),
            NumberOp::Less => Value::Boolean(a < b),
            NumberOp::LessEqual => Value::Boolean(a <= b),
            NumberOp::Equal => Value::Boolean(a == b),
        },
    }
}

fn num(text: &str) -> Box<Expr> {
    Box::new(Expr::Literal(Object::Number(text.to_string())))
}

fn string(text: &str) -> Box<Expr> {
    Box::new(Expr::Literal(Object::String(text.to_string())))
}

fn run_source(source: &str) -> Interpreter<f64> {
    let mut scanner = Scanner::new(source.to_string());
    let tokens = scanner.scan_tokens();
    assert!(!scanner.error_reporter.had_error);
    let mut parser = Parser::new(tokens);
    let statements = parser.parse();
    assert!(!parser.error_reporter.had_error);
    let mut interpreter = Interpreter::new();
    interpreter.interpret(statements, &numbers, u64::MAX);
    interpreter
}

#[test]
fn test_interpret_addition() {
    // 1 + 2
    let mut interpreter = Interpreter::new();
    assert_eq!(
        interpreter
            .evaluate(
                &Expr::Binary(num("1.0"), Token::new(TokenType::Plus, "+".to_string(), None, 1), num("2.0")),
                &numbers
            )
            .unwrap(),
        Value::Number(3.0)
    );
}

#[test]
fn test_equality() {
    let mut interpreter = Interpreter::new();
    assert_eq!(
        interpreter
            .evaluate(
                &Expr::Binary(
                    num("1.0"),
                    Token::new(TokenType::EqualEqual, "==".to_string(), None, 1),
                    num("1.0")
                ),
                &numbers
            )
            .unwrap(),
        Value::Boolean(true)
    );
}

#[test]
fn test_interpret_variable_declaration_and_usage() {
    let mut interpreter = Interpreter::new();
    let var_name = Token::new(TokenType::Identifier, "test_var".to_string(), None, 1);

    let statements = vec![
        // var test_var = 123;
        Stmt::Var(var_name.clone(), Some(num("123.0"))),
        // print test_var;
        Stmt::Print(Box::new(Expr::Variable(var_name.clone()))),
    ];

    interpreter.interpret(statements, &numbers, u64::MAX);

    // Should not have any errors
    assert!(!interpreter.error_reporter.had_runtime_error);
    // Variable should exist in environment
    assert_eq!(interpreter.get(&var_name).unwrap(), Value::Number(123.0));
    assert_eq!(interpreter.output, vec![Value::Number(123.0)]);
}

#[test]
fn test_interpret_variable_reassignment() {
    let mut interpreter = Interpreter::new();
    let var_name = Token::new(TokenType::Identifier, "test_var".to_string(), None, 1);

    let statements = vec![
        // var test_var = 123;
        Stmt::Var(var_name.clone(), Some(num("123.0"))),
        // var test_var = 42;
        Stmt::Var(var_name.clone(), Some(num("42.0"))),
    ];

    interpreter.interpret(statements, &numbers, u64::MAX);

    assert!(!interpreter.error_reporter.had_runtime_error);
    assert_eq!(interpreter.get(&var_name).unwrap(), Value::Number(42.0));
}

#[test]
fn test_block_statement_scoping_and_shadowing() {
    let mut interpreter = Interpreter::new();

    let var_a = Token::new(TokenType::Identifier, "a".to_string(), None, 1);
    let var_b = Token::new(TokenType::Identifier, "b".to_string(), None, 1);

    let statements = vec![
        Stmt::Var(var_a.clone(), Some(string("global a"))),
        Stmt::Var(var_b.clone(), Some(string("global b"))),
        Stmt::Block(vec![
            Stmt::Var(var_a.clone(), Some(string("outer a"))),
            Stmt::Var(var_b.clone(), Some(string("outer b"))),
        ]),
    ];

    interpreter.interpret(statements, &numbers, u64::MAX);

    assert!(!interpreter.error_reporter.had_runtime_error);
    assert_eq!(interpreter.get(&var_a).unwrap(), Value::String("global a".to_string()));
    assert_eq!(interpreter.get(&var_b).unwrap(), Value::String("global b".to_string()));
}

#[test]
fn test_block_scope_isolation() {
    let mut interpreter = Interpreter::new();

    let var_block_only = Token::new(TokenType::Identifier, "block_only".to_string(), None, 1);

    let statements = vec![
        Stmt::Block(vec![Stmt::Var(var_block_only.clone(), Some(string("inside block")))]),
        // Try to access block_only variable outside the block - this should cause an error
        Stmt::Print(Box::new(Expr::Variable(var_block_only.clone()))),
    ];

    interpreter.interpret(statements, &numbers, u64::MAX);

    assert!(interpreter.error_reporter.had_runtime_error);
}

#[test]
fn test_logical_and_short_circuit_false() {
    let mut interpreter = Interpreter::new();
    let result = interpreter
        .evaluate(
            &Expr::Logical(
                Box::new(Expr::Literal(Object::Boolean(false))),
                Token::new(TokenType::And, "and".to_string(), None, 1),
                Box::new(Expr::Literal(Object::Boolean(true))),
            ),
            &numbers,
        )
        .unwrap();

    assert_eq!(result, Value::Boolean(false));
}

#[test]
fn test_logical_and_evaluate_both() {
    let mut interpreter = Interpreter::new();
    let result = interpreter
        .evaluate(
            &Expr::Logical(
                Box::new(Expr::Literal(Object::Boolean(true))),
                Token::new(TokenType::And, "and".to_string(), None, 1),
                Box::new(Expr::Literal(Object::Boolean(false))),
            ),
            &numbers,
        )
        .unwrap();

    assert_eq!(result, Value::Boolean(false));
}

#[test]
fn test_logical_or_short_circuit_true() {
    let mut interpreter = Interpreter::new();
    let result = interpreter
        .evaluate(
            &Expr::Logical(
                Box::new(Expr::Literal(Object::Boolean(true))),
                Token::new(TokenType::Or, "or".to_string(), None, 1),
                Box::new(Expr::Literal(Object::Boolean(false))),
            ),
            &numbers,
        )
        .unwrap();

    assert_eq!(result, Value::Boolean(true));
}

#[test]
fn test_logical_or_evaluate_both() {
    let mut interpreter = Interpreter::new();
    let result = interpreter
        .evaluate(
            &Expr::Logical(
                Box::new(Expr::Literal(Object::Boolean(false))),
                Token::new(TokenType::Or, "or".to_string(), None, 1),
                Box::new(Expr::Literal(Object::Boolean(true))),
            ),
            &numbers,
        )
        .unwrap();

    assert_eq!(result, Value::Boolean(true));
}

#[test]
fn test_while_loop_with_blocks() {
    let mut interpreter = Interpreter::new();

    let var_a = Token::new(TokenType::Identifier, "a".to_string(), None, 1);

    let statements = vec![
        // var a = 0;
        Stmt::Var(var_a.clone(), Some(num("0.0"))),
        // while (a < 3) { a = a + 1; }
        Stmt::While(
            Box::new(Expr::Binary(
                Box::new(Expr::Variable(var_a.clone())),
                Token::new(TokenType::Less, "<".to_string(), None, 1),
                num("3.0"),
            )),
            Box::new(Stmt::Block(vec![Stmt::Expression(Box::new(Expr::Assignment(
                var_a.clone(),
                Box::new(Expr::Binary(
                    Box::new(Expr::Variable(var_a.clone())),
                    Token::new(TokenType::Plus, "+".to_string(), None, 1),
                    num("1.0"),
                )),
            )))])),
        ),
    ];

    interpreter.interpret(statements, &numbers, u64::MAX);

    assert!(!interpreter.error_reporter.had_runtime_error);
    assert_eq!(interpreter.get(&var_a).unwrap(), Value::Number(3.0));
}

#[test]
fn shadowing_block_leaves_global_binding() {
    let interpreter = run_source("var a = \"g\"; { var a = \"inner\"; }");
    assert!(!interpreter.error_reporter.had_runtime_error);
    let a = Token::new(TokenType::Identifier, "a".to_string(), None, 1);
    assert_eq!(interpreter.get(&a).unwrap(), Value::String("g".to_string()));
}

#[test]
fn block_local_is_reported_undefined_after_the_block() {
    let interpreter = run_source("{ var x = 1; } print x;");
    assert!(interpreter.error_reporter.had_runtime_error);
    assert_eq!(interpreter.error_reporter.runtime_errors.len(), 1);
    let err = &interpreter.error_reporter.runtime_errors[0];
    assert_eq!(err.message, "Undefined variable 'x'.");
    assert_eq!(err.token.lexeme, "x");
    assert!(interpreter.output.is_empty());
}

#[test]
fn false_and_division_never_divides() {
    let interpreter = run_source("var r = false and (1/\"s\"); print false and (1/0);");
    assert!(!interpreter.error_reporter.had_runtime_error);
    assert_eq!(interpreter.output, vec![Value::Boolean(false)]);
    let r = Token::new(TokenType::Identifier, "r".to_string(), None, 1);
    assert_eq!(interpreter.get(&r).unwrap(), Value::Boolean(false));
}

#[test]
fn runtime_error_ends_only_its_statement() {
    let interpreter = run_source("print 1; print -\"a\"; print 2 + \"b\"; print \"c\" + \"d\"; print 3 < nil;");
    assert_eq!(interpreter.output, vec![Value::Number(1.0), Value::String("cd".to_string())]);
    let messages: Vec<&str> = interpreter.error_reporter.runtime_errors.iter().map(|e| e.message.as_str()).collect();
    assert_eq!(
        messages,
        vec![
            "Operand must be a number",
            "Operands must be two numbers or two strings",
            "Operands must be two numbers"
        ]
    );
}

#[test]
fn error_inside_block_still_leaves_its_scope() {
    let interpreter = run_source("var a = 1; { var a = 2; print nope; } print a;");
    assert_eq!(interpreter.error_reporter.runtime_errors.len(), 1);
    assert_eq!(interpreter.output, vec![Value::Number(1.0)]);
}

#[test]
fn equality_never_fails_across_kinds() {
    let interpreter = run_source("print 1 == true; print nil == nil; print \"a\" != \"a\"; print 0 == 0;");
    assert!(!interpreter.error_reporter.had_runtime_error);
    assert_eq!(
        interpreter.output,
        vec![Value::Boolean(false), Value::Boolean(true), Value::Boolean(false), Value::Boolean(true)]
    );
}

#[test]
fn truthiness_drives_if_and_for() {
    let interpreter = run_source(
        "if (0) print \"zero\"; else print \"no\"; if (nil) print 1; var s = 0; for (var i = 0; i < 4; i = i + 1) s = s + i; print s;",
    );
    assert!(!interpreter.error_reporter.had_runtime_error);
    assert_eq!(interpreter.output, vec![Value::String("zero".to_string()), Value::Number(6.0)]);
}

#[test]
fn assignment_to_undefined_name_fails() {
    let interpreter = run_source("y = 1;");
    assert_eq!(interpreter.error_reporter.runtime_errors[0].message, "Undefined variable 'y'.");
}

#[test]
fn while_runs_at_most_fuel_iterations() {
    let mut scanner = Scanner::new("var n = 0; while (true) n = n + 1;".to_string());
    let tokens = scanner.scan_tokens();
    let mut parser = Parser::new(tokens);
    let statements = parser.parse();
    let mut interpreter = Interpreter::new();
    interpreter.interpret(statements, &numbers, 5);
    let n = Token::new(TokenType::Identifier, "n".to_string(), None, 1);
    assert_eq!(interpreter.get(&n).unwrap(), Value::Number(5.0));
    assert_eq!(interpreter.error_reporter.runtime_errors.len(), 1);
    let err = &interpreter.error_reporter.runtime_errors[0];
    assert_eq!(err.message, "Loop iteration limit reached.");
    assert_eq!(err.token.token_type, TokenType::While);
}

#[test]
fn loop_limit_error_names_a_token_of_the_condition() {
    let mut scanner = Scanner::new("var n = 0;\nwhile (n >= 0) n = n + 1;".to_string());
    let tokens = scanner.scan_tokens();
    let mut parser = Parser::new(tokens);
    let statements = parser.parse();
    let mut interpreter = Interpreter::new();
    interpreter.interpret(statements, &numbers, 3);
    let err = &interpreter.error_reporter.runtime_errors[0];
    assert_eq!(err.token.lexeme, ">=");
    assert_eq!(err.token.line, 2);
}

#[test]
fn loop_ending_within_fuel_is_no_error() {
    let mut scanner = Scanner::new("var n = 0; while (n < 3) n = n + 1;".to_string());
    let tokens = scanner.scan_tokens();
    let mut parser = Parser::new(tokens);
    let statements = parser.parse();
    let mut interpreter = Interpreter::new();
    interpreter.interpret(statements, &numbers, 3);
    assert!(!interpreter.error_reporter.had_runtime_error);
}

#[test]
fn calls_are_runtime_errors() {
    let interpreter = run_source("f();");
    assert_eq!(interpreter.error_reporter.runtime_errors[0].message, "Can only call functions and classes.");
}
