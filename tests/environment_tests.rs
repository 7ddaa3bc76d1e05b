use rlox::environment::EnvironmentStack;
use rlox::error_reporter::{ErrorReporter, RuntimeError};
use rlox::tokens::{Token, TokenType};
use rlox::values::{
    check_number_operand, check_number_operands, is_truthy, plus_operands, short_circuits,
    values_equal, Sum, Value,
};

fn name(n: &str) -> Token {
    Token::new(TokenType::Identifier, n.to_string(), None, 1)
}

fn s(text: &str) -> Value<f64> {
    Value::String(text.to_string())
}

#[test]
fn block_definition_leaves_global_binding() {
    let mut env: EnvironmentStack<Value<f64>> = EnvironmentStack::new();
    env.define(&name("a"), s("g"));
    env.push_environment();
    env.define(&name("a"), s("inner"));
    assert_eq!(env.get(&name("a")).unwrap(), &s("inner"));
    env.pop_environment();
    assert_eq!(env.get(&name("a")).unwrap(), &s("g"));
}

#[test]
fn block_local_is_undefined_after_the_block() {
    let mut env: EnvironmentStack<Value<f64>> = EnvironmentStack::new();
    env.push_environment();
    env.define(&name("x"), Value::Number(1.0));
    env.pop_environment();
    let err = env.get(&name("x")).unwrap_err();
    assert_eq!(err.message, "Undefined variable 'x'.");
    assert_eq!(err.token, name("x"));
    let mut reporter = ErrorReporter::new();
    reporter.runtime_error(err);
    assert!(reporter.had_runtime_error);
    assert!(!reporter.had_error);
}

#[test]
fn redefinition_overwrites_in_the_same_scope() {
    let mut env: EnvironmentStack<Value<f64>> = EnvironmentStack::new();
    env.define(&name("test_var"), Value::Number(123.0));
    env.define(&name("test_var"), Value::Number(42.0));
    assert_eq!(env.get(&name("test_var")).unwrap(), &Value::Number(42.0));
    assert_eq!(env.current_environment().len(), 1);
}

#[test]
fn assign_updates_the_innermost_binding_only() {
    let mut env: EnvironmentStack<Value<f64>> = EnvironmentStack::new();
    env.define(&name("a"), Value::Number(1.0));
    env.define(&name("b"), Value::Number(2.0));
    env.push_environment();
    env.define(&name("a"), Value::Number(10.0));
    assert!(env.assign(&name("a"), Value::Number(11.0)).is_ok());
    assert!(env.assign(&name("b"), Value::Number(3.0)).is_ok());
    env.pop_environment();
    assert_eq!(env.get(&name("a")).unwrap(), &Value::Number(1.0));
    assert_eq!(env.get(&name("b")).unwrap(), &Value::Number(3.0));
}

#[test]
fn assign_never_creates_a_binding() {
    let mut env: EnvironmentStack<Value<f64>> = EnvironmentStack::new();
    let err: RuntimeError = env.assign(&name("nope"), Value::Nil).unwrap_err();
    assert_eq!(err.message, "Undefined variable 'nope'.");
    assert!(env.get(&name("nope")).is_err());
}

#[test]
fn global_scope_is_never_popped() {
    let mut env: EnvironmentStack<Value<f64>> = EnvironmentStack::new();
    env.define_global("clock", Value::Number(0.0));
    env.pop_environment();
    env.pop_environment();
    assert_eq!(env.get(&name("clock")).unwrap(), &Value::Number(0.0));
    env.push_environment();
    env.define_global("late", Value::Boolean(true));
    env.pop_environment();
    assert_eq!(env.get(&name("late")).unwrap(), &Value::Boolean(true));
}

#[test]
fn false_and_skips_the_right_operand() {
    assert!(short_circuits(TokenType::And, &Value::<f64>::Boolean(false)));
    assert!(short_circuits(TokenType::And, &Value::<f64>::Nil));
    assert!(!short_circuits(TokenType::And, &Value::<f64>::Boolean(true)));
    assert!(short_circuits(TokenType::Or, &Value::<f64>::Boolean(true)));
    assert!(!short_circuits(TokenType::Or, &Value::<f64>::Boolean(false)));
}

#[test]
fn truthiness() {
    assert!(!is_truthy(&Value::<f64>::Nil));
    assert!(!is_truthy(&Value::<f64>::Boolean(false)));
    assert!(is_truthy(&Value::Number(0.0)));
    assert!(is_truthy(&s("")));
}

#[test]
fn equality_across_kinds() {
    assert_eq!(values_equal(&Value::Number(1.0), &Value::Number(1.0)), None);
    assert_eq!(values_equal(&Value::Number(1.0), &Value::Boolean(true)), Some(false));
    assert_eq!(values_equal(&Value::<f64>::Nil, &Value::Nil), Some(true));
    assert_eq!(values_equal(&Value::<f64>::Nil, &Value::Boolean(false)), Some(false));
    assert_eq!(values_equal(&s("a"), &s("a")), Some(true));
    assert_eq!(values_equal(&s("a"), &s("b")), Some(false));
}

#[test]
fn operand_checks() {
    let minus = Token::new(TokenType::Minus, "-".to_string(), None, 3);
    assert_eq!(check_number_operand(&minus, &Value::Number(2.0)).unwrap(), 2.0);
    let e = check_number_operand(&minus, &s("x")).unwrap_err();
    assert_eq!(e.message, "Operand must be a number");
    assert_eq!(e.token.line, 3);
    assert_eq!(check_number_operands(&minus, &Value::Number(1.0), &Value::Number(2.0)).unwrap(), (1.0, 2.0));
    let e = check_number_operands(&minus, &Value::Number(1.0), &Value::Nil).unwrap_err();
    assert_eq!(e.message, "Operands must be two numbers");
}

#[test]
fn plus_adds_numbers_and_concatenates_strings() {
    let plus = Token::new(TokenType::Plus, "+".to_string(), None, 1);
    match plus_operands(&plus, &Value::Number(1.0), &Value::Number(2.0)).unwrap() {
        Sum::Numbers(a, b) => assert_eq!(a + b, 3.0),
        Sum::Concatenation(_) => panic!("expected numbers"),
    }
    match plus_operands(&plus, &s("ab"), &s("cd")).unwrap() {
        Sum::Concatenation(text) => assert_eq!(text, "abcd"),
        Sum::Numbers(_, _) => panic!("expected a string"),
    }
    let e = plus_operands(&plus, &s("ab"), &Value::Number(1.0)).err().unwrap();
    assert_eq!(e.message, "Operands must be two numbers or two strings");
}
