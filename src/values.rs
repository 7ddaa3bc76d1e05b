use crate::error_reporter::RuntimeError;
use crate::tokens::{Token, TokenType};
use vstd::prelude::*;
use vstd::string::StringExecFns;

verus! {

/// A runtime value. `N` is the machine number type that the evaluator
/// computes with; this module never computes with it, it only tells numbers
/// from other values.
#[derive(Debug, Clone, PartialEq)]
pub enum Value<N> {
    String(String),
    Number(N),
    Boolean(bool),
    Nil,
}

/// Mathematical model of a runtime value.
pub enum ValueView<N> {
    String(Seq<char>),
    Number(N),
    Boolean(bool),
    Nil,
}

impl<N> View for Value<N> {
    type V = ValueView<N>;

    open spec fn view(&self) -> ValueView<N> {
        match self {
            Value::String(s) => ValueView::String(s@),
            Value::Number(n) => ValueView::Number(*n),
            Value::Boolean(b) => ValueView::Boolean(*b),
            Value::Nil => ValueView::Nil,
        }
    }
}

impl<N: Copy> Value<N> {
    /// A copy of the value.
    pub fn duplicate(&self) -> (r: Value<N>)
        ensures
            r@ == self@,
    {
        match self {
            Value::String(s) => Value::String(s.clone()),
            Value::Number(n) => Value::Number(*n),
            Value::Boolean(b) => Value::Boolean(*b),
            Value::Nil => Value::Nil,
        }
    }
}

/// `nil` and `false` are falsy; every other value is truthy.
pub open spec fn truthy<N>(v: ValueView<N>) -> bool {
    match v {
        ValueView::Nil => false,
        ValueView::Boolean(b) => b,
        _ => true,
    }
}

/// Equality of two values that are not both numbers: same kind and same
/// contents; values of different kinds are never equal.
pub open spec fn equal_values<N>(a: ValueView<N>, b: ValueView<N>) -> bool {
    match (a, b) {
        (ValueView::String(x), ValueView::String(y)) => x == y,
        (ValueView::Boolean(x), ValueView::Boolean(y)) => x == y,
        (ValueView::Nil, ValueView::Nil) => true,
        _ => false,
    }
}

/// Whether a logical operator returns its left operand without evaluating
/// its right one: `or` on a truthy left, `and` on a falsy left.
pub open spec fn skips_right<N>(op: TokenType, left: ValueView<N>) -> bool {
    if op == TokenType::Or {
        truthy(left)
    } else {
        !truthy(left)
    }
}

/// The two operands of `+`: two numbers to add, or the concatenation of two strings.
pub enum Sum<N> {
    Numbers(N, N),
    Concatenation(String),
}

pub fn is_truthy<N>(v: &Value<N>) -> (r: bool)
    ensures
        r == truthy(v@),
{
    match v {
        Value::Nil => false,
        Value::Boolean(b) => *b,
        _ => true,
    }
}

/// Equality of two values, where it does not rest on comparing two numbers;
/// `None` where both are numbers, which the caller compares.
pub fn values_equal<N>(a: &Value<N>, b: &Value<N>) -> (r: Option<bool>)
    ensures
        (a is Number && b is Number) ==> r is None,
        !(a is Number && b is Number) ==> r == Some(equal_values(a@, b@)),
{
    match (a, b) {
        (Value::Number(_), Value::Number(_)) => None,
        (Value::String(x), Value::String(y)) => Some(*x == *y),
        (Value::Boolean(x), Value::Boolean(y)) => Some(*x == *y),
        (Value::Nil, Value::Nil) => Some(true),
        _ => Some(false),
    }
}

/// Whether the logical operator `op` is decided by its left operand alone.
pub fn short_circuits<N>(op: TokenType, left: &Value<N>) -> (r: bool)
    ensures
        r == skips_right(op, left@),
{
    if op == TokenType::Or {
        is_truthy(left)
    } else {
        !is_truthy(left)
    }
}

/// The number operand of unary `-`; an error at the operator otherwise.
pub fn check_number_operand<N: Copy>(operator: &Token, operand: &Value<N>) -> (r: Result<
    N,
    RuntimeError,
>)
    ensures
        match *operand {
            Value::Number(n) => r == Ok::<N, RuntimeError>(n),
            _ => r matches Err(e) && e.token == *operator && e.message@
                == "Operand must be a number"@,
        },
{
    match operand {
        Value::Number(n) => Ok(*n),
        _ => Err(RuntimeError { message: "Operand must be a number".to_owned(), token: operator.duplicate() }),
    }
}

/// The number operands of `-`, `*`, `/` and the comparisons; an error at the
/// operator unless both are numbers.
pub fn check_number_operands<N: Copy>(op: &Token, left: &Value<N>, right: &Value<N>) -> (r: Result<
    (N, N),
    RuntimeError,
>)
    ensures
        match (*left, *right) {
            (Value::Number(a), Value::Number(b)) => r == Ok::<(N, N), RuntimeError>((a, b)),
            _ => r matches Err(e) && e.token == *op && e.message@ == "Operands must be two numbers"@,
        },
{
    match (left, right) {
        (Value::Number(a), Value::Number(b)) => Ok((*a, *b)),
        _ => Err(
            RuntimeError { message: "Operands must be two numbers".to_owned(), token: op.duplicate() },
        ),
    }
}

/// The operands of `+`: two numbers, or two strings, which are concatenated;
/// an error at the operator for any other pair.
pub fn plus_operands<N: Copy>(op: &Token, left: &Value<N>, right: &Value<N>) -> (r: Result<
    Sum<N>,
    RuntimeError,
>)
    ensures
        match (*left, *right) {
            (Value::Number(a), Value::Number(b)) => r matches Ok(Sum::Numbers(x, y)) && x == a
                && y == b,
            (Value::String(a), Value::String(b)) => r matches Ok(Sum::Concatenation(s)) && s@
                == a@ + b@,
            _ => r matches Err(e) && e.token == *op && e.message@
                == "Operands must be two numbers or two strings"@,
        },
{
    match (left, right) {
        (Value::Number(a), Value::Number(b)) => Ok(Sum::Numbers(*a, *b)),
        (Value::String(a), Value::String(b)) => Ok(Sum::Concatenation(a.clone().concat(b.as_str()))),
        _ => Err(
            RuntimeError {
                message: "Operands must be two numbers or two strings".to_owned(),
                token: op.duplicate(),
            },
        ),
    }
}

} // verus!
