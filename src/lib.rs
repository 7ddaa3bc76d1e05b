//! A front-end and evaluator for a small dynamically typed scripting language:
//! a scanner that turns source text into tokens, a recursive-descent parser
//! that turns tokens into statements, and a tree-walking evaluator over a
//! stack of scopes. Each is stated over a mathematical model and proved; the
//! evaluator is generic over the host's number type, whose numerals and
//! arithmetic the host supplies.

pub mod ast;
pub mod environment;
pub mod error_reporter;
pub mod parser;
pub mod tokens;
pub mod scanner;
pub mod values;
pub mod interpreter;
