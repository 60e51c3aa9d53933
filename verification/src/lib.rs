//! A small front end for integer arithmetic expressions: a lexer that turns a
//! character stream into classified tokens, and a recursive-descent
//! parser/evaluator that reduces the token sequence to a signed 32-bit value
//! under the usual operator precedence, or reports a typed parse error.

pub mod common;
pub mod lexer;
pub mod parser;
pub mod token;
