//! An arithmetic and logic expression language with C-like precedence.
//!
//! A line of text is parsed into an [`Expression`], and an expression is
//! evaluated to one number. Numbers are IEEE-754 binary64 values, held here as
//! their bit patterns in a `u64`: the library decides everything that can be
//! decided on the bits (signs, truth, comparisons) and asks its caller for the
//! arithmetic itself, one [`Operation`] at a time.
//!
//! - [`lexer`] splits a line into tokens, and [`parser`] holds the grammar
//!   and [`parse`].
//! - [`notation`] and [`spelling`] write an expression back as words and as
//!   a line, and prove that the grammar reads it as it was written.
//! - [`eval`] evaluates an expression against a log of answers, [`function`]
//!   is the table of built-in functions, and [`value`] is what the library
//!   knows of numbers.
//! - [`ast`] is the tree, and [`text`] a few helpers on text.
pub mod ast;
pub mod eval;
pub mod function;
pub mod lexer;
pub mod notation;
pub mod parser;
pub mod spelling;
pub mod text;
pub mod value;

pub use crate::ast::{Ast, Expression, Operator};
pub use crate::eval::{EvalError, Halt, Operation};
pub use crate::function::MathFunction;
pub use crate::lexer::{tokenize, Token, TokenKind};
pub use crate::parser::{parse, parse_at, parse_bytes, Expected, Level, SyntaxError};
