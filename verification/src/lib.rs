//! Interpreter for a small Spanish-keyword pseudocode teaching language:
//! typed variable declarations, assignment, console write/read, expressions
//! with operator precedence, and single-branch conditional blocks.

pub mod ast;
pub mod error;
pub mod interpreter;
pub mod lexer;
pub mod memory;
pub mod num;
pub mod parser;
pub mod run;
pub mod tokens;
pub mod utils;

pub use error::{CodeError, PossibleErrors};
