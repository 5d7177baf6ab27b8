//! Reader for the Church notation: a small Lisp-like surface syntax of
//! booleans, 16-bit numbers, comma-separated literal lists and function
//! applications whose arguments are evaluated while they are read.

pub mod laws;
pub mod parser;
pub mod syntax;
mod text;
pub mod value;

pub use parser::read_expr;
pub use value::{ChurchParseError, ChurchValue};
