//! A parser for a small regular-expression dialect.
//!
//! A pattern is a sequence of characters in which `.` stands for any
//! character, `|` separates alternatives, and `(` `)` delimit a group; every
//! other character stands for itself. [`parse`] turns a pattern into an
//! [`Expr`] tree or reports which of the two syntax errors it ran into.
//!
//! What the parser returns is defined by the spec functions of [`grammar`];
//! every executable function is proved against them.

pub mod cursor;
pub mod expr;
pub mod grammar;
pub mod laws;
pub mod parser;

pub use expr::{Expr, Greedy, MAX_CHAR};
pub use grammar::ParseError;
pub use cursor::uncons;
pub use parser::{coalesce, concatenate, parse, parse_loop, parse_main};
