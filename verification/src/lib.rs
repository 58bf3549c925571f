//! A small Lisp: a reader that turns text into values, an evaluator that
//! applies native functions looked up in an environment, and a printer that
//! renders values back to text.
//!
//! Every executable function carries a contract over the mathematical model
//! of the values it handles: text is a `Seq<char>`, a value is a [`types::Val`].

pub mod text;
pub mod types;
pub mod number;
pub mod printer;
pub mod lexer;
pub mod reader;
pub mod env;
pub mod eval;
pub mod round_trip;
