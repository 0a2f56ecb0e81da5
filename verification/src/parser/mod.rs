//! The parser: from a token stream to values in the heap.

pub mod grammar;
pub mod number;
pub mod parser;

pub use self::parser::Parser;
