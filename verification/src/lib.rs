//! A small Scheme implementation: lexer, token stream, parser, symbol table,
//! values, their external representation, and a mark-and-sweep
//! garbage-collected heap, with their contracts proved by Verus.

pub mod error;
pub mod lexer;
pub mod gc;
pub mod value;
pub mod symbol;
pub mod object;
pub mod parser;
pub mod store;
pub mod display;
pub mod expr;
pub mod reader;
pub mod environment;
pub mod vm;
pub mod natives;
