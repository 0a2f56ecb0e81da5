//! Lexical analysis.

pub mod cursor;
pub mod lexer;
pub mod rules;
pub mod span;
pub mod token;
pub mod token_stream;
pub mod utf8;

pub use self::cursor::Cursor;
pub use self::span::Span;
pub use self::token::{Token, TokenKind};
pub use self::lexer::{Lexer, LexerIter};
pub use self::token_stream::TokenStream;
