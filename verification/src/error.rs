//! Parse errors.

use vstd::prelude::*;
use vstd::string::StringExecFns;

use crate::lexer::token::Token;
use crate::lexer::token_stream::{kind_name, kind_name_spec};

verus! {

/// An error while reading tokens.
#[derive(Debug)]
pub enum Error {
    /// A token that the grammar does not allow here, with an explanation.
    UnexpectedToken(Token, String),
    /// The source ended where more was expected.
    UnexpectedEOF,
}

/// How an error is written.
pub open spec fn error_text(e: Error) -> Seq<char> {
    match e {
        Error::UnexpectedToken(token, message) => "Unexpected token: "@ + kind_name_spec(token.kind)
            + ", message: "@ + message@,
        Error::UnexpectedEOF => "Unexpected end of input"@,
    }
}

impl Error {
    /// The error as it is written for a user.
    pub fn to_string(&self) -> (text: String)
        ensures
            text@ == error_text(*self),
    {
        match self {
            Error::UnexpectedToken(token, message) => {
                let mut text = String::from_str("Unexpected token: ");
                text.append(kind_name(token.kind));
                text.append(", message: ");
                text.append(message.as_str());
                text
            },
            Error::UnexpectedEOF => String::from_str("Unexpected end of input"),
        }
    }
}

} // verus!
