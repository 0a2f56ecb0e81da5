//! A token stream that can look at the next token without consuming it.

use vstd::prelude::*;
use vstd::string::StringExecFns;

use crate::error::Error;
use crate::lexer::lexer::{scan_token, Lexer};
use crate::lexer::token::{Token, TokenKind};
use crate::lexer::utf8::byte_offset;

verus! {

/// The model of a token: its kind and its byte span.
pub type TokenModel = (TokenKind, (int, int));

/// The model of a token.
pub open spec fn token_model(t: Token) -> TokenModel {
    (t.kind, t.span@)
}

/// The model of a token stream: the lexer's text and position, and the
/// token peeked but not yet taken, if any.
pub struct StreamView {
    pub text: Seq<char>,
    pub cur: int,
    pub peeked: Option<TokenModel>,
}

/// The pending token of a stream that has one.
pub open spec fn peeked_token(v: StreamView) -> TokenModel {
    match v.peeked {
        Some(t) => t,
        None => (TokenKind::EOF, (0, 0)),
    }
}

/// The token the lexer produces at `cur`.
pub open spec fn lexed(text: Seq<char>, cur: int) -> TokenModel {
    let (kind, start, end) = scan_token(text, cur);
    (kind, (byte_offset(text, start) as int, byte_offset(text, end) as int))
}

/// Taking the next token: the pending one if there is one, else a fresh one
/// from the lexer.
pub open spec fn stream_next(v: StreamView) -> (TokenModel, StreamView) {
    match v.peeked {
        Some(t) => (t, StreamView { peeked: None, ..v }),
        None => (lexed(v.text, v.cur), StreamView { cur: scan_token(v.text, v.cur).2, ..v }),
    }
}

/// Peeking: lex a token into the pending slot unless one is pending.
pub open spec fn stream_peek(v: StreamView) -> StreamView {
    match v.peeked {
        Some(_) => v,
        None => StreamView {
            peeked: Some(lexed(v.text, v.cur)),
            cur: scan_token(v.text, v.cur).2,
            ..v
        },
    }
}

/// The name of a token kind, as it is printed.
pub open spec fn kind_name_spec(kind: TokenKind) -> Seq<char> {
    match kind {
        TokenKind::LeftParen => "LeftParen"@,
        TokenKind::RightParen => "RightParen"@,
        TokenKind::QuoteMark => "QuoteMark"@,
        TokenKind::Atom => "Atom"@,
        TokenKind::Number => "Number"@,
        TokenKind::EOF => "EOF"@,
    }
}

/// The name of a token kind, as it is printed.
pub fn kind_name(kind: TokenKind) -> (name: &'static str)
    ensures
        name@ == kind_name_spec(kind),
{
    match kind {
        TokenKind::LeftParen => "LeftParen",
        TokenKind::RightParen => "RightParen",
        TokenKind::QuoteMark => "QuoteMark",
        TokenKind::Atom => "Atom",
        TokenKind::Number => "Number",
        TokenKind::EOF => "EOF",
    }
}

/// A token stream over a lexer.
pub struct TokenStream<'a> {
    lexer: Lexer<'a>,
    peeked: Option<Token>,
}

impl<'a> View for TokenStream<'a> {
    type V = StreamView;

    closed spec fn view(&self) -> StreamView {
        StreamView {
            text: self.lexer@.text,
            cur: self.lexer@.cur,
            peeked: match self.peeked {
                Some(t) => Some(token_model(t)),
                None => None,
            },
        }
    }
}

impl<'a> TokenStream<'a> {
    /// The stream's lexer is well formed, and a pending token is one that
    /// the lexer produced from the stream's text.
    pub closed spec fn wf(&self) -> bool {
        &&& self.lexer.wf()
        &&& self.peeked matches Some(t) ==> exists|c: int|
            0 <= c <= self.lexer@.text.len() && token_model(t) == #[trigger] lexed(
                self.lexer@.text,
                c,
            )
    }

    /// What a well-formed stream knows of its position, its source and its
    /// pending token.
    pub proof fn lemma_wf(&self)
        requires
            self.wf(),
        ensures
            0 <= self@.cur <= self@.text.len(),
            self.source_text()@ == self@.text,
            byte_offset(self@.text, self@.text.len() as int) <= usize::MAX,
            self@.peeked matches Some(t) ==> exists|c: int|
                0 <= c <= self@.text.len() && t == #[trigger] lexed(self@.text, c),
    {
        self.lexer.lemma_wf();
    }

    /// The source text.
    pub closed spec fn source_text(&self) -> &'a str {
        self.lexer.source_text()
    }

    /// A stream over `lexer`, with no token pending.
    pub fn new(lexer: Lexer<'a>) -> (stream: Self)
        requires
            lexer.wf(),
        ensures
            stream.wf(),
            stream.source_text() == lexer.source_text(),
            stream@ == (StreamView { text: lexer@.text, cur: lexer@.cur, peeked: None }),
    {
        TokenStream { lexer, peeked: None }
    }

    /// The source text.
    pub fn source(&self) -> (source: &'a str)
        ensures
            source == self.source_text(),
    {
        self.lexer.source()
    }

    /// Whether no token other than an end-of-file token is pending and the
    /// lexer has read the whole source.
    pub fn at_end(&self) -> (b: bool)
        requires
            self.wf(),
        ensures
            b == ((self@.peeked is None || peeked_token(self@).0 == TokenKind::EOF) && self@.cur
                == self@.text.len()),
    {
        let quiet = match &self.peeked {
            Some(t) => t.kind == TokenKind::EOF,
            None => true,
        };
        quiet && self.lexer.at_end()
    }

    /// Take the next token (see [`stream_next`]).
    pub fn next_token(&mut self) -> (token: Token)
        requires
            old(self).wf(),
        ensures
            final(self).wf(),
            final(self).source_text() == old(self).source_text(),
            (token_model(token), final(self)@) == stream_next(old(self)@),
    {
        match self.peeked.take() {
            Some(token) => token,
            None => self.lexer.next_token(),
        }
    }

    /// The next token, without taking it (see [`stream_peek`]).
    pub fn peek(&mut self) -> (token: &Token)
        requires
            old(self).wf(),
        ensures
            final(self).wf(),
            final(self).source_text() == old(self).source_text(),
            final(self)@ == stream_peek(old(self)@),
            stream_peek(old(self)@).peeked == Some(token_model(*token)),
    {
        if self.peeked.is_none() {
            let ghost text = self.lexer@.text;
            let ghost cur = self.lexer@.cur;
            proof {
                self.lexer.lemma_wf();
            }
            let token = self.lexer.next_token();
            self.peeked = Some(token);
            proof {
                assert(self.lexer@.text == text);
                assert(token_model(token) == lexed(self.lexer@.text, cur));
            }
        }
        self.peeked.as_ref().unwrap()
    }

    /// The kind of the next token, without taking it.
    pub fn peek_kind(&mut self) -> (kind: TokenKind)
        requires
            old(self).wf(),
        ensures
            final(self).wf(),
            final(self).source_text() == old(self).source_text(),
            final(self)@ == stream_peek(old(self)@),
            kind == peeked_token(stream_peek(old(self)@)).0,
    {
        self.peek().kind
    }

    /// Take the next token, which must be of kind `expected_kind`.
    pub fn consume(&mut self, expected_kind: TokenKind) -> (res: Result<Token, Error>)
        requires
            old(self).wf(),
        ensures
            final(self).wf(),
            final(self).source_text() == old(self).source_text(),
            final(self)@ == stream_next(old(self)@).1,
            match res {
                Ok(token) => token_model(token) == stream_next(old(self)@).0 && token.kind
                    == expected_kind,
                Err(Error::UnexpectedToken(token, message)) => token_model(token) == stream_next(
                    old(self)@,
                ).0 && token.kind != expected_kind && message@ == "expected token kind "@
                    + kind_name_spec(expected_kind),
                Err(Error::UnexpectedEOF) => false,
            },
    {
        let token = self.next_token();
        if token.kind == expected_kind {
            Ok(token)
        } else {
            let mut message = String::from_str("expected token kind ");
            message.append(kind_name(expected_kind));
            Err(Error::UnexpectedToken(token, message))
        }
    }
}

/// Peeking twice is peeking once.
pub proof fn lemma_peek_idempotent(v: StreamView)
    ensures
        stream_peek(stream_peek(v)) == stream_peek(v),
{
}

/// Peeking does not consume: the next token taken after a peek is the
/// peeked token.
pub proof fn lemma_peek_then_next(v: StreamView)
    ensures
        stream_peek(v).peeked is Some,
        stream_next(stream_peek(v)).0 == peeked_token(stream_peek(v)),
{
}

/// With a token pending, taking the next token gives it and leaves the
/// lexer where it was.
pub proof fn lemma_next_takes_pending(v: StreamView)
    requires
        v.peeked is Some,
    ensures
        stream_next(v).0 == peeked_token(v),
        stream_next(v).1.cur == v.cur,
        stream_next(v).1.peeked is None,
{
}

} // verus!
