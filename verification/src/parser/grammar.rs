//! What the parser reads: the grammar over the token stream, as spec
//! functions that follow the stream token by token.

use vstd::prelude::*;

use crate::lexer::lexer::{lemma_scan_token_bounds, scan_token};
use crate::lexer::token::{span_covers, TokenKind};
use crate::lexer::token_stream::{peeked_token, stream_next, stream_peek, StreamView, TokenModel};
use crate::object::Datum;

verus! {

/// Why parsing stopped.
pub enum ParseFailure {
    /// A token that may not stand there, with the message given for it.
    UnexpectedToken(TokenModel, Seq<char>),
    /// The source ended where an expression was expected.
    UnexpectedEOF,
}

/// The result of parsing from a stream: the tree read or the failure, and
/// the stream afterwards; or `Unfinished` where the parser reaches a form it
/// has no rule for yet (a quoted form or an atom), on which it stops the
/// program.
pub enum Parsed {
    Done(Result<Datum, ParseFailure>, StreamView),
    Unfinished,
}

/// The stream's lexer stands within its text.
pub open spec fn stream_valid(v: StreamView) -> bool {
    0 <= v.cur <= v.text.len()
}

/// Twice the characters left to read, plus one for a pending token: it
/// drops with every token taken.
pub open spec fn stream_measure(v: StreamView) -> int {
    2 * (v.text.len() - v.cur) + match v.peeked {
        Some(t) => if t.0 != TokenKind::EOF {
            1int
        } else {
            0int
        },
        None => 0int,
    }
}

/// The characters of `text` whose bytes a span covers.
pub open spec fn span_text(text: Seq<char>, span: (int, int)) -> Seq<char> {
    let (i, j) = choose|i: int, j: int| span_covers(span, text, i, j);
    text.subrange(i, j)
}

/// A decimal digit.
pub open spec fn is_digit(c: char) -> bool {
    '0' <= c <= '9'
}

/// The value of a string of decimal digits.
pub open spec fn decimal_value(s: Seq<char>) -> int
    decreases s.len(),
{
    if s.len() == 0 {
        0
    } else {
        decimal_value(s.drop_last()) * 10 + (s.last() as int - '0' as int)
    }
}

/// The digits after an optional sign.
pub open spec fn unsigned_part(s: Seq<char>) -> Seq<char> {
    if s.len() > 0 && (s[0] == '-' || s[0] == '+') {
        s.skip(1)
    } else {
        s
    }
}

/// A decimal integer in `i64`: an optional `+` or `-`, then one or more
/// digits, of a value within range. This is what `str::parse::<i64>`
/// accepts.
pub open spec fn i64_of_str(s: Seq<char>) -> Option<i64> {
    let digits = unsigned_part(s);
    let value = if s.len() > 0 && s[0] == '-' {
        -decimal_value(digits)
    } else {
        decimal_value(digits)
    };
    if digits.len() > 0 && (forall|k: int| 0 <= k < digits.len() ==> is_digit(#[trigger] digits[k]))
        && i64::MIN <= value <= i64::MAX {
        Some(value as i64)
    } else {
        None
    }
}

/// Peeking never raises the measure.
pub proof fn lemma_peek_measure(v: StreamView)
    requires
        stream_valid(v),
    ensures
        stream_valid(stream_peek(v)),
        stream_measure(stream_peek(v)) <= stream_measure(v),
        stream_peek(v).text == v.text,
{
    lemma_scan_token_bounds(v.text, v.cur);
    if v.cur >= v.text.len() {
        lemma_scan_eof(v.text, v.cur);
    }
}

/// Taking a token other than an end-of-file token lowers the measure.
pub proof fn lemma_next_measure(v: StreamView)
    requires
        stream_valid(v),
    ensures
        stream_valid(stream_next(v).1),
        stream_next(v).1.text == v.text,
        stream_measure(stream_next(v).1) <= stream_measure(v),
        stream_next(v).0.0 != TokenKind::EOF ==> stream_measure(stream_next(v).1) < stream_measure(
            v,
        ),
{
    lemma_scan_token_bounds(v.text, v.cur);
    if v.cur >= v.text.len() {
        lemma_scan_eof(v.text, v.cur);
    }
}

/// At the end of the text the lexer gives an end-of-file token.
pub proof fn lemma_scan_eof(text: Seq<char>, cur: int)
    requires
        cur >= text.len(),
    ensures
        scan_token(text, cur).0 == TokenKind::EOF,
{
}

/// Parse a number token into the integer it spells.
pub open spec fn parse_number_spec(v: StreamView) -> Parsed {
    let (t, v2) = stream_next(v);
    if t.0 != TokenKind::Number {
        Parsed::Done(
            Err(ParseFailure::UnexpectedToken(t, "expected token kind "@ + "Number"@)),
            v2,
        )
    } else {
        match i64_of_str(span_text(v.text, t.1)) {
            Some(n) => Parsed::Done(Ok(Datum::Int(n)), v2),
            None => Parsed::Done(
                Err(ParseFailure::UnexpectedToken(t, "invalid number literal"@)),
                v2,
            ),
        }
    }
}

/// Parse an expression: a procedure call, a number, or a failure, after
/// peeking at the next token.
pub open spec fn parse_expr_spec(v: StreamView) -> Parsed
    decreases stream_measure(v), 2int,
{
    if !stream_valid(v) {
        Parsed::Unfinished
    } else {
        let v1 = stream_peek(v);
        proof {
            lemma_peek_measure(v);
        }
        match peeked_token(v1).0 {
            TokenKind::LeftParen => parse_call_spec(v1),
            TokenKind::QuoteMark => Parsed::Unfinished,
            TokenKind::Atom => Parsed::Unfinished,
            TokenKind::Number => parse_number_spec(v1),
            TokenKind::RightParen => Parsed::Done(
                Err(ParseFailure::UnexpectedToken(peeked_token(v1), "expected expression"@)),
                v1,
            ),
            TokenKind::EOF => Parsed::Done(Err(ParseFailure::UnexpectedEOF), v1),
        }
    }
}

/// Parse `(` operator operand* `)` into the pair of the operator and the
/// list of the operands.
pub open spec fn parse_call_spec(v: StreamView) -> Parsed
    decreases stream_measure(v), 1int,
{
    if !stream_valid(v) {
        Parsed::Unfinished
    } else {
        let (t, v2) = stream_next(v);
        proof {
            lemma_next_measure(v);
        }
        if t.0 != TokenKind::LeftParen {
            Parsed::Done(
                Err(ParseFailure::UnexpectedToken(t, "expected token kind "@ + "LeftParen"@)),
                v2,
            )
        } else {
            match parse_expr_spec(v2) {
                Parsed::Done(Ok(operator), v3) => if stream_valid(v3) && stream_measure(v3)
                    < stream_measure(v) {
                    match parse_args_spec(v3) {
                        Parsed::Done(Ok(operands), v4) => Parsed::Done(
                            Ok(Datum::Pair(Box::new(operator), Box::new(operands))),
                            v4,
                        ),
                        other => other,
                    }
                } else {
                    Parsed::Unfinished
                },
                other => other,
            }
        }
    }
}

/// Parse operand* `)` into a list.
pub open spec fn parse_args_spec(v: StreamView) -> Parsed
    decreases stream_measure(v), 3int,
{
    if !stream_valid(v) {
        Parsed::Unfinished
    } else {
        let v1 = stream_peek(v);
        proof {
            lemma_peek_measure(v);
        }
        if peeked_token(v1).0 == TokenKind::RightParen {
            let (t, v2) = stream_next(v1);
            if t.0 == TokenKind::RightParen {
                Parsed::Done(Ok(Datum::Nil), v2)
            } else {
                Parsed::Done(
                    Err(ParseFailure::UnexpectedToken(t, "expected token kind "@ + "RightParen"@)),
                    v2,
                )
            }
        } else {
            match parse_expr_spec(v1) {
                Parsed::Done(Ok(car), v3) => if stream_valid(v3) && stream_measure(v3)
                    < stream_measure(v) {
                    match parse_args_spec(v3) {
                        Parsed::Done(Ok(cdr), v4) => Parsed::Done(
                            Ok(Datum::Pair(Box::new(car), Box::new(cdr))),
                            v4,
                        ),
                        other => other,
                    }
                } else {
                    Parsed::Unfinished
                },
                other => other,
            }
        }
    }
}

/// The stream after a parse stays valid with the same text and a measure
/// no higher, lower when the parse succeeded.
pub open spec fn progressed(v: StreamView, p: Parsed) -> bool {
    match p {
        Parsed::Done(r, v2) => {
            &&& stream_valid(v2)
            &&& v2.text == v.text
            &&& stream_measure(v2) <= stream_measure(v)
            &&& r is Ok ==> stream_measure(v2) < stream_measure(v)
        },
        Parsed::Unfinished => true,
    }
}

/// Parsing a number takes a token.
pub proof fn lemma_number_progress(v: StreamView)
    requires
        stream_valid(v),
    ensures
        progressed(v, parse_number_spec(v)),
{
    lemma_next_measure(v);
}

/// Parsing an expression makes progress.
pub proof fn lemma_expr_progress(v: StreamView)
    requires
        stream_valid(v),
    ensures
        progressed(v, parse_expr_spec(v)),
    decreases stream_measure(v), 2int,
{
    let v1 = stream_peek(v);
    lemma_peek_measure(v);
    match peeked_token(v1).0 {
        TokenKind::LeftParen => lemma_call_progress(v1),
        TokenKind::Number => lemma_number_progress(v1),
        _ => {},
    }
}

/// Parsing a call makes progress.
pub proof fn lemma_call_progress(v: StreamView)
    requires
        stream_valid(v),
    ensures
        progressed(v, parse_call_spec(v)),
    decreases stream_measure(v), 1int,
{
    let (t, v2) = stream_next(v);
    lemma_next_measure(v);
    if t.0 == TokenKind::LeftParen {
        lemma_expr_progress(v2);
        match parse_expr_spec(v2) {
            Parsed::Done(Ok(operator), v3) => {
                lemma_args_progress(v3);
            },
            _ => {},
        }
    }
}

/// Parsing operands makes progress.
pub proof fn lemma_args_progress(v: StreamView)
    requires
        stream_valid(v),
    ensures
        progressed(v, parse_args_spec(v)),
    decreases stream_measure(v), 3int,
{
    let v1 = stream_peek(v);
    lemma_peek_measure(v);
    if peeked_token(v1).0 == TokenKind::RightParen {
        lemma_next_measure(v1);
    } else {
        lemma_expr_progress(v1);
        match parse_expr_spec(v1) {
            Parsed::Done(Ok(car), v3) => {
                lemma_args_progress(v3);
            },
            _ => {},
        }
    }
}

} // verus!
