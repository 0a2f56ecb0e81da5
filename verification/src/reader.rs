//! Reading source text into syntax trees: nested lists kept as vectors, or
//! lists built from pairs, with atoms read from their text.
//!
//! Numbers are kept as the text of their literal; turning that text into a
//! floating-point value is left to the caller.

use vstd::prelude::*;
use vstd::string::StrSliceExecFns;

use crate::lexer::lexer::{lemma_scan_token_bounds, scan_token, Lexer};
use crate::lexer::token::{span_covers, Token, TokenKind};
use crate::lexer::token_stream::{
    lemma_peek_then_next, lexed, peeked_token, token_model, stream_next, stream_peek, StreamView, TokenModel, TokenStream,
};
use crate::parser::grammar::{
    is_digit, lemma_next_measure, lemma_peek_measure, span_text, stream_measure, stream_valid,
};
use crate::parser::parser::initial_stream;

verus! {

/// A syntax tree read from source text.
pub enum Syntax {
    /// The empty list.
    Nil,
    /// The value of `#void`.
    Void,
    /// `#t` or `#f`.
    Bool(bool),
    /// A number literal, as written.
    Number(String),
    /// An identifier.
    Ident(String),
    /// A quoted expression: `'x`.
    Quote(Box<Syntax>),
    /// A list, with its elements in order.
    List(Vec<Syntax>),
    /// A pair: its car and its cdr.
    Pair(Box<Syntax>, Box<Syntax>),
    /// The expressions of a program, in order.
    Sequence(Vec<Syntax>),
}

/// The model of a syntax tree: texts as character sequences, vectors as
/// sequences.
pub enum SyntaxModel {
    Nil,
    Void,
    Bool(bool),
    Number(Seq<char>),
    Ident(Seq<char>),
    Quote(Box<SyntaxModel>),
    List(Seq<SyntaxModel>),
    Pair(Box<SyntaxModel>, Box<SyntaxModel>),
    Sequence(Seq<SyntaxModel>),
}

/// The models of the trees of `items`, in order.
pub open spec fn models(items: Vec<Syntax>) -> Seq<SyntaxModel>
    decreases items, 0int,
{
    Seq::new(
        items.len() as nat,
        |i: int|
            if 0 <= i < items.len() {
                proof {
                    vstd::std_specs::vec::axiom_vec_index_decreases(items, i);
                }
                model(items[i])
            } else {
                SyntaxModel::Nil
            },
    )
}

/// The model of a syntax tree.
pub open spec fn model(s: Syntax) -> SyntaxModel
    decreases s, 1int,
{
    match s {
        Syntax::Nil => SyntaxModel::Nil,
        Syntax::Void => SyntaxModel::Void,
        Syntax::Bool(b) => SyntaxModel::Bool(b),
        Syntax::Number(text) => SyntaxModel::Number(text@),
        Syntax::Ident(text) => SyntaxModel::Ident(text@),
        Syntax::Quote(inner) => SyntaxModel::Quote(Box::new(model(*inner))),
        Syntax::List(items) => SyntaxModel::List(models(items)),
        Syntax::Pair(car, cdr) => SyntaxModel::Pair(Box::new(model(*car)), Box::new(model(*cdr))),
        Syntax::Sequence(items) => SyntaxModel::Sequence(models(items)),
    }
}

/// Why reading stopped.
#[derive(Debug, Clone, Copy, PartialEq, Eq, Structural)]
pub enum ReadError {
    /// The source ended where an expression or a `)` was expected.
    UnexpectedEndOfFile,
    /// A `)` where an expression was expected.
    UnexpectedRightParen,
    /// An atom starting with `#` that is neither a boolean nor `#void`; its
    /// first character.
    UnknownAtom(char),
    /// An atom starting with a character that starts no atom.
    UnexpectedCharacter(char),
    /// An atom with no text.
    ExpectedAtom,
    /// An atom starting with a digit that is not a floating-point literal.
    InvalidNumber,
}

/// The model of a result of reading.
pub open spec fn result_model(r: Result<Syntax, ReadError>) -> Result<SyntaxModel, ReadError> {
    match r {
        Ok(s) => Ok(model(s)),
        Err(e) => Err(e),
    }
}

/// A binary or hexadecimal literal (`#b…`, `#x…`): atoms whose reading is
/// not written yet.
pub open spec fn atom_unfinished(text: Seq<char>) -> bool {
    text.len() >= 2 && text[0] == '#' && (text[1] == 'b' || text[1] == 'x')
}

/// A character that starts an identifier.
pub open spec fn starts_identifier(c: char) -> bool {
    c == '+' || c == '-' || c == '*' || c == '=' || c == '<' || c == '>' || ('a' <= c <= 'z')
}

/// What the atom written `text` reads as: a number when it starts with a
/// digit and is a floating-point literal, else an error; `#t`, `#f` or `#void` after a `#`; an identifier when it starts
/// with an operator character or a lower-case letter; an error otherwise.
pub open spec fn atom_spec(text: Seq<char>) -> Result<SyntaxModel, ReadError> {
    if text.len() == 0 {
        Err(ReadError::ExpectedAtom)
    } else {
        let ch = text[0];
        let rest = text.subrange(1, text.len() as int);
        if '0' <= ch <= '9' {
            if float_literal(text) {
                Ok(SyntaxModel::Number(text))
            } else {
                Err(ReadError::InvalidNumber)
            }
        } else if ch == '#' {
            if rest.len() > 0 && rest[0] == 't' {
                Ok(SyntaxModel::Bool(true))
            } else if rest.len() > 0 && rest[0] == 'f' {
                Ok(SyntaxModel::Bool(false))
            } else if rest == seq!['v', 'o', 'i', 'd'] {
                Ok(SyntaxModel::Void)
            } else {
                Err(ReadError::UnknownAtom(ch))
            }
        } else if starts_identifier(ch) {
            Ok(SyntaxModel::Ident(text))
        } else {
            Err(ReadError::UnexpectedCharacter(ch))
        }
    }
}

/// An atom whose first character is one of `+ - * = < >` or a lower-case
/// letter is an identifier, with its own text.
pub proof fn lemma_identifier_atoms(text: Seq<char>)
    requires
        text.len() > 0,
        text[0] == '+' || text[0] == '-' || text[0] == '*' || text[0] == '=' || text[0] == '<'
            || text[0] == '>' || ('a' <= text[0] && text[0] <= 'z'),
    ensures
        atom_spec(text) == Ok::<SyntaxModel, ReadError>(SyntaxModel::Ident(text)),
{
}

/// `#t…` and `#f…` are booleans and `#void` is void; any other atom after
/// `#` (but the binary and hexadecimal literals) is unknown.
pub proof fn lemma_hash_atoms(text: Seq<char>)
    requires
        text.len() > 0,
        text[0] == '#',
    ensures
        text.len() > 1 && text[1] == 't' ==> atom_spec(text) == Ok::<SyntaxModel, ReadError>(
            SyntaxModel::Bool(true),
        ),
        text.len() > 1 && text[1] == 'f' ==> atom_spec(text) == Ok::<SyntaxModel, ReadError>(
            SyntaxModel::Bool(false),
        ),
        text == seq!['#', 'v', 'o', 'i', 'd'] ==> atom_spec(text) == Ok::<SyntaxModel, ReadError>(
            SyntaxModel::Void,
        ),
        text.len() == 1 ==> atom_spec(text) == Err::<SyntaxModel, ReadError>(
            ReadError::UnknownAtom('#'),
        ),
{
    if text == seq!['#', 'v', 'o', 'i', 'd'] {
        assert(text.subrange(1, text.len() as int) =~= seq!['v', 'o', 'i', 'd']);
    }
    if text.len() == 1 {
        assert(text.subrange(1, 1).len() == 0);
    }
}

/// An atom starting with an upper-case letter, a digit-free punctuation
/// character other than those of identifiers, or a character past ASCII is
/// refused with that character.
pub proof fn lemma_unexpected_atoms(text: Seq<char>)
    requires
        text.len() > 0,
        ('A' <= text[0] && text[0] <= 'Z') || text[0] == '!' || text[0] == '?' || text[0] == '_'
            || text[0] == '/' || text[0] > '~',
    ensures
        atom_spec(text) == Err::<SyntaxModel, ReadError>(ReadError::UnexpectedCharacter(text[0])),
{
}

/// A run of digits from `k` to the end ends at the end.
proof fn lemma_all_digits_end(s: Seq<char>, k: int)
    requires
        0 <= k <= s.len(),
        forall|i: int| k <= i < s.len() ==> is_digit(#[trigger] s[i]),
    ensures
        digits_end(s, k) == s.len(),
    decreases s.len() - k,
{
    if k < s.len() {
        lemma_all_digits_end(s, k + 1);
    }
}

/// The characters from `k` up to `digits_end(s, k)` are digits.
proof fn lemma_digits_run(s: Seq<char>, k: int)
    requires
        0 <= k <= s.len(),
    ensures
        k <= digits_end(s, k) <= s.len(),
        forall|i: int| k <= i < digits_end(s, k) ==> is_digit(#[trigger] s[i]),
    decreases s.len() - k,
{
    if k < s.len() && is_digit(s[k]) {
        lemma_digits_run(s, k + 1);
    }
}

/// A character that may stand in a floating-point literal.
pub open spec fn float_char(c: char) -> bool {
    ('0' <= c && c <= '9') || c == '.' || c == 'e' || c == 'E' || c == '+' || c == '-'
}

/// An atom of digits alone is a number with its own text; an atom that
/// starts with a digit and holds a character that no floating-point literal
/// holds is an invalid number.
pub proof fn lemma_number_atoms(text: Seq<char>)
    requires
        text.len() > 0,
        '0' <= text[0] && text[0] <= '9',
    ensures
        (forall|i: int| 0 <= i < text.len() ==> '0' <= #[trigger] text[i] && text[i] <= '9')
            ==> atom_spec(text) == Ok::<SyntaxModel, ReadError>(SyntaxModel::Number(text)),
        (exists|i: int| 0 <= i < text.len() && !float_char(#[trigger] text[i])) ==> atom_spec(text)
            == Err::<SyntaxModel, ReadError>(ReadError::InvalidNumber),
{
    if forall|i: int| 0 <= i < text.len() ==> '0' <= #[trigger] text[i] && text[i] <= '9' {
        lemma_all_digits_end(text, 0);
    }
    if exists|i: int| 0 <= i < text.len() && !float_char(#[trigger] text[i]) {
        let bad = choose|i: int| 0 <= i < text.len() && !float_char(#[trigger] text[i]);
        if float_literal(text) {
            let s = text;
            lemma_digits_run(s, 0);
            let i = digits_end(s, 0);
            let j = if i < s.len() && s[i] == '.' {
                digits_end(s, i + 1)
            } else {
                i
            };
            if i < s.len() && s[i] == '.' {
                lemma_digits_run(s, i + 1);
            }
            if j < s.len() {
                let k = if j + 1 < s.len() && (s[j + 1] == '+' || s[j + 1] == '-') {
                    j + 2
                } else {
                    j + 1
                };
                lemma_digits_run(s, k);
            }
            assert(float_char(s[bad]));
        }
    }
}

/// Read the atom written `fragment` (see [`atom_spec`]). The token it came
/// from is not looked at.
pub fn parse_atom(token: Token, fragment: &str) -> (res: Result<Syntax, ReadError>)
    requires
        !atom_unfinished(fragment@),
    ensures
        result_model(res) == atom_spec(fragment@),
{
    let n = fragment.unicode_len();
    if n == 0 {
        return Err(ReadError::ExpectedAtom);
    }
    let ch = fragment.get_char(0);
    let ghost rest = fragment@.subrange(1, fragment@.len() as int);
    if '0' <= ch && ch <= '9' {
        parse_number(fragment)
    } else if ch == '#' {
        let second = if n >= 2 {
            Some(fragment.get_char(1))
        } else {
            None
        };
        proof {
            if n >= 2 {
                assert(rest[0] == fragment@[1]);
            }
        }
        match second {
            Some('t') => Ok(Syntax::Bool(true)),
            Some('f') => Ok(Syntax::Bool(false)),
            _ => {
                if n == 5 && fragment.get_char(1) == 'v' && fragment.get_char(2) == 'o'
                    && fragment.get_char(3) == 'i' && fragment.get_char(4) == 'd' {
                    assert(rest =~= seq!['v', 'o', 'i', 'd']);
                    Ok(Syntax::Void)
                } else {
                    proof {
                        if rest == seq!['v', 'o', 'i', 'd'] {
                            assert(rest[0] == fragment@[1]);
                            assert(rest[1] == fragment@[2]);
                            assert(rest[2] == fragment@[3]);
                            assert(rest[3] == fragment@[4]);
                        }
                    }
                    Err(ReadError::UnknownAtom(ch))
                }
            },
        }
    } else if ch == '+' || ch == '-' || ch == '*' || ch == '=' || ch == '<' || ch == '>' || ('a'
        <= ch && ch <= 'z') {
        parse_identifier(fragment)
    } else {
        Err(ReadError::UnexpectedCharacter(ch))
    }
}

/// The end of the run of decimal digits of `s` that starts at `k`.
pub open spec fn digits_end(s: Seq<char>, k: int) -> int
    decreases s.len() - k,
{
    if k < 0 || k >= s.len() || !is_digit(s[k]) {
        k
    } else {
        digits_end(s, k + 1)
    }
}

/// `s` from `j` on is empty or an exponent: `e` or `E`, an optional sign,
/// then one or more digits up to the end.
pub open spec fn exponent_ok(s: Seq<char>, j: int) -> bool {
    j == s.len() || (0 <= j < s.len() && (s[j] == 'e' || s[j] == 'E') && {
        let k = if j + 1 < s.len() && (s[j + 1] == '+' || s[j + 1] == '-') {
            j + 2
        } else {
            j + 1
        };
        digits_end(s, k) > k && digits_end(s, k) == s.len()
    })
}

/// A floating-point literal that starts with a digit, as `str::parse::<f64>`
/// reads one: digits, then optionally a `.` and more digits, then
/// optionally an exponent.
pub open spec fn float_literal(s: Seq<char>) -> bool {
    let i = digits_end(s, 0);
    let j = if i < s.len() && s[i] == '.' {
        digits_end(s, i + 1)
    } else {
        i
    };
    i > 0 && exponent_ok(s, j)
}

/// The run of decimal digits stays within the text.
proof fn lemma_digits_end_bounds(s: Seq<char>, k: int)
    requires
        0 <= k <= s.len(),
    ensures
        k <= digits_end(s, k) <= s.len(),
    decreases s.len() - k,
{
    if k < s.len() && is_digit(s[k]) {
        lemma_digits_end_bounds(s, k + 1);
    }
}

/// The end of the run of digits of `fragment` (of `n` characters) that
/// starts at `k`.
fn scan_digits(fragment: &str, n: usize, k: usize) -> (end: usize)
    requires
        n == fragment@.len(),
        k <= n,
    ensures
        end == digits_end(fragment@, k as int),
{
    let mut i = k;
    while i < n
        invariant
            k <= i <= n,
            n == fragment@.len(),
            digits_end(fragment@, i as int) == digits_end(fragment@, k as int),
        decreases n - i,
    {
        let c = fragment.get_char(i);
        if !('0' <= c && c <= '9') {
            return i;
        }
        i += 1;
    }
    i
}

/// Whether `fragment` is a floating-point literal (see [`float_literal`]).
fn is_float_literal(fragment: &str) -> (b: bool)
    ensures
        b == float_literal(fragment@),
{
    let ghost s = fragment@;
    let n = fragment.unicode_len();
    let i = scan_digits(fragment, n, 0);
    proof {
        lemma_digits_end_bounds(s, 0);
    }
    let j = if i < n && fragment.get_char(i) == '.' {
        proof {
            lemma_digits_end_bounds(s, i + 1);
        }
        scan_digits(fragment, n, i + 1)
    } else {
        i
    };
    if i == 0 {
        return false;
    }
    if j == n {
        return true;
    }
    let e = fragment.get_char(j);
    if e != 'e' && e != 'E' {
        return false;
    }
    let k = if j + 1 < n && (fragment.get_char(j + 1) == '+' || fragment.get_char(j + 1) == '-') {
        j + 2
    } else {
        j + 1
    };
    proof {
        lemma_digits_end_bounds(s, k as int);
    }
    let m = scan_digits(fragment, n, k);
    m > k && m == n
}

/// A number literal, kept as written; an error where it is not a
/// floating-point literal.
fn parse_number(fragment: &str) -> (res: Result<Syntax, ReadError>)
    ensures
        float_literal(fragment@) ==> result_model(res) == Ok::<SyntaxModel, ReadError>(
            SyntaxModel::Number(fragment@),
        ),
        !float_literal(fragment@) ==> res == Err::<Syntax, ReadError>(ReadError::InvalidNumber),
{
    if is_float_literal(fragment) {
        Ok(Syntax::Number(fragment.to_owned()))
    } else {
        Err(ReadError::InvalidNumber)
    }
}

/// An identifier, kept as written.
fn parse_identifier(fragment: &str) -> (res: Result<Syntax, ReadError>)
    ensures
        result_model(res) == Ok::<SyntaxModel, ReadError>(SyntaxModel::Ident(fragment@)),
{
    Ok(Syntax::Ident(fragment.to_owned()))
}

// ------------------------------------------------------------------------
// The grammar, over the token stream
// ------------------------------------------------------------------------

/// The result of reading from a stream: the tree read or why reading
/// stopped, and the stream afterwards; or `Unfinished` where reading reaches
/// an atom whose reading is not written yet (see [`atom_unfinished`]).
pub enum Read {
    Done(Result<SyntaxModel, ReadError>, StreamView),
    Unfinished,
}

/// The list whose elements are `items`, built from pairs and ended by the
/// empty list.
pub open spec fn list_of(items: Seq<SyntaxModel>) -> SyntaxModel
    decreases items.len(),
{
    if items.len() == 0 {
        SyntaxModel::Nil
    } else {
        SyntaxModel::Pair(
            Box::new(items[0]),
            Box::new(list_of(items.subrange(1, items.len() as int))),
        )
    }
}

/// Reading the atom `t`, taken from the stream, which is `v` afterwards.
pub open spec fn read_atom_spec(t: TokenModel, v: StreamView) -> Read {
    let text = span_text(v.text, t.1);
    if atom_unfinished(text) {
        Read::Unfinished
    } else {
        Read::Done(atom_spec(text), v)
    }
}

/// Read one expression, with nested lists kept as vectors: take a token; a
/// `(` starts a list, a `'` a quoted expression, an end of file or a `)` is
/// an error, and any other token is an atom.
pub open spec fn read_expr_spec(v: StreamView) -> Read
    decreases stream_measure(v), 2int,
{
    if !stream_valid(v) {
        Read::Unfinished
    } else {
        let (t, v2) = stream_next(v);
        proof {
            lemma_next_measure(v);
        }
        match t.0 {
            TokenKind::LeftParen => read_list_spec(v2, Seq::empty()),
            TokenKind::EOF => Read::Done(Err(ReadError::UnexpectedEndOfFile), v2),
            TokenKind::RightParen => Read::Done(Err(ReadError::UnexpectedRightParen), v2),
            TokenKind::QuoteMark => match read_expr_spec(v2) {
                Read::Done(Ok(e), v3) => Read::Done(Ok(SyntaxModel::Quote(Box::new(e))), v3),
                other => other,
            },
            _ => read_atom_spec(t, v2),
        }
    }
}

/// Read the rest of a list after its `(`, the elements read so far being
/// `acc`: up to the `)`, which is taken; the source must not end first.
pub open spec fn read_list_spec(v: StreamView, acc: Seq<SyntaxModel>) -> Read
    decreases stream_measure(v), 3int,
{
    if !stream_valid(v) {
        Read::Unfinished
    } else {
        let v1 = stream_peek(v);
        proof {
            lemma_peek_measure(v);
        }
        match peeked_token(v1).0 {
            TokenKind::RightParen => Read::Done(Ok(SyntaxModel::List(acc)), stream_next(v1).1),
            TokenKind::EOF => Read::Done(Err(ReadError::UnexpectedEndOfFile), v1),
            _ => match read_expr_spec(v1) {
                Read::Done(Ok(e), v3) => if stream_valid(v3) && stream_measure(v3) < stream_measure(
                    v,
                ) {
                    read_list_spec(v3, acc.push(e))
                } else {
                    Read::Unfinished
                },
                other => other,
            },
        }
    }
}

/// Read one expression, with a list at its top built from pairs: as
/// [`read_expr_spec`], but a `(` starts a list of pairs, whose elements
/// are read by [`read_expr_spec`].
pub open spec fn read_expr_v2_spec(v: StreamView) -> Read
{
    if !stream_valid(v) {
        Read::Unfinished
    } else {
        let (t, v2) = stream_next(v);
        match t.0 {
            TokenKind::LeftParen => read_list_v2_spec(v2, Seq::empty()),
            TokenKind::EOF => Read::Done(Err(ReadError::UnexpectedEndOfFile), v2),
            TokenKind::RightParen => Read::Done(Err(ReadError::UnexpectedRightParen), v2),
            TokenKind::QuoteMark => match read_expr_spec(v2) {
                Read::Done(Ok(e), v3) => Read::Done(Ok(SyntaxModel::Quote(Box::new(e))), v3),
                other => other,
            },
            _ => read_atom_spec(t, v2),
        }
    }
}

/// Read the rest of a list after its `(` into pairs, the elements read so
/// far being `acc`.
pub open spec fn read_list_v2_spec(v: StreamView, acc: Seq<SyntaxModel>) -> Read
    decreases stream_measure(v), 3int,
{
    if !stream_valid(v) {
        Read::Unfinished
    } else {
        let v1 = stream_peek(v);
        proof {
            lemma_peek_measure(v);
        }
        match peeked_token(v1).0 {
            TokenKind::RightParen => Read::Done(Ok(list_of(acc)), stream_next(v1).1),
            TokenKind::EOF => Read::Done(Err(ReadError::UnexpectedEndOfFile), v1),
            _ => match read_expr_spec(v1) {
                Read::Done(Ok(e), v3) => if stream_valid(v3) && stream_measure(v3) < stream_measure(
                    v,
                ) {
                    read_list_v2_spec(v3, acc.push(e))
                } else {
                    Read::Unfinished
                },
                other => other,
            },
        }
    }
}

/// Read the expressions of a program up to the end of the source into a
/// sequence, the expressions read so far being `acc`.
pub open spec fn read_sequence_spec(v: StreamView, acc: Seq<SyntaxModel>) -> Read
    decreases stream_measure(v), 3int,
{
    if !stream_valid(v) {
        Read::Unfinished
    } else {
        let v1 = stream_peek(v);
        proof {
            lemma_peek_measure(v);
        }
        if peeked_token(v1).0 == TokenKind::EOF {
            Read::Done(Ok(SyntaxModel::Sequence(acc)), v1)
        } else {
            match read_expr_spec(v1) {
                Read::Done(Ok(e), v3) => if stream_valid(v3) && stream_measure(v3) < stream_measure(
                    v,
                ) {
                    read_sequence_spec(v3, acc.push(e))
                } else {
                    Read::Unfinished
                },
                other => other,
            }
        }
    }
}

/// Read the expressions of a program up to the end of the source into a
/// list of pairs, each read by [`read_expr_v2_spec`], the expressions read
/// so far being `acc`.
pub open spec fn read_sequence_pair_spec(v: StreamView, acc: Seq<SyntaxModel>) -> Read
    decreases stream_measure(v), 3int,
{
    if !stream_valid(v) {
        Read::Unfinished
    } else {
        let v1 = stream_peek(v);
        proof {
            lemma_peek_measure(v);
        }
        if peeked_token(v1).0 == TokenKind::EOF {
            Read::Done(Ok(list_of(acc)), v1)
        } else {
            match read_expr_v2_spec(v1) {
                Read::Done(Ok(e), v3) => if stream_valid(v3) && stream_measure(v3) < stream_measure(
                    v,
                ) {
                    read_sequence_pair_spec(v3, acc.push(e))
                } else {
                    Read::Unfinished
                },
                other => other,
            }
        }
    }
}

/// The stream after a read stays valid over the same text, with a measure
/// no higher; lower when `strict` and the read succeeded.
pub open spec fn read_progressed(v: StreamView, r: Read, strict: bool) -> bool {
    match r {
        Read::Done(res, v2) => {
            &&& stream_valid(v2)
            &&& v2.text == v.text
            &&& stream_measure(v2) <= stream_measure(v)
            &&& strict && res is Ok ==> stream_measure(v2) < stream_measure(v)
        },
        Read::Unfinished => true,
    }
}

/// Reading an expression takes at least one token.
pub proof fn lemma_read_expr_progress(v: StreamView)
    requires
        stream_valid(v),
    ensures
        read_progressed(v, read_expr_spec(v), true),
    decreases stream_measure(v), 2int,
{
    let (t, v2) = stream_next(v);
    lemma_next_measure(v);
    match t.0 {
        TokenKind::LeftParen => lemma_read_list_progress(v2, Seq::empty()),
        TokenKind::QuoteMark => lemma_read_expr_progress(v2),
        _ => {},
    }
}

/// Reading the rest of a list takes at least its `)` when it succeeds.
pub proof fn lemma_read_list_progress(v: StreamView, acc: Seq<SyntaxModel>)
    requires
        stream_valid(v),
    ensures
        read_progressed(v, read_list_spec(v, acc), true),
    decreases stream_measure(v), 3int,
{
    let v1 = stream_peek(v);
    lemma_peek_measure(v);
    lemma_peek_then_next(v);
    lemma_next_measure(v1);
    if peeked_token(v1).0 != TokenKind::RightParen && peeked_token(v1).0 != TokenKind::EOF {
        lemma_read_expr_progress(v1);
        match read_expr_spec(v1) {
            Read::Done(Ok(e), v3) => {
                if stream_valid(v3) && stream_measure(v3) < stream_measure(v) {
                    lemma_read_list_progress(v3, acc.push(e));
                }
            },
            _ => {},
        }
    }
}

/// Reading the rest of a list into pairs takes at least its `)` when it
/// succeeds.
pub proof fn lemma_read_list_v2_progress(v: StreamView, acc: Seq<SyntaxModel>)
    requires
        stream_valid(v),
    ensures
        read_progressed(v, read_list_v2_spec(v, acc), true),
    decreases stream_measure(v),
{
    let v1 = stream_peek(v);
    lemma_peek_measure(v);
    lemma_peek_then_next(v);
    lemma_next_measure(v1);
    if peeked_token(v1).0 != TokenKind::RightParen && peeked_token(v1).0 != TokenKind::EOF {
        lemma_read_expr_progress(v1);
        match read_expr_spec(v1) {
            Read::Done(Ok(e), v3) => {
                if stream_valid(v3) && stream_measure(v3) < stream_measure(v) {
                    lemma_read_list_v2_progress(v3, acc.push(e));
                }
            },
            _ => {},
        }
    }
}

/// Reading an expression whose top list is built from pairs takes at least
/// one token.
pub proof fn lemma_read_expr_v2_progress(v: StreamView)
    requires
        stream_valid(v),
    ensures
        read_progressed(v, read_expr_v2_spec(v), true),
{
    let (t, v2) = stream_next(v);
    lemma_next_measure(v);
    match t.0 {
        TokenKind::LeftParen => lemma_read_list_v2_progress(v2, Seq::empty()),
        TokenKind::QuoteMark => lemma_read_expr_progress(v2),
        _ => {},
    }
}

/// Reading a program never moves the stream back.
pub proof fn lemma_read_sequence_progress(v: StreamView, acc: Seq<SyntaxModel>)
    requires
        stream_valid(v),
    ensures
        read_progressed(v, read_sequence_spec(v, acc), false),
    decreases stream_measure(v),
{
    let v1 = stream_peek(v);
    lemma_peek_measure(v);
    if peeked_token(v1).0 != TokenKind::EOF {
        lemma_read_expr_progress(v1);
        match read_expr_spec(v1) {
            Read::Done(Ok(e), v3) => {
                if stream_valid(v3) && stream_measure(v3) < stream_measure(v) {
                    lemma_read_sequence_progress(v3, acc.push(e));
                }
            },
            _ => {},
        }
    }
}

/// Reading a program into pairs never moves the stream back.
pub proof fn lemma_read_sequence_pair_progress(v: StreamView, acc: Seq<SyntaxModel>)
    requires
        stream_valid(v),
    ensures
        read_progressed(v, read_sequence_pair_spec(v, acc), false),
    decreases stream_measure(v),
{
    let v1 = stream_peek(v);
    lemma_peek_measure(v);
    if peeked_token(v1).0 != TokenKind::EOF {
        lemma_read_expr_v2_progress(v1);
        match read_expr_v2_spec(v1) {
            Read::Done(Ok(e), v3) => {
                if stream_valid(v3) && stream_measure(v3) < stream_measure(v) {
                    lemma_read_sequence_pair_progress(v3, acc.push(e));
                }
            },
            _ => {},
        }
    }
}

// ------------------------------------------------------------------------
// Reading
// ------------------------------------------------------------------------

/// The result `res` and the stream `v` afterwards are what the grammar
/// gives (`r`); `None` exactly where the grammar reaches an unfinished atom.
pub open spec fn outcome_matches(r: Read, res: Option<Result<Syntax, ReadError>>, v: StreamView) -> bool {
    match r {
        Read::Done(out, v2) => res matches Some(x) && result_model(x) == out && v == v2,
        Read::Unfinished => res is None,
    }
}

/// Appending a tree appends its model.
proof fn lemma_models_push(before: Vec<Syntax>, e: Syntax, after: Vec<Syntax>)
    requires
        after@ == before@.push(e),
    ensures
        models(after) == models(before).push(model(e)),
{
    assert(models(after) =~= models(before).push(model(e)));
}

/// The pairs of a list: `list_of` a suffix is a pair of its first element
/// and `list_of` the rest.
proof fn lemma_list_of_suffix(items: Seq<SyntaxModel>, k: int)
    requires
        0 <= k < items.len(),
    ensures
        list_of(items.subrange(k, items.len() as int)) == SyntaxModel::Pair(
            Box::new(items[k]),
            Box::new(list_of(items.subrange(k + 1, items.len() as int))),
        ),
{
    let s = items.subrange(k, items.len() as int);
    assert(s.subrange(1, s.len() as int) =~= items.subrange(k + 1, items.len() as int));
}

/// Build the list of `items` from pairs, the first element in the first pair.
fn pairs_from(items: Vec<Syntax>) -> (list: Syntax)
    ensures
        model(list) == list_of(models(items)),
{
    let ghost all = models(items);
    let ghost n = items.len() as int;
    let mut rest = items;
    let mut list = Syntax::Nil;
    proof {
        assert(all.subrange(n, n) =~= Seq::<SyntaxModel>::empty());
    }
    while rest.len() > 0
        invariant
            0 <= rest.len() <= n,
            n == all.len(),
            forall|i: int| 0 <= i < rest.len() ==> model(#[trigger] rest@[i]) == all[i],
            model(list) == list_of(all.subrange(rest.len() as int, n)),
        decreases rest.len(),
    {
        let ghost k = rest.len() - 1;
        let e = rest.pop().unwrap();
        proof {
            lemma_list_of_suffix(all, k);
        }
        list = Syntax::Pair(Box::new(e), Box::new(list));
    }
    proof {
        assert(all.subrange(0, n) =~= all);
    }
    list
}

/// Whether the atom written `fragment` is a binary or hexadecimal literal.
fn is_unfinished_atom(fragment: &str) -> (b: bool)
    ensures
        b == atom_unfinished(fragment@),
{
    let n = fragment.unicode_len();
    if n < 2 {
        return false;
    }
    let first = fragment.get_char(0);
    let second = fragment.get_char(1);
    first == '#' && (second == 'b' || second == 'x')
}

/// The token just taken from `ts`, an atom, read from its text (see
/// [`read_atom_spec`]).
fn take_atom(ts: &TokenStream, token: Token, Ghost(v): Ghost<StreamView>) -> (res: Option<
    Result<Syntax, ReadError>,
>)
    requires
        ts.wf(),
        stream_valid(v),
        v.text == ts@.text,
        v.peeked matches Some(t) ==> exists|c: int|
            0 <= c <= v.text.len() && t == #[trigger] lexed(v.text, c),
        token_model(token) == stream_next(v).0,
    ensures
        outcome_matches(read_atom_spec(stream_next(v).0, ts@), res, ts@),
{
    let ghost text = v.text;
    proof {
        ts.lemma_wf();
        let c = if v.peeked is Some {
            choose|c: int| 0 <= c <= text.len() && peeked_token(v) == #[trigger] lexed(text, c)
        } else {
            v.cur
        };
        assert(stream_next(v).0 == lexed(text, c));
        lemma_scan_token_bounds(text, c);
        let (kind, s0, e0) = scan_token(text, c);
        assert(span_covers(token.span@, text, s0, e0));
    }
    let fragment = token.fragment(ts.source());
    proof {
        let (i, j) = choose|i: int, j: int| span_covers(token.span@, text, i, j);
        assert(fragment@ == span_text(text, token.span@));
    }
    if is_unfinished_atom(fragment) {
        None
    } else {
        Some(parse_atom(token, fragment))
    }
}

/// Read one expression (see [`read_expr_spec`]).
fn parse_expr(ts: &mut TokenStream) -> (res: Option<Result<Syntax, ReadError>>)
    requires
        old(ts).wf(),
    ensures
        final(ts).wf(),
        final(ts).source_text() == old(ts).source_text(),
        outcome_matches(read_expr_spec(old(ts)@), res, final(ts)@),
    decreases stream_measure(old(ts)@), 2int,
{
    let ghost v = ts@;
    proof {
        ts.lemma_wf();
        lemma_next_measure(v);
    }
    let token = ts.next_token();
    match token.kind {
        TokenKind::LeftParen => parse_list(ts),
        TokenKind::EOF => Some(Err(ReadError::UnexpectedEndOfFile)),
        TokenKind::RightParen => Some(Err(ReadError::UnexpectedRightParen)),
        TokenKind::QuoteMark => parse_quote(ts),
        _ => take_atom(ts, token, Ghost(v)),
    }
}

/// Read the expression after a `'` and quote it.
fn parse_quote(ts: &mut TokenStream) -> (res: Option<Result<Syntax, ReadError>>)
    requires
        old(ts).wf(),
    ensures
        final(ts).wf(),
        final(ts).source_text() == old(ts).source_text(),
        outcome_matches(
            match read_expr_spec(old(ts)@) {
                Read::Done(Ok(e), v3) => Read::Done(Ok(SyntaxModel::Quote(Box::new(e))), v3),
                other => other,
            },
            res,
            final(ts)@,
        ),
    decreases stream_measure(old(ts)@), 3int,
{
    match parse_expr(ts) {
        Some(Ok(e)) => Some(Ok(Syntax::Quote(Box::new(e)))),
        other => other,
    }
}

/// Read the rest of a list after its `(` (see [`read_list_spec`]).
fn parse_list(ts: &mut TokenStream) -> (res: Option<Result<Syntax, ReadError>>)
    requires
        old(ts).wf(),
    ensures
        final(ts).wf(),
        final(ts).source_text() == old(ts).source_text(),
        outcome_matches(read_list_spec(old(ts)@, Seq::empty()), res, final(ts)@),
    decreases stream_measure(old(ts)@), 3int,
{
    let ghost v0 = ts@;
    let ghost src = ts.source_text();
    let mut items: Vec<Syntax> = Vec::new();
    proof {
        ts.lemma_wf();
        assert(models(items) =~= Seq::<SyntaxModel>::empty());
    }
    loop
        invariant
            v0 == old(ts)@,
            src == old(ts).source_text(),
            ts.wf(),
            ts.source_text() == src,
            stream_valid(ts@),
            stream_measure(ts@) <= stream_measure(v0),
            read_list_spec(ts@, models(items)) == read_list_spec(v0, Seq::empty()),
        decreases stream_measure(ts@),
    {
        let ghost v = ts@;
        proof {
            lemma_peek_measure(v);
            lemma_peek_then_next(v);
        }
        let kind = ts.peek_kind();
        match kind {
            TokenKind::RightParen => {
                let _ = ts.next_token();
                return Some(Ok(Syntax::List(items)));
            },
            TokenKind::EOF => {
                return Some(Err(ReadError::UnexpectedEndOfFile));
            },
            _ => {
                let ghost v1 = ts@;
                proof {
                    lemma_read_expr_progress(v1);
                }
                match parse_expr(ts) {
                    Some(Ok(e)) => {
                        let ghost before = items;
                        items.push(e);
                        proof {
                            lemma_models_push(before, e, items);
                            ts.lemma_wf();
                        }
                    },
                    Some(Err(err)) => {
                        return Some(Err(err));
                    },
                    None => {
                        return None;
                    },
                }
            },
        }
    }
}

/// Read one expression whose top list is built from pairs (see
/// [`read_expr_v2_spec`]).
fn parse_expr_v2(ts: &mut TokenStream) -> (res: Option<Result<Syntax, ReadError>>)
    requires
        old(ts).wf(),
    ensures
        final(ts).wf(),
        final(ts).source_text() == old(ts).source_text(),
        outcome_matches(read_expr_v2_spec(old(ts)@), res, final(ts)@),
{
    let ghost v = ts@;
    proof {
        ts.lemma_wf();
        lemma_next_measure(v);
    }
    let token = ts.next_token();
    match token.kind {
        TokenKind::LeftParen => parse_list_v2(ts),
        TokenKind::EOF => Some(Err(ReadError::UnexpectedEndOfFile)),
        TokenKind::RightParen => Some(Err(ReadError::UnexpectedRightParen)),
        TokenKind::QuoteMark => parse_quote(ts),
        _ => take_atom(ts, token, Ghost(v)),
    }
}

/// Read the rest of a list after its `(` into pairs (see
/// [`read_list_v2_spec`]).
pub fn parse_list_v2(ts: &mut TokenStream) -> (res: Option<Result<Syntax, ReadError>>)
    requires
        old(ts).wf(),
    ensures
        final(ts).wf(),
        final(ts).source_text() == old(ts).source_text(),
        outcome_matches(read_list_v2_spec(old(ts)@, Seq::empty()), res, final(ts)@),
{
    let ghost v0 = ts@;
    let ghost src = ts.source_text();
    let mut items: Vec<Syntax> = Vec::new();
    proof {
        ts.lemma_wf();
        assert(models(items) =~= Seq::<SyntaxModel>::empty());
    }
    loop
        invariant
            v0 == old(ts)@,
            src == old(ts).source_text(),
            ts.wf(),
            ts.source_text() == src,
            stream_valid(ts@),
            stream_measure(ts@) <= stream_measure(v0),
            read_list_v2_spec(ts@, models(items)) == read_list_v2_spec(v0, Seq::empty()),
        decreases stream_measure(ts@),
    {
        let ghost v = ts@;
        proof {
            lemma_peek_measure(v);
            lemma_peek_then_next(v);
        }
        let kind = ts.peek_kind();
        match kind {
            TokenKind::RightParen => {
                let _ = ts.next_token();
                return Some(Ok(pairs_from(items)));
            },
            TokenKind::EOF => {
                return Some(Err(ReadError::UnexpectedEndOfFile));
            },
            _ => {
                let ghost v1 = ts@;
                proof {
                    lemma_read_expr_progress(v1);
                }
                match parse_expr(ts) {
                    Some(Ok(e)) => {
                        let ghost before = items;
                        items.push(e);
                        proof {
                            lemma_models_push(before, e, items);
                            ts.lemma_wf();
                        }
                    },
                    Some(Err(err)) => {
                        return Some(Err(err));
                    },
                    None => {
                        return None;
                    },
                }
            },
        }
    }
}

/// Read the expressions of a program (see [`read_sequence_spec`]).
fn parse_sequence(ts: &mut TokenStream) -> (res: Option<Result<Syntax, ReadError>>)
    requires
        old(ts).wf(),
    ensures
        final(ts).wf(),
        final(ts).source_text() == old(ts).source_text(),
        outcome_matches(read_sequence_spec(old(ts)@, Seq::empty()), res, final(ts)@),
{
    let ghost v0 = ts@;
    let ghost src = ts.source_text();
    let mut items: Vec<Syntax> = Vec::new();
    proof {
        ts.lemma_wf();
        assert(models(items) =~= Seq::<SyntaxModel>::empty());
    }
    loop
        invariant
            v0 == old(ts)@,
            src == old(ts).source_text(),
            ts.wf(),
            ts.source_text() == src,
            stream_valid(ts@),
            stream_measure(ts@) <= stream_measure(v0),
            read_sequence_spec(ts@, models(items)) == read_sequence_spec(v0, Seq::empty()),
        decreases stream_measure(ts@),
    {
        let ghost v = ts@;
        proof {
            lemma_peek_measure(v);
            lemma_peek_then_next(v);
        }
        let kind = ts.peek_kind();
        match kind {
            TokenKind::EOF => {
                return Some(Ok(Syntax::Sequence(items)));
            },
            _ => {
                let ghost v1 = ts@;
                proof {
                    lemma_read_expr_progress(v1);
                }
                match parse_expr(ts) {
                    Some(Ok(e)) => {
                        let ghost before = items;
                        items.push(e);
                        proof {
                            lemma_models_push(before, e, items);
                            ts.lemma_wf();
                        }
                    },
                    Some(Err(err)) => {
                        return Some(Err(err));
                    },
                    None => {
                        return None;
                    },
                }
            },
        }
    }
}

/// Read the expressions of a program into a list of pairs (see
/// [`read_sequence_pair_spec`]).
pub fn parse_sequence_pair(ts: &mut TokenStream) -> (res: Option<Result<Syntax, ReadError>>)
    requires
        old(ts).wf(),
    ensures
        final(ts).wf(),
        final(ts).source_text() == old(ts).source_text(),
        outcome_matches(read_sequence_pair_spec(old(ts)@, Seq::empty()), res, final(ts)@),
{
    let ghost v0 = ts@;
    let ghost src = ts.source_text();
    let mut items: Vec<Syntax> = Vec::new();
    proof {
        ts.lemma_wf();
        assert(models(items) =~= Seq::<SyntaxModel>::empty());
    }
    loop
        invariant
            v0 == old(ts)@,
            src == old(ts).source_text(),
            ts.wf(),
            ts.source_text() == src,
            stream_valid(ts@),
            stream_measure(ts@) <= stream_measure(v0),
            read_sequence_pair_spec(ts@, models(items)) == read_sequence_pair_spec(v0, Seq::empty()),
        decreases stream_measure(ts@),
    {
        let ghost v = ts@;
        proof {
            lemma_peek_measure(v);
            lemma_peek_then_next(v);
        }
        let kind = ts.peek_kind();
        match kind {
            TokenKind::EOF => {
                return Some(Ok(pairs_from(items)));
            },
            _ => {
                let ghost v1 = ts@;
                proof {
                    lemma_read_expr_v2_progress(v1);
                }
                match parse_expr_v2(ts) {
                    Some(Ok(e)) => {
                        let ghost before = items;
                        items.push(e);
                        proof {
                            lemma_models_push(before, e, items);
                            ts.lemma_wf();
                        }
                    },
                    Some(Err(err)) => {
                        return Some(Err(err));
                    },
                    None => {
                        return None;
                    },
                }
            },
        }
    }
}

/// What reading `text` gives: a program (`is_sequence`) or one expression.
pub open spec fn read_spec(text: Seq<char>, is_sequence: bool) -> Read {
    if is_sequence {
        read_sequence_spec(initial_stream(text), Seq::empty())
    } else {
        read_expr_spec(initial_stream(text))
    }
}

/// What reading `text` as a program into a list of pairs gives.
pub open spec fn read_v2_spec(text: Seq<char>) -> Read {
    read_sequence_pair_spec(initial_stream(text), Seq::empty())
}

/// The result that a finished read gives.
pub open spec fn read_result(r: Read) -> Result<SyntaxModel, ReadError> {
    match r {
        Read::Done(out, _) => out,
        Read::Unfinished => Err(ReadError::ExpectedAtom),
    }
}

/// Read `source` (see [`read_spec`]): `None` where reading reaches a
/// binary or hexadecimal literal, else the tree or why reading stopped.
pub fn try_parse(source: &str, is_sequence: bool) -> (res: Option<Result<Syntax, ReadError>>)
    requires
        source@.len() > 0,
        vstd::utf8::encode_utf8(source@).len() <= usize::MAX,
    ensures
        res is None <==> read_spec(source@, is_sequence) is Unfinished,
        res matches Some(r) ==> result_model(r) == read_result(read_spec(source@, is_sequence)),
{
    let mut ts = TokenStream::new(Lexer::new(source));
    if is_sequence {
        parse_sequence(&mut ts)
    } else {
        parse_expr(&mut ts)
    }
}

/// Read `source` as a program (`is_sequence`) or as one expression (see
/// [`read_spec`]).
pub fn parse(source: &str, is_sequence: bool) -> (res: Result<Syntax, ReadError>)
    requires
        source@.len() > 0,
        vstd::utf8::encode_utf8(source@).len() <= usize::MAX,
        read_spec(source@, is_sequence) is Done,
    ensures
        result_model(res) == read_result(read_spec(source@, is_sequence)),
{
    match try_parse(source, is_sequence) {
        Some(res) => res,
        None => {
            assert(false);
            Err(ReadError::ExpectedAtom)
        },
    }
}

/// Read `source` as a program into a list of pairs (see [`read_v2_spec`]):
/// `None` where reading reaches a binary or hexadecimal literal.
pub fn try_parse_v2(source: &str) -> (res: Option<Result<Syntax, ReadError>>)
    requires
        source@.len() > 0,
        vstd::utf8::encode_utf8(source@).len() <= usize::MAX,
    ensures
        res is None <==> read_v2_spec(source@) is Unfinished,
        res matches Some(r) ==> result_model(r) == read_result(read_v2_spec(source@)),
{
    let mut ts = TokenStream::new(Lexer::new(source));
    parse_sequence_pair(&mut ts)
}

/// Read `source` as a program into a list of pairs (see [`read_v2_spec`]).
pub fn parse_v2(source: &str) -> (res: Result<Syntax, ReadError>)
    requires
        source@.len() > 0,
        vstd::utf8::encode_utf8(source@).len() <= usize::MAX,
        read_v2_spec(source@) is Done,
    ensures
        result_model(res) == read_result(read_v2_spec(source@)),
{
    match try_parse_v2(source) {
        Some(res) => res,
        None => {
            assert(false);
            Err(ReadError::ExpectedAtom)
        },
    }
}

} // verus!
