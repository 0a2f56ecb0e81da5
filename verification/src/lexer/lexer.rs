//! Lexical analysis.

use vstd::prelude::*;

use crate::lexer::cursor::{Cursor, CursorView, EOF_CHAR};
use crate::lexer::rules::{is_number, is_unicode_whitespace, spec_is_number, spec_is_unicode_whitespace};
use crate::lexer::span::Span;
use crate::lexer::token::{Token, TokenKind};
use crate::lexer::utf8::{byte_offset, lemma_offset_end, lemma_offset_mono};

verus! {

// ------------------------------------------------------------------------
// The token grammar
// ------------------------------------------------------------------------

/// Index of the first character at or after `i` that is neither whitespace
/// nor part of a line comment (`;` up to the end of the line). `in_comment`
/// says whether `i` is inside a comment.
pub open spec fn skip_trivia(text: Seq<char>, i: int, in_comment: bool) -> int
    decreases text.len() - i,
{
    if i >= text.len() {
        text.len() as int
    } else if in_comment {
        if text[i] == '\n' {
            skip_trivia(text, i + 1, false)
        } else {
            skip_trivia(text, i + 1, true)
        }
    } else if spec_is_unicode_whitespace(text[i]) {
        skip_trivia(text, i + 1, false)
    } else if text[i] == ';' {
        skip_trivia(text, i + 1, true)
    } else {
        i
    }
}

/// Index of the first character at or after `i` that is not a digit.
pub open spec fn digits_end(text: Seq<char>, i: int) -> int
    decreases text.len() - i,
{
    if i >= text.len() {
        text.len() as int
    } else if spec_is_number(text[i]) {
        digits_end(text, i + 1)
    } else {
        i
    }
}

/// Index of the first character at or after `i` that ends an atom:
/// whitespace or a parenthesis.
pub open spec fn atom_end(text: Seq<char>, i: int) -> int
    decreases text.len() - i,
{
    if i >= text.len() {
        text.len() as int
    } else if spec_is_unicode_whitespace(text[i]) || text[i] == '(' || text[i] == ')' {
        i
    } else {
        atom_end(text, i + 1)
    }
}

/// The token that starts the text from character `cur` on: its kind and
/// the characters `start..end` it covers. Whitespace and comments before it
/// are skipped; at the end of the text it is an empty end-of-file token.
pub open spec fn scan_token(text: Seq<char>, cur: int) -> (TokenKind, int, int) {
    let s = skip_trivia(text, cur, false);
    if s >= text.len() {
        (TokenKind::EOF, text.len() as int, text.len() as int)
    } else {
        let c = text[s];
        if spec_is_number(c) {
            (TokenKind::Number, s, digits_end(text, s + 1))
        } else if c == '(' {
            (TokenKind::LeftParen, s, s + 1)
        } else if c == ')' {
            (TokenKind::RightParen, s, s + 1)
        } else if c == '\'' {
            (TokenKind::QuoteMark, s, s + 1)
        } else if c == EOF_CHAR {
            (TokenKind::EOF, s, s + 1)
        } else {
            (TokenKind::Atom, s, atom_end(text, s + 1))
        }
    }
}

/// `token` is the token at `cur`: its kind, and the bytes of the
/// characters it covers.
pub open spec fn is_token_at(token: Token, text: Seq<char>, cur: int) -> bool {
    let (kind, start, end) = scan_token(text, cur);
    &&& token.kind == kind
    &&& token.span@ == (byte_offset(text, start) as int, byte_offset(text, end) as int)
}

/// Skipping never moves backwards or past the end.
pub proof fn lemma_skip_trivia_bounds(text: Seq<char>, i: int, in_comment: bool)
    requires
        0 <= i,
    ensures
        i <= skip_trivia(text, i, in_comment) || skip_trivia(text, i, in_comment) == text.len(),
        skip_trivia(text, i, in_comment) <= text.len() || i > text.len(),
    decreases text.len() - i,
{
    if i < text.len() {
        if in_comment {
            lemma_skip_trivia_bounds(text, i + 1, text[i] != '\n');
        } else if spec_is_unicode_whitespace(text[i]) {
            lemma_skip_trivia_bounds(text, i + 1, false);
        } else if text[i] == ';' {
            lemma_skip_trivia_bounds(text, i + 1, true);
        }
    }
}

/// Digits run from `i` to at most the end.
pub proof fn lemma_digits_end_bounds(text: Seq<char>, i: int)
    requires
        0 <= i <= text.len(),
    ensures
        i <= digits_end(text, i) <= text.len(),
    decreases text.len() - i,
{
    if i < text.len() && spec_is_number(text[i]) {
        lemma_digits_end_bounds(text, i + 1);
    }
}

/// Atoms run from `i` to at most the end.
pub proof fn lemma_atom_end_bounds(text: Seq<char>, i: int)
    requires
        0 <= i <= text.len(),
    ensures
        i <= atom_end(text, i) <= text.len(),
    decreases text.len() - i,
{
    if i < text.len() && !(spec_is_unicode_whitespace(text[i]) || text[i] == '(' || text[i]
        == ')') {
        lemma_atom_end_bounds(text, i + 1);
    }
}

/// A token starts at or after `cur`, ends after it starts, and moves the
/// lexer forward unless the text is exhausted.
pub proof fn lemma_scan_token_bounds(text: Seq<char>, cur: int)
    requires
        0 <= cur <= text.len(),
    ensures
        cur <= scan_token(text, cur).1 <= scan_token(text, cur).2 <= text.len(),
        cur < text.len() ==> cur < scan_token(text, cur).2,
{
    lemma_skip_trivia_bounds(text, cur, false);
    let s = skip_trivia(text, cur, false);
    if s < text.len() {
        lemma_digits_end_bounds(text, s + 1);
        lemma_atom_end_bounds(text, s + 1);
    }
}

/// No character from `i` up to `atom_end(text, i)` is whitespace or a
/// parenthesis.
proof fn lemma_atom_run(text: Seq<char>, i: int)
    requires
        0 <= i <= text.len(),
    ensures
        forall|k: int|
            i <= k < atom_end(text, i) ==> !spec_is_unicode_whitespace(#[trigger] text[k])
                && text[k] != '(' && text[k] != ')',
    decreases text.len() - i,
{
    if i < text.len() && !(spec_is_unicode_whitespace(text[i]) || text[i] == '(' || text[i]
        == ')') {
        lemma_atom_run(text, i + 1);
    }
}

/// What `skip_trivia` stops at, before the end, is neither whitespace nor
/// the start of a comment.
proof fn lemma_skip_trivia_stop(text: Seq<char>, i: int, in_comment: bool)
    requires
        0 <= i,
    ensures
        ({
            let s = skip_trivia(text, i, in_comment);
            s < text.len() ==> !spec_is_unicode_whitespace(text[s]) && text[s] != ';'
        }),
    decreases text.len() - i,
{
    if i < text.len() {
        if in_comment {
            lemma_skip_trivia_stop(text, i + 1, text[i] != '\n');
        } else if spec_is_unicode_whitespace(text[i]) {
            lemma_skip_trivia_stop(text, i + 1, false);
        } else if text[i] == ';' {
            lemma_skip_trivia_stop(text, i + 1, true);
        }
    }
}

/// Whitespace separates tokens: a token other than the end of the text
/// starts at a character that is not whitespace (a tab, a space, a line
/// break, or any other `White_Space` character), and no atom holds one, or
/// a parenthesis.
pub proof fn lemma_tokens_exclude_whitespace(text: Seq<char>, cur: int)
    requires
        0 <= cur <= text.len(),
    ensures
        ({
            let (kind, s, e) = scan_token(text, cur);
            &&& s < text.len() ==> !spec_is_unicode_whitespace(text[s]) && text[s] != '\t'
                && text[s] != ' ' && text[s] != '\n' && text[s] != '\r'
            &&& kind == TokenKind::Atom ==> forall|k: int|
                s <= k < e ==> !spec_is_unicode_whitespace(#[trigger] text[k]) && text[k] != '\t'
                    && text[k] != ' ' && text[k] != '\n' && text[k] != '\r' && text[k] != '('
                    && text[k] != ')'
        }),
{
    lemma_skip_trivia_bounds(text, cur, false);
    lemma_skip_trivia_stop(text, cur, false);
    let s = skip_trivia(text, cur, false);
    if s < text.len() {
        lemma_atom_run(text, s + 1);
        crate::lexer::rules::lemma_unicode_whitespace(text[s]);
        assert forall|k: int| s <= k < atom_end(text, s + 1) implies !spec_is_unicode_whitespace(
            #[trigger] text[k],
        ) && text[k] != '\t' && text[k] != ' ' && text[k] != '\n' && text[k] != '\r' by {
            crate::lexer::rules::lemma_unicode_whitespace(text[k]);
        }
    }
}

// ------------------------------------------------------------------------
// The lexer
// ------------------------------------------------------------------------

/// A lexer over a source string.
pub struct Lexer<'a> {
    cursor: Cursor<'a>,
    source: &'a str,
    /// Byte position where the current token starts.
    start_pos: usize,
}

/// The model of a lexer: the characters of the source and the index of the
/// character where the next token is looked for (the length once the
/// source is exhausted).
pub struct LexerView {
    pub text: Seq<char>,
    pub cur: int,
}

/// The character index a cursor stands at.
pub open spec fn cursor_index(v: CursorView) -> int {
    match v.prev {
        None => v.text.len() as int,
        Some(_) => v.next - 1,
    }
}

impl<'a> View for Lexer<'a> {
    type V = LexerView;

    closed spec fn view(&self) -> LexerView {
        LexerView { text: self.cursor@.text, cur: cursor_index(self.cursor@) }
    }
}

impl<'a> Lexer<'a> {
    /// The lexer's cursor has read at least one character and reads `source`.
    pub closed spec fn wf(&self) -> bool {
        &&& self.cursor.wf()
        &&& self.cursor.source_text() == self.source
        &&& (self.cursor@.prev is None || self.cursor@.next >= 1)
    }

    /// The model of the lexer's cursor.
    pub closed spec fn cursor_view(&self) -> CursorView {
        self.cursor@
    }

    /// The source text.
    pub closed spec fn source_text(&self) -> &'a str {
        self.source
    }

    /// A lexer at the start of a non-empty `source`.
    pub fn new(source: &'a str) -> (lexer: Self)
        requires
            source@.len() > 0,
            vstd::utf8::encode_utf8(source@).len() <= usize::MAX,
        ensures
            lexer.wf(),
            lexer.source_text() == source,
            lexer@.text == source@,
            lexer@.cur == 0,
    {
        let mut cursor = Cursor::new(source);
        cursor.bump();
        let start_pos = cursor.pos();
        Self { cursor, source, start_pos }
    }

    /// Where the lexer stands, in terms of its cursor.
    proof fn lemma_state(&self)
        requires
            self.wf(),
        ensures
            0 <= self@.cur <= self@.text.len(),
            self.cursor@.prev is None <==> self@.cur == self@.text.len(),
            self.cursor@.prev is Some ==> self.cursor@.next == self@.cur + 1 && (self.cursor@.prev->0).1
                == self@.text[self@.cur] && (self.cursor@.prev->0).0 == byte_offset(
                self@.text,
                self@.cur,
            ),
            self.cursor@.prev is None ==> self.cursor@.next == self@.text.len(),
            self.source@ == self@.text,
            byte_offset(self@.text, self@.text.len() as int) <= usize::MAX,
    {
        self.cursor.lemma_valid();
    }

    /// What a well-formed lexer knows of its position and its source.
    pub proof fn lemma_wf(&self)
        requires
            self.wf(),
        ensures
            0 <= self@.cur <= self@.text.len(),
            self.source_text()@ == self@.text,
            byte_offset(self@.text, self@.text.len() as int) <= usize::MAX,
    {
        self.lemma_state();
    }

    /// The source text.
    pub fn source(&self) -> (source: &'a str)
        ensures
            source == self.source_text(),
    {
        self.source
    }

    /// The cursor of the lexer.
    pub fn cursor(&self) -> (cursor: &Cursor<'a>)
        ensures
            cursor@ == self.cursor_view(),
    {
        &self.cursor
    }

    /// Whether the whole source has been read.
    pub fn at_end(&self) -> (b: bool)
        requires
            self.wf(),
        ensures
            b == (self@.cur == self@.text.len()),
    {
        proof {
            self.lemma_state();
        }
        self.cursor.at_end()
    }

    /// Byte position of the character the lexer stands at.
    fn start_token(&mut self)
        requires
            old(self).wf(),
        ensures
            final(self).wf(),
            final(self).cursor == old(self).cursor,
            final(self).source == old(self).source,
            final(self).start_pos == byte_offset(old(self)@.text, old(self)@.cur),
    {
        proof {
            self.lemma_state();
            lemma_offset_end(self@.text);
        }
        self.start_pos = match self.cursor.try_pos() {
            Some(pos) => pos,
            None => self.source.len(),
        };
    }

    /// Make a token of `kind` from the start position to the end of the
    /// current character, then step past that character.
    fn make_token(&mut self, kind: TokenKind) -> (token: Token)
        requires
            old(self).wf(),
            old(self)@.cur < old(self)@.text.len() ==> old(self).start_pos <= byte_offset(
                old(self)@.text,
                old(self)@.cur + 1,
            ),
            old(self)@.cur < old(self)@.text.len() || old(self).start_pos == byte_offset(
                old(self)@.text,
                old(self)@.text.len() as int,
            ),
        ensures
            final(self).wf(),
            final(self).source == old(self).source,
            final(self)@.text == old(self)@.text,
            final(self)@.cur == if old(self)@.cur < old(self)@.text.len() {
                old(self)@.cur + 1
            } else {
                old(self)@.cur
            },
            token.kind == kind,
            token.span@ == (
                old(self).start_pos as int,
                byte_offset(
                    old(self)@.text,
                    if old(self)@.cur < old(self)@.text.len() {
                        old(self)@.cur + 1
                    } else {
                        old(self)@.cur
                    },
                ) as int,
            ),
    {
        proof {
            self.lemma_state();
            lemma_offset_mono(self@.text, self@.cur, self@.text.len() as int);
        }
        let start = self.start_pos;
        let end = self.cursor.peek_offset();
        let size = end - start;
        let span = Span::new(start, size);
        let token = Token { kind, span };
        self.cursor.bump();
        token
    }

    /// Skip to the end of the line, or of the source.
    fn skip_line(&mut self)
        requires
            old(self).wf(),
        ensures
            final(self).wf(),
            final(self).source == old(self).source,
            final(self)@.text == old(self)@.text,
            old(self)@.cur <= final(self)@.cur <= final(self)@.text.len(),
            skip_trivia(final(self)@.text, final(self)@.cur, true) == skip_trivia(
                old(self)@.text,
                old(self)@.cur,
                true,
            ),
            final(self)@.cur == final(self)@.text.len() || final(self)@.text[final(self)@.cur]
                == '\n',
    {
        proof {
            self.lemma_state();
        }
        loop
            invariant
                self.wf(),
                self.source == old(self).source,
                self@.text == old(self)@.text,
                old(self)@.cur <= self@.cur <= self@.text.len(),
                skip_trivia(self@.text, self@.cur, true) == skip_trivia(
                    old(self)@.text,
                    old(self)@.cur,
                    true,
                ),
            ensures
                self.wf(),
                self.source == old(self).source,
                self@.text == old(self)@.text,
                old(self)@.cur <= self@.cur <= self@.text.len(),
                skip_trivia(self@.text, self@.cur, true) == skip_trivia(
                    old(self)@.text,
                    old(self)@.cur,
                    true,
                ),
                self@.cur == self@.text.len() || self@.text[self@.cur] == '\n',
            decreases self@.text.len() - self@.cur,
        {
            proof {
                self.lemma_state();
            }
            match self.cursor.try_char() {
                Some(ch) => {
                    if ch == '\n' {
                        break;
                    } else {
                        self.cursor.bump();
                        proof {
                            self.lemma_state();
                        }
                    }
                },
                None => {
                    break;
                },
            }
        }
    }

    /// Read the rest of a number.
    fn consume_number(&mut self) -> (token: Token)
        requires
            old(self).wf(),
            old(self)@.cur < old(self)@.text.len(),
            old(self).start_pos == byte_offset(old(self)@.text, old(self)@.cur),
        ensures
            final(self).wf(),
            final(self).source == old(self).source,
            final(self)@.text == old(self)@.text,
            final(self)@.cur == digits_end(old(self)@.text, old(self)@.cur + 1),
            token.kind == TokenKind::Number,
            token.span@ == (
                byte_offset(old(self)@.text, old(self)@.cur) as int,
                byte_offset(old(self)@.text, digits_end(old(self)@.text, old(self)@.cur + 1))
                    as int,
            ),
    {
        let ghost text = self@.text;
        let ghost s = self@.cur;
        proof {
            self.lemma_state();
        }
        loop
            invariant
                self.wf(),
                self.source == old(self).source,
                self.start_pos == old(self).start_pos,
                self@.text == text,
                s <= self@.cur < text.len(),
                digits_end(text, self@.cur + 1) == digits_end(text, s + 1),
            ensures
                self.wf(),
                self.source == old(self).source,
                self.start_pos == old(self).start_pos,
                self@.text == text,
                s <= self@.cur < text.len(),
                digits_end(text, s + 1) == self@.cur + 1,
            decreases text.len() - self@.cur,
        {
            proof {
                self.lemma_state();
            }
            match self.cursor.peek_char() {
                Some(ch) => {
                    if !is_number(ch) {
                        break;
                    }
                    self.cursor.bump();
                    proof {
                        self.lemma_state();
                    }
                },
                None => {
                    break;
                },
            }
        }
        proof {
            lemma_offset_mono(text, s, self@.cur + 1);
        }
        self.make_token(TokenKind::Number)
    }

    /// Read the rest of an atom, up to whitespace or a parenthesis.
    fn consume_atom(&mut self) -> (token: Token)
        requires
            old(self).wf(),
            old(self)@.cur < old(self)@.text.len(),
            old(self).start_pos == byte_offset(old(self)@.text, old(self)@.cur),
        ensures
            final(self).wf(),
            final(self).source == old(self).source,
            final(self)@.text == old(self)@.text,
            final(self)@.cur == atom_end(old(self)@.text, old(self)@.cur + 1),
            token.kind == TokenKind::Atom,
            token.span@ == (
                byte_offset(old(self)@.text, old(self)@.cur) as int,
                byte_offset(old(self)@.text, atom_end(old(self)@.text, old(self)@.cur + 1)) as int,
            ),
    {
        let ghost text = self@.text;
        let ghost s = self@.cur;
        proof {
            self.lemma_state();
        }
        loop
            invariant
                self.wf(),
                self.source == old(self).source,
                self.start_pos == old(self).start_pos,
                self@.text == text,
                s <= self@.cur < text.len(),
                atom_end(text, self@.cur + 1) == atom_end(text, s + 1),
            ensures
                self.wf(),
                self.source == old(self).source,
                self.start_pos == old(self).start_pos,
                self@.text == text,
                s <= self@.cur < text.len(),
                atom_end(text, s + 1) == self@.cur + 1,
            decreases text.len() - self@.cur,
        {
            proof {
                self.lemma_state();
            }
            match self.cursor.peek_char() {
                Some(ch) => {
                    if is_unicode_whitespace(ch) || ch == '(' || ch == ')' {
                        break;
                    }
                    self.cursor.bump();
                    proof {
                        self.lemma_state();
                    }
                },
                None => {
                    break;
                },
            }
        }
        proof {
            lemma_offset_mono(text, s, self@.cur + 1);
        }
        self.make_token(TokenKind::Atom)
    }

    /// Scan the next token (see [`scan_token`]).
    pub fn next_token(&mut self) -> (token: Token)
        requires
            old(self).wf(),
        ensures
            final(self).wf(),
            final(self).source_text() == old(self).source_text(),
            final(self)@.text == old(self)@.text,
            is_token_at(token, old(self)@.text, old(self)@.cur),
            final(self)@.cur == scan_token(old(self)@.text, old(self)@.cur).2,
    {
        let ghost text = self@.text;
        let ghost target = skip_trivia(text, self@.cur, false);
        proof {
            self.lemma_state();
            lemma_skip_trivia_bounds(text, self@.cur, false);
        }
        loop
            invariant
                self.wf(),
                self.source == old(self).source,
                self@.text == text,
                text == old(self)@.text,
                target == skip_trivia(old(self)@.text, old(self)@.cur, false),
                old(self)@.cur <= self@.cur <= text.len(),
                skip_trivia(text, self@.cur, false) == target,
            decreases text.len() - self@.cur,
        {
            self.start_token();
            proof {
                self.lemma_state();
                lemma_offset_end(text);
                lemma_offset_mono(text, self@.cur, text.len() as int);
                if self@.cur < text.len() {
                    lemma_offset_mono(text, self@.cur, self@.cur + 1);
                }
            }
            match self.cursor.try_char() {
                Some(ch) => {
                    if is_unicode_whitespace(ch) {
                        self.cursor.bump();
                    } else if is_number(ch) {
                        let token = self.consume_number();
                        proof {
                            lemma_digits_end_bounds(text, target + 1);
                        }
                        return token;
                    } else if ch == ';' {
                        self.cursor.bump();
                        self.skip_line();
                    } else if ch == '(' {
                        return self.make_token(TokenKind::LeftParen);
                    } else if ch == ')' {
                        return self.make_token(TokenKind::RightParen);
                    } else if ch == '\'' {
                        return self.make_token(TokenKind::QuoteMark);
                    } else if ch == EOF_CHAR {
                        return self.make_token(TokenKind::EOF);
                    } else {
                        return self.consume_atom();
                    }
                },
                None => {
                    return self.make_token(TokenKind::EOF);
                },
            }
        }
    }
}


/// Every token from character `cur` to the end of the text, in order, each
/// as its kind and the characters it covers: what calling
/// [`Lexer::next_token`] until the lexer is at its end gives.
pub open spec fn lex_from(text: Seq<char>, cur: int) -> Seq<(TokenKind, int, int)>
    decreases text.len() - cur,
{
    if 0 <= cur < text.len() {
        let t = scan_token(text, cur);
        proof {
            lemma_scan_token_bounds(text, cur);
        }
        seq![t] + lex_from(text, t.2)
    } else {
        Seq::empty()
    }
}

/// The tokens from character `cur` on come in source order without
/// overlapping, each within the text and after `cur`.
pub proof fn lemma_lex_from_ordered(text: Seq<char>, cur: int)
    requires
        0 <= cur <= text.len(),
    ensures
        forall|k: int|
            0 <= k < lex_from(text, cur).len() ==> cur <= (#[trigger] lex_from(text, cur)[k]).1
                <= lex_from(text, cur)[k].2 <= text.len(),
        forall|k: int|
            0 <= k < lex_from(text, cur).len() - 1 ==> (#[trigger] lex_from(text, cur)[k]).2
                <= lex_from(text, cur)[k + 1].1,
    decreases text.len() - cur,
{
    if cur < text.len() {
        let t = scan_token(text, cur);
        lemma_scan_token_bounds(text, cur);
        lemma_lex_from_ordered(text, t.2);
        let rest = lex_from(text, t.2);
        let all = lex_from(text, cur);
        assert(all == seq![t] + rest);
        assert forall|k: int| 0 <= k < all.len() implies cur <= (#[trigger] all[k]).1 <= all[k].2
            <= text.len() by {
            if k > 0 {
                assert(all[k] == rest[k - 1]);
            }
        }
        assert forall|k: int| 0 <= k < all.len() - 1 implies (#[trigger] all[k]).2 <= all[k
            + 1].1 by {
            if k > 0 {
                assert(all[k] == rest[k - 1]);
                assert(all[k + 1] == rest[k]);
            } else {
                assert(all[1] == rest[0]);
            }
        }
    }
}

/// `tokens` are the tokens `lexed`, with spans in bytes of `text`.
pub open spec fn tokens_match(
    tokens: Seq<Token>,
    lexed: Seq<(TokenKind, int, int)>,
    text: Seq<char>,
) -> bool {
    &&& tokens.len() == lexed.len()
    &&& forall|k: int|
        0 <= k < tokens.len() ==> {
            &&& (#[trigger] tokens[k]).kind == lexed[k].0
            &&& tokens[k].span@ == (
                byte_offset(text, lexed[k].1) as int,
                byte_offset(text, lexed[k].2) as int,
            )
        }
}

impl<'a> Lexer<'a> {
    /// Scan every remaining token, in order, until the source is read.
    pub fn tokens(self) -> (tokens: Vec<Token>)
        requires
            self.wf(),
        ensures
            tokens_match(tokens@, lex_from(self@.text, self@.cur), self@.text),
    {
        let ghost text = self@.text;
        let ghost start = self@.cur;
        let mut lexer = self;
        let mut tokens: Vec<Token> = Vec::new();
        proof {
            lexer.lemma_state();
        }
        while !lexer.at_end()
            invariant
                lexer.wf(),
                lexer@.text == text,
                0 <= lexer@.cur <= text.len(),
                tokens_match(tokens@, lex_from(text, start).take(tokens@.len() as int), text),
                lex_from(text, start) == lex_from(text, start).take(tokens@.len() as int)
                    + lex_from(text, lexer@.cur),
            decreases text.len() - lexer@.cur,
        {
            let ghost cur = lexer@.cur;
            let ghost before = tokens@;
            proof {
                lemma_scan_token_bounds(text, cur);
            }
            let token = lexer.next_token();
            tokens.push(token);
            proof {
                lexer.lemma_state();
                let lexed = lex_from(text, start);
                let n = before.len() as int;
                assert(lex_from(text, cur) == seq![scan_token(text, cur)] + lex_from(
                    text,
                    scan_token(text, cur).2,
                ));
                assert(lexed.take(n + 1) =~= lexed.take(n).push(scan_token(text, cur)));
                assert(lexed =~= lexed.take(n + 1) + lex_from(text, lexer@.cur));
                assert(tokens_match(tokens@, lexed.take(n + 1), text)) by {
                    assert forall|k: int| 0 <= k < tokens@.len() implies {
                        &&& (#[trigger] tokens@[k]).kind == lexed.take(n + 1)[k].0
                        &&& tokens@[k].span@ == (
                            byte_offset(text, lexed.take(n + 1)[k].1) as int,
                            byte_offset(text, lexed.take(n + 1)[k].2) as int,
                        )
                    } by {
                        if k < n {
                            assert(tokens@[k] == before[k]);
                            assert(lexed.take(n + 1)[k] == lexed.take(n)[k]);
                        }
                    }
                }
            }
        }
        proof {
            assert(lex_from(text, lexer@.cur) =~= Seq::empty());
            assert(lex_from(text, start).take(tokens@.len() as int) =~= lex_from(text, start));
        }
        tokens
    }

    /// An iterator over the remaining tokens.
    pub fn into_iter(self) -> (iter: LexerIter<'a>)
        requires
            self.wf(),
        ensures
            iter.wf(),
            iter@ == self@,
    {
        LexerIter { lexer: self }
    }
}

/// Steps a lexer one token at a time until its source is read.
pub struct LexerIter<'a> {
    lexer: Lexer<'a>,
}

impl<'a> View for LexerIter<'a> {
    type V = LexerView;

    closed spec fn view(&self) -> LexerView {
        self.lexer@
    }
}

impl<'a> LexerIter<'a> {
    /// The lexer inside is well formed.
    pub closed spec fn wf(&self) -> bool {
        self.lexer.wf()
    }

    /// The next token, or `None` once the source is read.
    pub fn next(&mut self) -> (item: Option<Token>)
        requires
            old(self).wf(),
        ensures
            final(self).wf(),
            final(self)@.text == old(self)@.text,
            old(self)@.cur == old(self)@.text.len() ==> item is None && final(self)@ == old(self)@,
            old(self)@.cur < old(self)@.text.len() ==> {
                &&& item matches Some(token) && is_token_at(
                    token,
                    old(self)@.text,
                    old(self)@.cur,
                )
                &&& final(self)@.cur == scan_token(old(self)@.text, old(self)@.cur).2
            },
    {
        if self.lexer.at_end() {
            None
        } else {
            Some(self.lexer.next_token())
        }
    }
}

} // verus!
