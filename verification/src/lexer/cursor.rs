//! Unicode character scanner.

use vstd::prelude::*;
use vstd::string::StringSliceAdditionalSpecFns;

use crate::lexer::utf8::{
    byte_offset, lemma_encode_injective, lemma_offset_boundary, lemma_offset_end, lemma_offset_step,
    lemma_offset_suffix, utf8_width,
};

verus! {

/// The character reported before the first one is read.
pub const EOF_CHAR: char = '\0';

/// A scanner over the characters of a source string, reporting each with
/// its byte position.
pub struct Cursor<'src> {
    chars: Vec<char>,
    /// `offsets[i]` is the byte position of character `i`; the last entry
    /// is the length of the source.
    offsets: Vec<usize>,
    /// Index of the next character to be read.
    next: usize,
    /// The character read last, with its byte position; `None` once the
    /// source is exhausted.
    prev: Option<(usize, char)>,
    source: &'src str,
}

/// The model of a cursor: the characters of the source, how many have been
/// read, and the last one read with its byte position.
pub struct CursorView {
    pub text: Seq<char>,
    pub next: nat,
    pub prev: Option<(usize, char)>,
}

impl CursorView {
    /// The states a cursor can be in.
    pub open spec fn valid(self) -> bool {
        &&& self.next <= self.text.len()
        &&& byte_offset(self.text, self.text.len() as int) <= usize::MAX
        &&& match self.prev {
            None => self.next == self.text.len(),
            Some((pos, ch)) => if self.next == 0 {
                pos == 0 && ch == EOF_CHAR
            } else {
                pos == byte_offset(self.text, self.next - 1) && ch == self.text[self.next - 1]
            },
        }
    }
}

/// A fresh cursor over `text`: nothing read, the end-of-file character
/// reported at position zero.
pub open spec fn fresh_cursor(text: Seq<char>) -> CursorView {
    CursorView { text, next: 0, prev: Some((0usize, EOF_CHAR)) }
}

/// The cursor after one more character is read: the next one, reported with
/// its byte position, or, past the last, nothing.
pub open spec fn bumped(v: CursorView) -> CursorView {
    if v.next < v.text.len() {
        CursorView {
            next: v.next + 1,
            prev: Some((byte_offset(v.text, v.next as int) as usize, v.text[v.next as int])),
            ..v
        }
    } else {
        CursorView { prev: None, ..v }
    }
}

/// The cursor after `k` characters are read.
pub open spec fn bumped_times(v: CursorView, k: nat) -> CursorView
    decreases k,
{
    if k == 0 {
        v
    } else {
        bumped(bumped_times(v, (k - 1) as nat))
    }
}

/// A fresh cursor is at its end exactly after more reads than the text has
/// characters: until then it has read `k` characters and reports the last.
pub proof fn lemma_at_end_after_bumps(text: Seq<char>, k: nat)
    ensures
        bumped_times(fresh_cursor(text), k).prev is None <==> k > text.len(),
        bumped_times(fresh_cursor(text), k).next == if k <= text.len() {
            k
        } else {
            text.len()
        },
        bumped_times(fresh_cursor(text), k).text == text,
    decreases k,
{
    if k > 0 {
        lemma_at_end_after_bumps(text, (k - 1) as nat);
    }
}

impl<'src> View for Cursor<'src> {
    type V = CursorView;

    closed spec fn view(&self) -> CursorView {
        CursorView { text: self.chars@, next: self.next as nat, prev: self.prev }
    }
}

impl<'src> Cursor<'src> {
    /// The cursor's fields agree with its model.
    pub closed spec fn wf(&self) -> bool {
        &&& self@.valid()
        &&& self.chars@ == self.source@
        &&& self.offsets@.len() == self.chars@.len() + 1
        &&& forall|i: int|
            0 <= i <= self.chars@.len() ==> #[trigger] self.offsets@[i] == byte_offset(
                self.chars@,
                i,
            )
    }

    /// The source text.
    pub closed spec fn source_text(&self) -> &'src str {
        self.source
    }

    /// A well-formed cursor is in a valid state over its source's characters.
    pub proof fn lemma_valid(&self)
        requires
            self.wf(),
        ensures
            self@.valid(),
            self@.text == self.source_text()@,
    {
    }

    /// A cursor before the first character of `source`.
    pub fn new(source: &'src str) -> (cursor: Self)
        requires
            vstd::utf8::encode_utf8(source@).len() <= usize::MAX,
        ensures
            cursor.wf(),
            cursor.source_text() == source,
            cursor@.text == source@,
            cursor@.next == 0,
            cursor@.prev == Some((0usize, EOF_CHAR)),
    {
        let mut chars: Vec<char> = Vec::new();
        let mut offsets: Vec<usize> = Vec::new();
        let mut offset: usize = 0;
        offsets.push(0);
        proof {
            assert(source@.take(0) =~= Seq::<char>::empty());
            lemma_offset_end(source@);
            lemma_offsets_bounded(source@);
        }
        for c in it: source.chars()
            invariant
                it.seq() == source@,
                chars@ == source@.take(it.index()),
                offsets@.len() == chars@.len() + 1,
                byte_offset(source@, source@.len() as int) <= usize::MAX,
                forall|k: int| 0 <= k <= source@.len() ==> #[trigger] byte_offset(source@, k) <= usize::MAX,
                offset == byte_offset(source@, it.index()),
                forall|i: int|
                    0 <= i <= chars@.len() ==> #[trigger] offsets@[i] == byte_offset(source@, i),
        {
            let ghost i = it.index();
            proof {
                lemma_offset_step(source@, i);
            }
            chars.push(c);
            offset = offset + utf8_width(c);
            offsets.push(offset);
            proof {
                assert(chars@ =~= source@.take(i + 1));
            }
        }
        proof {
            assert(chars@ =~= source@);
            assert forall|i: int| 0 <= i <= chars@.len() implies #[trigger] offsets@[i]
                == byte_offset(chars@, i) by {}
        }
        Cursor { chars, offsets, next: 0, prev: Some((0, EOF_CHAR)), source }
    }

    /// The source text.
    pub fn source(&self) -> (source: &'src str)
        ensures
            source == self.source_text(),
    {
        self.source
    }

    /// Index of the last character read, or zero before the first read.
    pub open spec fn current_index(v: CursorView) -> int {
        if v.next == 0 {
            0
        } else {
            v.next - 1
        }
    }

    /// The source from the last character read on; empty once exhausted.
    pub fn rest(&self) -> (rest: &'src str)
        requires
            self.wf(),
        ensures
            rest@ == match self@.prev {
                Some(_) => self@.text.skip(Self::current_index(self@)),
                None => Seq::<char>::empty(),
            },
    {
        match self.try_pos() {
            Some(pos) => {
                let ghost i = Self::current_index(self@);
                proof {
                    lemma_offset_boundary(self@.text, i);
                    lemma_offset_suffix(self@.text, i);
                    assert(self.source.spec_bytes() == vstd::utf8::encode_utf8(self@.text));
                }
                let (_, tail) = self.source.split_at(pos);
                proof {
                    lemma_offset_end(self@.text);
                    lemma_encode_injective(tail@, self@.text.skip(i));
                }
                tail
            },
            None => {
                proof {
                    reveal_strlit("");
                }
                ""
            },
        }
    }

    /// The last character read and its byte position; the cursor must not
    /// be exhausted.
    pub fn current(&self) -> (current: (usize, char))
        requires
            self@.prev is Some,
        ensures
            current == self@.prev->0,
    {
        match self.prev {
            Some((pos, ch)) => (pos, ch),
            None => {
                assert(false);
                (0, EOF_CHAR)
            },
        }
    }

    /// The last character read and its byte position, if any.
    pub fn try_current(&self) -> (current: Option<(usize, char)>)
        ensures
            current == self@.prev,
    {
        self.prev
    }

    /// Byte position of the last character read; the cursor must not be
    /// exhausted.
    pub fn pos(&self) -> (pos: usize)
        requires
            self@.prev is Some,
        ensures
            pos == (self@.prev->0).0,
    {
        self.current().0
    }

    /// Byte position of the last character read, if any.
    pub fn try_pos(&self) -> (pos: Option<usize>)
        ensures
            pos == match self@.prev {
                Some((p, _)) => Some(p),
                None => None::<usize>,
            },
    {
        match self.prev {
            Some((pos, _)) => Some(pos),
            None => None,
        }
    }

    /// The last character read; the cursor must not be exhausted.
    pub fn char(&self) -> (ch: char)
        requires
            self@.prev is Some,
        ensures
            ch == (self@.prev->0).1,
    {
        self.current().1
    }

    /// The last character read, if any.
    pub fn try_char(&self) -> (ch: Option<char>)
        ensures
            ch == match self@.prev {
                Some((_, c)) => Some(c),
                None => None::<char>,
            },
    {
        match self.prev {
            Some((_, ch)) => Some(ch),
            None => None,
        }
    }

    /// The next character, without reading it.
    pub fn peek_char(&self) -> (ch: Option<char>)
        requires
            self.wf(),
        ensures
            ch == if self@.next < self@.text.len() {
                Some(self@.text[self@.next as int])
            } else {
                None::<char>
            },
    {
        if self.next < self.chars.len() {
            Some(self.chars[self.next])
        } else {
            None
        }
    }

    /// Byte position of the next character, or the length of the source
    /// when every character has been read.
    pub fn peek_offset(&self) -> (offset: usize)
        requires
            self.wf(),
        ensures
            offset == byte_offset(self@.text, self@.next as int),
    {
        self.offsets[self.next]
    }

    /// Whether the cursor is exhausted.
    pub fn at_end(&self) -> (b: bool)
        ensures
            b == (self@.prev is None),
    {
        self.prev.is_none()
    }

    /// Read the next character; `None` once the source is exhausted.
    pub fn bump(&mut self) -> (read: Option<(usize, char)>)
        requires
            old(self).wf(),
        ensures
            final(self).wf(),
            final(self).source_text() == old(self).source_text(),
            final(self)@.text == old(self)@.text,
            read == final(self)@.prev,
            final(self)@ == bumped(old(self)@),
            old(self)@.next < old(self)@.text.len() ==> final(self)@.next == old(self)@.next + 1
                && read == Some(
                (
                    byte_offset(old(self)@.text, old(self)@.next as int) as usize,
                    old(self)@.text[old(self)@.next as int],
                ),
            ),
            old(self)@.next == old(self)@.text.len() ==> final(self)@.next == old(self)@.next
                && read is None,
    {
        if self.next < self.chars.len() {
            let pos = self.offsets[self.next];
            let ch = self.chars[self.next];
            self.prev = Some((pos, ch));
            self.next = self.next + 1;
            Some((pos, ch))
        } else {
            self.prev = None;
            None
        }
    }
}


/// Every character offset is at most the length of the whole encoding.
proof fn lemma_offsets_bounded(text: Seq<char>)
    ensures
        forall|k: int| 0 <= k <= text.len() ==> #[trigger] byte_offset(text, k) <= byte_offset(text, text.len() as int),
{
    assert forall|k: int| 0 <= k <= text.len() implies #[trigger] byte_offset(text, k) <= byte_offset(text, text.len() as int) by {
        crate::lexer::utf8::lemma_offset_mono(text, k, text.len() as int);
    }
}

} // verus!
