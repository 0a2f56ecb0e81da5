//! Tokens.

use vstd::prelude::*;
use vstd::string::StringSliceAdditionalSpecFns;

use crate::lexer::span::Span;
use crate::lexer::utf8::{
    byte_offset, lemma_encode_concat, lemma_encode_injective, lemma_offset_boundary,
    lemma_offset_end, lemma_offset_mono, lemma_offset_strict, lemma_offset_suffix,
};

verus! {

/// The kinds of tokens.
#[derive(Debug, Clone, Copy, PartialEq, Eq, Structural)]
pub enum TokenKind {
    LeftParen,
    RightParen,
    QuoteMark,
    Atom,
    Number,
    EOF,
}

/// A token: its kind and the bytes of the source it covers.
#[derive(Debug, Clone, Copy)]
pub struct Token {
    pub kind: TokenKind,
    pub span: Span,
}

/// The span covers the characters `i..j` of `text`.
pub open spec fn span_covers(span: (int, int), text: Seq<char>, i: int, j: int) -> bool {
    &&& 0 <= i <= j <= text.len()
    &&& span == (byte_offset(text, i) as int, byte_offset(text, j) as int)
}

impl Token {
    /// The text of the token in `source`, for a token whose span covers
    /// whole characters of `source`.
    pub fn fragment<'a>(&self, source: &'a str) -> (fragment: &'a str)
        requires
            exists|i: int, j: int| span_covers(self.span@, source@, i, j),
            byte_offset(source@, source@.len() as int) <= usize::MAX,
        ensures
            forall|i: int, j: int|
                span_covers(self.span@, source@, i, j) ==> fragment@ == source@.subrange(i, j),
    {
        let ghost text = source@;
        let ghost (i, j) = choose|i: int, j: int| span_covers(self.span@, text, i, j);
        let lo = self.span.low();
        let hi = self.span.high();
        proof {
            lemma_offset_boundary(text, i);
            lemma_offset_suffix(text, i);
            lemma_offset_end(text);
            lemma_offset_mono(text, j, text.len() as int);
        }
        let (_, tail) = source.split_at(lo);
        proof {
            lemma_encode_injective(tail@, text.skip(i));
            lemma_offset_split(text, i, j);
            lemma_offset_boundary(text.skip(i), j - i);
        }
        let (head, _) = tail.split_at(hi - lo);
        proof {
            let t = text.skip(i);
            assert(t =~= t.take(j - i) + t.skip(j - i));
            lemma_encode_concat(t.take(j - i), t.skip(j - i));
            assert(head.spec_bytes() =~= vstd::utf8::encode_utf8(t.take(j - i)));
            lemma_encode_injective(head@, t.take(j - i));
            assert(t.take(j - i) =~= text.subrange(i, j));
            assert forall|i2: int, j2: int| span_covers(self.span@, text, i2, j2) implies head@
                == text.subrange(i2, j2) by {
                lemma_offset_unique(text, i, i2);
                lemma_offset_unique(text, j, j2);
            }
        }
        head
    }
}

/// The offset of character `j` is that of character `i` plus the offset of
/// `j` within the characters from `i` on.
proof fn lemma_offset_split(text: Seq<char>, i: int, j: int)
    requires
        0 <= i <= j <= text.len(),
    ensures
        byte_offset(text, j) == byte_offset(text, i) + byte_offset(text.skip(i), j - i),
{
    assert(text.take(j) =~= text.take(i) + text.skip(i).take(j - i));
    lemma_encode_concat(text.take(i), text.skip(i).take(j - i));
}

/// Different characters have different offsets.
proof fn lemma_offset_unique(text: Seq<char>, i: int, k: int)
    requires
        0 <= i <= text.len(),
        0 <= k <= text.len(),
        byte_offset(text, i) == byte_offset(text, k),
    ensures
        i == k,
{
    if i < k {
        lemma_offset_strict(text, i, k);
    } else if k < i {
        lemma_offset_strict(text, k, i);
    }
}

} // verus!
