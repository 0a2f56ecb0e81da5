//! Byte offsets of characters in UTF-8 text.

use vstd::prelude::*;
use vstd::utf8::{encode_scalar, encode_utf8};

verus! {

/// Number of bytes in the UTF-8 encoding of `c`.
pub open spec fn char_width(c: char) -> nat {
    encode_scalar(c as u32).len()
}

/// Byte offset of character `i` of `text`: the length of the encoding of
/// the characters before it.
pub open spec fn byte_offset(text: Seq<char>, i: int) -> nat {
    encode_utf8(text.take(i)).len()
}

/// The encoding of a concatenation is the concatenation of the encodings.
pub proof fn lemma_encode_concat(a: Seq<char>, b: Seq<char>)
    ensures
        encode_utf8(a + b) == encode_utf8(a) + encode_utf8(b),
    decreases a.len(),
{
    if a.len() == 0 {
        assert(a + b =~= b);
        assert(encode_utf8(a) =~= Seq::<u8>::empty());
        assert(encode_utf8(a) + encode_utf8(b) =~= encode_utf8(b));
    } else {
        assert((a + b).drop_first() =~= a.drop_first() + b);
        assert((a + b)[0] == a[0]);
        lemma_encode_concat(a.drop_first(), b);
        assert(encode_utf8(a + b) =~= encode_scalar(a[0] as u32) + (encode_utf8(a.drop_first())
            + encode_utf8(b)));
        assert(encode_utf8(a) + encode_utf8(b) =~= encode_scalar(a[0] as u32) + (encode_utf8(
            a.drop_first(),
        ) + encode_utf8(b)));
    }
}

/// The offset of the next character adds the width of this one.
pub proof fn lemma_offset_step(text: Seq<char>, i: int)
    requires
        0 <= i < text.len(),
    ensures
        byte_offset(text, i + 1) == byte_offset(text, i) + char_width(text[i]),
{
    assert(text.take(i + 1) =~= text.take(i) + seq![text[i]]);
    lemma_encode_concat(text.take(i), seq![text[i]]);
    let one = seq![text[i]];
    assert(one.drop_first() =~= Seq::<char>::empty());
    assert(encode_utf8(one) =~= encode_scalar(text[i] as u32) + encode_utf8(Seq::<char>::empty()));
    assert(encode_utf8(Seq::<char>::empty()) =~= Seq::<u8>::empty());
}

/// The offset past the last character is the length of the encoding.
pub proof fn lemma_offset_end(text: Seq<char>)
    ensures
        byte_offset(text, text.len() as int) == encode_utf8(text).len(),
{
    assert(text.take(text.len() as int) =~= text);
}

/// Offsets grow with the index.
pub proof fn lemma_offset_mono(text: Seq<char>, i: int, j: int)
    requires
        0 <= i <= j <= text.len(),
    ensures
        byte_offset(text, i) <= byte_offset(text, j),
    decreases j - i,
{
    if i < j {
        lemma_offset_mono(text, i, j - 1);
        lemma_offset_step(text, j - 1);
    }
}

/// Every character offset is a character boundary of the encoding.
pub proof fn lemma_offset_boundary(text: Seq<char>, i: int)
    requires
        0 <= i <= text.len(),
    ensures
        vstd::utf8::is_char_boundary(encode_utf8(text), byte_offset(text, i) as int),
    decreases text.len(),
{
    let bytes = encode_utf8(text);
    vstd::utf8::encode_utf8_valid_utf8(text);
    if i == 0 {
        assert(text.take(0) =~= Seq::<char>::empty());
        assert(encode_utf8(text.take(0)).len() == 0);
    } else {
        let rest = text.drop_first();
        vstd::utf8::encode_utf8_first_scalar(text);
        assert(vstd::utf8::pop_first_scalar(bytes) =~= encode_utf8(rest));
        lemma_offset_boundary(rest, i - 1);
        assert(text.take(i) =~= seq![text[0]] + rest.take(i - 1));
        lemma_encode_concat(seq![text[0]], rest.take(i - 1));
        let one = seq![text[0]];
        assert(one.drop_first() =~= Seq::<char>::empty());
        assert(encode_utf8(one) =~= encode_scalar(text[0] as u32) + encode_utf8(
            Seq::<char>::empty(),
        ));
        assert(encode_utf8(Seq::<char>::empty()) =~= Seq::<u8>::empty());
        lemma_offset_mono(text, i, text.len() as int);
        lemma_offset_end(text);
    }
}

/// The bytes from a character offset on encode the characters from that
/// index on.
pub proof fn lemma_offset_suffix(text: Seq<char>, i: int)
    requires
        0 <= i <= text.len(),
    ensures
        encode_utf8(text).subrange(byte_offset(text, i) as int, encode_utf8(text).len() as int)
            == encode_utf8(text.skip(i)),
{
    assert(text =~= text.take(i) + text.skip(i));
    lemma_encode_concat(text.take(i), text.skip(i));
    assert(encode_utf8(text).subrange(byte_offset(text, i) as int, encode_utf8(text).len() as int)
        =~= encode_utf8(text.skip(i)));
}

/// Equal encodings come from equal characters.
pub proof fn lemma_encode_injective(a: Seq<char>, b: Seq<char>)
    requires
        encode_utf8(a) == encode_utf8(b),
    ensures
        a == b,
{
    vstd::utf8::encode_utf8_decode_utf8(a);
    vstd::utf8::encode_utf8_decode_utf8(b);
}

/// Offsets grow strictly with the index: every character takes a byte.
pub proof fn lemma_offset_strict(text: Seq<char>, i: int, j: int)
    requires
        0 <= i < j <= text.len(),
    ensures
        byte_offset(text, i) < byte_offset(text, j),
{
    lemma_offset_mono(text, i + 1, j);
    lemma_offset_step(text, i);
    vstd::utf8::char_is_scalar(text[i]);
}

/// Number of bytes in the UTF-8 encoding of `c`.
pub fn utf8_width(c: char) -> (w: usize)
    ensures
        w == char_width(c),
        1 <= w <= 4,
{
    proof {
        vstd::utf8::char_is_scalar(c);
    }
    let u = c as u32;
    if u <= 0x7f {
        1
    } else if u <= 0x7ff {
        2
    } else if u <= 0xffff {
        3
    } else {
        4
    }
}

} // verus!
