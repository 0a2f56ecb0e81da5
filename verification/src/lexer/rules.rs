//! Functions for testing characters.

use vstd::prelude::*;

verus! {

/// The whitespace characters of the Scheme grammar.
pub open spec fn spec_is_whitespace(c: char) -> bool {
    c == '\u{0020}' || c == '\u{0009}' || c == '\u{000A}' || c == '\u{000D}' || c == '\u{00A0}'
        || c == '\u{FEFF}'
}

/// Whether `c` is whitespace of the Scheme grammar: space, tab, line feed,
/// carriage return, no-break space or zero width no-break space.
pub fn is_whitespace(c: char) -> (b: bool)
    ensures
        b == spec_is_whitespace(c),
{
    c == '\u{0020}' || c == '\u{0009}' || c == '\u{000A}' || c == '\u{000D}' || c == '\u{00A0}'
        || c == '\u{FEFF}'
}

/// A decimal digit.
pub open spec fn spec_is_number(c: char) -> bool {
    '0' <= c <= '9'
}

/// Whether `c` is a decimal digit.
pub fn is_number(c: char) -> (b: bool)
    ensures
        b == spec_is_number(c),
{
    '0' <= c && c <= '9'
}

/// A letter of the Latin alphabet or an underscore.
pub open spec fn spec_is_symbol(c: char) -> bool {
    ('a' <= c <= 'z') || ('A' <= c <= 'Z') || c == '_'
}

/// Whether `c` is a Latin letter or an underscore.
pub fn is_symbol(c: char) -> (b: bool)
    ensures
        b == spec_is_symbol(c),
{
    ('a' <= c && c <= 'z') || ('A' <= c && c <= 'Z') || c == '_'
}

/// A character with the Unicode `White_Space` property.
pub open spec fn spec_is_unicode_whitespace(c: char) -> bool {
    ('\u{0009}' <= c <= '\u{000D}') || c == '\u{0020}' || c == '\u{0085}' || c == '\u{00A0}'
        || c == '\u{1680}' || ('\u{2000}' <= c <= '\u{200A}') || c == '\u{2028}' || c
        == '\u{2029}' || c == '\u{202F}' || c == '\u{205F}' || c == '\u{3000}'
}

/// Whether `c` has the Unicode `White_Space` property, as `char::is_whitespace`
/// decides.
pub fn is_unicode_whitespace(c: char) -> (b: bool)
    ensures
        b == spec_is_unicode_whitespace(c),
{
    ('\u{0009}' <= c && c <= '\u{000D}') || c == '\u{0020}' || c == '\u{0085}' || c == '\u{00A0}'
        || c == '\u{1680}' || ('\u{2000}' <= c && c <= '\u{200A}') || c == '\u{2028}' || c
        == '\u{2029}' || c == '\u{202F}' || c == '\u{205F}' || c == '\u{3000}'
}

/// The characters with the Unicode `White_Space` property, one by one:
/// tab, line feed, vertical tab, form feed, carriage return, space, next
/// line, no-break space, ogham space mark, the spaces from en quad to hair
/// space, line and paragraph separator, narrow no-break space, medium
/// mathematical space and ideographic space.
pub proof fn lemma_unicode_whitespace(c: char)
    ensures
        spec_is_unicode_whitespace(c) <==> (c == '\u{0009}' || c == '\u{000A}' || c == '\u{000B}'
            || c == '\u{000C}' || c == '\u{000D}' || c == '\u{0020}' || c == '\u{0085}' || c
            == '\u{00A0}' || c == '\u{1680}' || c == '\u{2000}' || c == '\u{2001}' || c
            == '\u{2002}' || c == '\u{2003}' || c == '\u{2004}' || c == '\u{2005}' || c
            == '\u{2006}' || c == '\u{2007}' || c == '\u{2008}' || c == '\u{2009}' || c
            == '\u{200A}' || c == '\u{2028}' || c == '\u{2029}' || c == '\u{202F}' || c
            == '\u{205F}' || c == '\u{3000}'),
{
}

} // verus!
