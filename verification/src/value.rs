//! Compact dynamically-typed value representation.
//!
//! A [`ValuePtr`] is one pointer-sized word. Heap objects are aligned to 8
//! bytes, so the low 3 bits of an object address are always zero; those
//! bits tag the other kinds of values:
//!
//! | `word & 0b111` | Kind    | Payload                                  |
//! |----------------|---------|------------------------------------------|
//! | `0b000`        | pointer | address of heap object (`0` = nil)       |
//! | `0b001`        | integer | `(word as isize) >> 1` (bit 0 only)      |
//! | `0b010`        | bool    | `word >> 3` (0 = false, 1 = true)        |
//! | `0b100`        | void    | none (the entire word is `0b100`)        |
//!
//! Integers are told apart by bit 0 alone, so every word with bit 0 set is
//! an integer.

use vstd::prelude::*;

verus! {

const TAG_MASK: usize = 0b111usize;

const TAG_INT: usize = 0b001usize;

const TAG_BOOL: usize = 0b010usize;

const TAG_VOID: usize = 0b100usize;

/// A dynamically typed value in one word.
pub struct ValuePtr {
    pub(crate) ptr: usize,
}

/// The word is the nil value.
pub open spec fn word_is_nil(w: usize) -> bool {
    w == 0
}

/// The word is the void value.
pub open spec fn word_is_void(w: usize) -> bool {
    w == 4
}

/// The word is a non-nil object address.
pub open spec fn word_is_ptr(w: usize) -> bool {
    w & 7 == 0 && w != 0
}

/// The word is an integer.
pub open spec fn word_is_int(w: usize) -> bool {
    w & 1 != 0
}

/// The word is a boolean.
pub open spec fn word_is_bool(w: usize) -> bool {
    w & 7 == 2
}

/// The integer an integer word stands for.
pub open spec fn word_int(w: usize) -> isize {
    (w as isize) >> 1
}

/// The boolean a boolean word stands for.
pub open spec fn word_bool(w: usize) -> bool {
    (w >> 3) != 0
}

impl View for ValuePtr {
    /// The word.
    type V = usize;

    closed spec fn view(&self) -> usize {
        self.ptr
    }
}

/// The smallest and largest integers a word can hold.
pub open spec fn int_in_range(v: isize) -> bool {
    ValuePtr::MIN_INT <= v <= ValuePtr::MAX_INT
}

impl ValuePtr {
    /// The maximum integer value that can be stored in a [`ValuePtr`].
    pub const MAX_INT: isize = isize::MAX >> 1isize;

    /// The minimum integer value that can be stored in a [`ValuePtr`].
    pub const MIN_INT: isize = isize::MIN >> 1isize;

    /// The nil value.
    pub fn nil() -> (v: Self)
        ensures
            word_is_nil(v@),
    {
        ValuePtr { ptr: 0 }
    }

    /// The void (unspecified) value.
    pub fn void() -> (v: Self)
        ensures
            word_is_void(v@),
    {
        ValuePtr { ptr: TAG_VOID }
    }

    /// A pointer to the heap object at `addr`, which must be non-null and
    /// aligned to 8 bytes.
    pub fn from_ptr(addr: usize) -> (v: Self)
        requires
            addr != 0,
            addr & 7 == 0,
        ensures
            v@ == addr,
            word_is_ptr(v@),
    {
        ValuePtr { ptr: addr }
    }

    /// An integer in `[min_int(), max_int()]`.
    pub fn from_int(value: isize) -> (v: Self)
        requires
            int_in_range(value),
        ensures
            word_is_int(v@),
            word_int(v@) == value,
    {
        let ptr = ((value as usize) << 1usize) | TAG_INT;
        proof {
            lemma_int_roundtrip(value);
        }
        ValuePtr { ptr }
    }

    /// A boolean.
    pub fn from_bool(value: bool) -> (v: Self)
        ensures
            word_is_bool(v@),
            word_bool(v@) == value,
    {
        let bit: usize = if value {
            1
        } else {
            0
        };
        let ptr = (bit << 3usize) | TAG_BOOL;
        proof {
            assert(((bit << 3usize) | 2usize) & 7usize == 2usize && (((bit << 3usize) | 2usize)
                >> 3usize != 0usize <==> bit != 0usize)) by (bit_vector)
                requires
                    bit == 0usize || bit == 1usize,
            ;
        }
        ValuePtr { ptr }
    }

    /// Whether this is the nil value.
    pub fn is_nil(&self) -> (b: bool)
        ensures
            b == word_is_nil(self@),
    {
        self.ptr == 0
    }

    /// Whether this is the void value.
    pub fn is_void(&self) -> (b: bool)
        ensures
            b == word_is_void(self@),
    {
        self.ptr == TAG_VOID
    }

    /// Whether this is a pointer to a heap object; nil is not one.
    pub fn is_ptr(&self) -> (b: bool)
        ensures
            b == word_is_ptr(self@),
    {
        (self.ptr & TAG_MASK) == 0 && !self.is_nil()
    }

    /// Whether this is an integer.
    pub fn is_int(&self) -> (b: bool)
        ensures
            b == word_is_int(self@),
    {
        (self.ptr & TAG_INT) != 0
    }

    /// Whether this is a boolean.
    pub fn is_bool(&self) -> (b: bool)
        ensures
            b == word_is_bool(self@),
    {
        (self.ptr & TAG_MASK) == TAG_BOOL
    }

    /// The integer of an integer value.
    pub fn to_int(&self) -> (v: isize)
        requires
            word_is_int(self@),
        ensures
            v == word_int(self@),
    {
        (self.ptr as isize) >> 1isize
    }

    /// The boolean of a boolean value.
    pub fn to_bool(&self) -> (b: bool)
        requires
            word_is_bool(self@),
        ensures
            b == word_bool(self@),
    {
        (self.ptr >> 3usize) != 0
    }

    /// The address of a pointer value.
    pub fn to_ptr(&self) -> (addr: usize)
        requires
            word_is_ptr(self@),
        ensures
            addr == self@,
    {
        self.ptr
    }
}

/// Tagging an integer and reading it back gives the integer.
proof fn lemma_int_roundtrip(v: isize)
    requires
        int_in_range(v),
    ensures
        (((v as usize) << 1usize) | 1usize) & 1usize != 0,
        ((((v as usize) << 1usize) | 1usize) as isize) >> 1isize == v,
{
    let mx = isize::MAX;
    let mn = isize::MIN;
    assert(mn == -mx - 1);
    assert(mn >> 1isize == -(mx >> 1isize) - 1) by (bit_vector)
        requires
            0 <= mx,
            mn == -mx - 1,
    ;
    assert((((v as usize) << 1usize) | 1usize) & 1usize != 0) by (bit_vector);
    assert(((((v as usize) << 1usize) | 1usize) as isize) >> 1isize == v) by (bit_vector)
        requires
            0 <= mx,
            -(mx >> 1isize) - 1 <= v <= mx >> 1isize,
    ;
}

/// A word is of at most one kind: nil, void, pointer, integer or boolean.
pub proof fn lemma_kinds_exclusive(w: usize)
    ensures
        word_is_nil(w) ==> !word_is_void(w) && !word_is_ptr(w) && !word_is_int(w) && !word_is_bool(
            w,
        ),
        word_is_void(w) ==> !word_is_ptr(w) && !word_is_int(w) && !word_is_bool(w),
        word_is_ptr(w) ==> !word_is_int(w) && !word_is_bool(w),
        word_is_int(w) ==> !word_is_bool(w),
{
    assert(w == 0usize ==> w & 7usize == 0usize && w & 1usize == 0usize) by (bit_vector);
    assert(w == 4usize ==> w & 7usize == 4usize && w & 1usize == 0usize) by (bit_vector);
    assert(w & 7usize == 0usize ==> w & 1usize == 0usize) by (bit_vector);
    assert(w & 1usize != 0usize ==> w & 7usize != 2usize) by (bit_vector);
}

/// Integers in range round-trip through a word.
pub proof fn lemma_int_word_roundtrip(v: isize)
    requires
        int_in_range(v),
    ensures
        word_is_int((((v as usize) << 1usize) | 1usize) as usize),
        word_int((((v as usize) << 1usize) | 1usize) as usize) == v,
{
    lemma_int_roundtrip(v);
}

} // verus!
