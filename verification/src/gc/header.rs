//! Per-object bookkeeping of the garbage collector.
//!
//! Both counters are 32-bit words whose most significant bit is a flag:
//! the strong count carries the *dropped* flag, the in-heap count carries
//! the *marked* flag. The remaining 31 bits hold the count itself.

use vstd::prelude::*;

verus! {

/// The flag bit of a packed counter.
pub const MARK_MASK: u32 = 0x8000_0000u32;

/// The count bits of a packed counter.
pub const COUNT_MASK: u32 = 0x7fff_ffffu32;

/// The largest count a packed counter may reach.
pub const MAX_COUNT: u32 = 0x7fff_ffffu32;

/// The two packed words of a [`GcHeader`].
pub struct HeaderView {
    pub strong_raw: u32,
    pub in_heap_raw: u32,
}

impl HeaderView {
    /// Number of references to the object (external and internal).
    pub open spec fn strong(self) -> nat {
        (self.strong_raw & COUNT_MASK) as nat
    }

    /// Whether the object's payload has been dropped.
    pub open spec fn dropped(self) -> bool {
        self.strong_raw & MARK_MASK != 0
    }

    /// Number of references to the object found inside the heap.
    pub open spec fn in_heap(self) -> nat {
        (self.in_heap_raw & COUNT_MASK) as nat
    }

    /// Whether the object was marked reachable.
    pub open spec fn marked(self) -> bool {
        self.in_heap_raw & MARK_MASK != 0
    }

    /// A packed word is its flag bit plus its count.
    pub open spec fn packed(flag: bool, count: nat) -> int {
        (if flag { 0x8000_0000int } else { 0int }) + count
    }

    /// The object is a root: it has more references than the heap holds.
    pub open spec fn rooted(self) -> bool {
        Self::packed(self.marked(), self.in_heap()) < Self::packed(self.dropped(), self.strong())
    }
}

/// Packed reference counters and flags of a heap object.
pub struct GcHeader {
    strong_count: u32,
    in_heap_count: u32,
}

/// A packed word is the sum of its flag bit and its count bits.
proof fn lemma_packed(x: u32)
    ensures
        x as int == HeaderView::packed(x & MARK_MASK != 0, (x & COUNT_MASK) as nat),
        (x & COUNT_MASK) <= MAX_COUNT,
{
    assert(x == (x & MARK_MASK) + (x & COUNT_MASK)) by (bit_vector);
    assert((x & MARK_MASK) == 0 || (x & MARK_MASK) == 0x8000_0000u32) by (bit_vector);
    assert((x & COUNT_MASK) <= 0x7fff_ffffu32) by (bit_vector);
}

/// Setting a new count below the flag bit keeps the flag and stores the count.
proof fn lemma_repack(x: u32, count: u32)
    requires
        count <= MAX_COUNT,
    ensures
        ((x & MARK_MASK) | count) & MARK_MASK == x & MARK_MASK,
        ((x & MARK_MASK) | count) & COUNT_MASK == count,
{
    assert(((x & 0x8000_0000u32) | count) & 0x8000_0000u32 == x & 0x8000_0000u32) by (bit_vector)
        requires
            count <= 0x7fff_ffffu32,
    ;
    assert(((x & 0x8000_0000u32) | count) & 0x7fff_ffffu32 == count) by (bit_vector)
        requires
            count <= 0x7fff_ffffu32,
    ;
}

/// A full count carries into the flag bit: the count wraps to zero and the
/// flag is set.
proof fn lemma_carry(x: u32)
    requires
        x & COUNT_MASK == MAX_COUNT,
    ensures
        ((x & MARK_MASK) | 0x8000_0000u32) & COUNT_MASK == 0,
        ((x & MARK_MASK) | 0x8000_0000u32) & MARK_MASK != 0,
{
    assert(((x & 0x8000_0000u32) | 0x8000_0000u32) & 0x7fff_ffffu32 == 0) by (bit_vector);
    assert(((x & 0x8000_0000u32) | 0x8000_0000u32) & 0x8000_0000u32 != 0) by (bit_vector);
}

impl View for GcHeader {
    type V = HeaderView;

    closed spec fn view(&self) -> HeaderView {
        HeaderView { strong_raw: self.strong_count, in_heap_raw: self.in_heap_count }
    }
}

impl GcHeader {
    /// A header with both counters zero and both flags clear.
    pub fn new() -> (header: Self)
        ensures
            header@.strong() == 0,
            !header@.dropped(),
            header@.in_heap() == 0,
            !header@.marked(),
            header@.in_heap_raw == 0,
    {
        proof {
            assert(0u32 & MARK_MASK == 0) by (bit_vector);
            assert(0u32 & COUNT_MASK == 0) by (bit_vector);
        }
        GcHeader { strong_count: 0, in_heap_count: 0 }
    }

    /// Count one more reference; the dropped flag is kept.
    pub fn incr_strong(&mut self)
        requires
            old(self)@.strong() + 1 != MAX_COUNT,
        ensures
            final(self)@.in_heap_raw == old(self)@.in_heap_raw,
            old(self)@.strong() < MAX_COUNT ==> final(self)@.strong() == old(self)@.strong() + 1
                && final(self)@.dropped() == old(self)@.dropped(),
            old(self)@.strong() == MAX_COUNT ==> final(self)@.strong() == 0
                && final(self)@.dropped(),
    {
        let mark_and_count = self.strong_count;
        proof {
            lemma_packed(mark_and_count);
        }
        let count = (mark_and_count & COUNT_MASK) + 1;
        let dropped_flag = mark_and_count & MARK_MASK;
        if count == MAX_COUNT {
            // unreachable under the precondition
            assert(false);
        }
        proof {
            if count <= MAX_COUNT {
                lemma_repack(mark_and_count, count);
            } else {
                lemma_carry(mark_and_count);
            }
        }
        self.strong_count = dropped_flag | count;
    }

    /// Count one reference less; the dropped flag is kept.
    pub fn decr_strong(&mut self)
        requires
            old(self)@.strong() > 0,
        ensures
            final(self)@.in_heap_raw == old(self)@.in_heap_raw,
            final(self)@.strong() == old(self)@.strong() - 1,
            final(self)@.dropped() == old(self)@.dropped(),
    {
        let mark_and_count = self.strong_count;
        proof {
            lemma_packed(mark_and_count);
        }
        let count = (mark_and_count & COUNT_MASK) - 1;
        let dropped_flag = mark_and_count & MARK_MASK;
        proof {
            lemma_repack(mark_and_count, count);
        }
        self.strong_count = dropped_flag | count;
    }

    /// Count one more reference from inside the heap; the mark is kept.
    pub fn incr_in_heap(&mut self)
        requires
            old(self)@.in_heap() + 1 != MAX_COUNT,
        ensures
            final(self)@.strong_raw == old(self)@.strong_raw,
            old(self)@.in_heap() < MAX_COUNT ==> final(self)@.in_heap() == old(self)@.in_heap() + 1
                && final(self)@.marked() == old(self)@.marked(),
            old(self)@.in_heap() == MAX_COUNT ==> final(self)@.in_heap() == 0
                && final(self)@.marked(),
    {
        let mark_and_count = self.in_heap_count;
        proof {
            lemma_packed(mark_and_count);
        }
        let count = (mark_and_count & COUNT_MASK) + 1;
        let marked_flag = mark_and_count & MARK_MASK;
        if count == MAX_COUNT {
            assert(false);
        }
        proof {
            if count <= MAX_COUNT {
                lemma_repack(mark_and_count, count);
            } else {
                lemma_carry(mark_and_count);
            }
        }
        self.in_heap_count = marked_flag | count;
    }

    /// The strong count, without the dropped flag.
    pub(crate) fn strong(&self) -> (count: u32)
        ensures
            count == self@.strong(),
    {
        self.strong_count & COUNT_MASK
    }

    /// Whether the payload has been dropped.
    pub fn is_dropped(&self) -> (dropped: bool)
        ensures
            dropped == self@.dropped(),
    {
        self.strong_count & MARK_MASK != 0
    }

    /// Flag the payload as dropped; the strong count is kept.
    pub fn set_dropped(&mut self)
        ensures
            final(self)@.dropped(),
            final(self)@.strong() == old(self)@.strong(),
            final(self)@.in_heap_raw == old(self)@.in_heap_raw,
    {
        let x = self.strong_count;
        proof {
            assert((x | 0x8000_0000u32) & 0x8000_0000u32 != 0) by (bit_vector);
            assert((x | 0x8000_0000u32) & 0x7fff_ffffu32 == x & 0x7fff_ffffu32) by (bit_vector);
        }
        self.strong_count = x | MARK_MASK;
    }

    /// Clear the in-heap count and the mark.
    pub fn reset_in_heap(&mut self)
        ensures
            final(self)@.in_heap_raw == 0,
            final(self)@.in_heap() == 0,
            !final(self)@.marked(),
            final(self)@.strong_raw == old(self)@.strong_raw,
    {
        proof {
            assert(0u32 & MARK_MASK == 0) by (bit_vector);
            assert(0u32 & COUNT_MASK == 0) by (bit_vector);
        }
        self.in_heap_count = 0;
    }

    /// Whether the object was marked reachable.
    pub fn is_marked(&self) -> (marked: bool)
        ensures
            marked == self@.marked(),
    {
        (self.in_heap_count & MARK_MASK) != 0
    }

    /// Mark the object reachable; the in-heap count is kept.
    pub fn mark(&mut self)
        ensures
            final(self)@.marked(),
            final(self)@.in_heap() == old(self)@.in_heap(),
            final(self)@.strong_raw == old(self)@.strong_raw,
    {
        let x = self.in_heap_count;
        proof {
            assert((x | 0x8000_0000u32) & 0x8000_0000u32 != 0) by (bit_vector);
            assert((x | 0x8000_0000u32) & 0x7fff_ffffu32 == x & 0x7fff_ffffu32) by (bit_vector);
        }
        self.in_heap_count = x | MARK_MASK;
    }

    /// Rebuild the in-heap word from its mark flag and its count: both are
    /// kept, so the word is unchanged. (Clearing the mark is left to
    /// [`GcHeader::reset_in_heap`], which clears the whole word.)
    pub fn unmark(&mut self)
        ensures
            final(self)@ == old(self)@,
    {
        let mark_and_count = self.in_heap_count;
        let count = mark_and_count & COUNT_MASK;
        let marked_flag = mark_and_count & MARK_MASK;
        proof {
            assert((mark_and_count & 0x8000_0000u32) | ((mark_and_count & 0x7fff_ffffu32)
                & !0x8000_0000u32) == mark_and_count) by (bit_vector);
        }
        self.in_heap_count = marked_flag | count & !MARK_MASK;
    }

    /// Whether the object has references from outside the heap: the packed
    /// in-heap word is below the packed strong word.
    pub fn is_rooted(&self) -> (rooted: bool)
        ensures
            rooted == self@.rooted(),
    {
        proof {
            lemma_packed(self.strong_count);
            lemma_packed(self.in_heap_count);
        }
        self.in_heap_count < self.strong_count
    }
}

} // verus!
