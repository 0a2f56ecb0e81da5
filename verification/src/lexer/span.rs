//! Location in source code.

use vstd::prelude::*;

verus! {

/// A half-open byte range `[lo, hi)` in the source text.
#[derive(Debug, Clone, Copy)]
pub struct Span {
    pub(crate) lo: usize,
    pub(crate) hi: usize,
}

impl View for Span {
    /// The span as the pair `(lo, hi)` of byte offsets.
    type V = (int, int);

    closed spec fn view(&self) -> (int, int) {
        (self.lo as int, self.hi as int)
    }
}

impl Span {
    /// A span of `size` bytes starting at byte `lo`.
    pub fn new(lo: usize, size: usize) -> (span: Self)
        requires
            lo + size <= usize::MAX,
        ensures
            span@ == (lo as int, lo + size),
    {
        Self { lo, hi: lo + size }
    }

    /// Inclusive start of the span.
    pub fn low(&self) -> (lo: usize)
        ensures
            lo == self@.0,
    {
        self.lo
    }

    /// Exclusive end of the span.
    pub fn high(&self) -> (hi: usize)
        ensures
            hi == self@.1,
    {
        self.hi
    }

    /// Number of bytes covered by the span.
    pub fn size(&self) -> (size: usize)
        requires
            self@.0 <= self@.1,
        ensures
            size == self@.1 - self@.0,
    {
        self.hi - self.lo
    }

    /// The span as a byte range.
    pub fn as_range(&self) -> (range: std::ops::Range<usize>)
        ensures
            range.start == self@.0,
            range.end == self@.1,
    {
        self.lo..self.hi
    }
}

} // verus!
