//! Regions of source text, and the pair of regions that delimits a group of
//! tokens.

use vstd::prelude::*;

verus! {

/// A region of source text: the bytes from `lo` up to `hi`.
#[derive(Clone, Copy, Debug, PartialEq, Eq)]
pub struct Span {
    pub lo: u32,
    pub hi: u32,
}

impl Span {
    /// The first byte of this region; the region itself where it is empty.
    pub fn first_byte(self) -> (first: Span)
        ensures
            first.lo == self.lo,
            first.hi == if self.lo < self.hi {
                self.lo + 1
            } else {
                self.hi as int
            },
    {
        let next = if self.lo < u32::MAX {
            self.lo + 1
        } else {
            u32::MAX
        };
        Span { lo: self.lo, hi: if next < self.hi {
            next
        } else {
            self.hi
        } }
    }

    /// The last byte of this region; the region itself where it is empty.
    pub fn last_byte(self) -> (last: Span)
        ensures
            last.hi == self.hi,
            last.lo == if self.lo < self.hi {
                self.hi - 1
            } else {
                self.lo as int
            },
    {
        let prev = if self.hi > 0 {
            self.hi - 1
        } else {
            0
        };
        Span { lo: if prev > self.lo {
            prev
        } else {
            self.lo
        }, hi: self.hi }
    }
}

/// The region of a delimited group of tokens, from which the regions of its
/// two delimiters can be had.
#[derive(Clone, Copy, Debug, PartialEq, Eq)]
pub struct DelimSpan {
    inner: Span,
}

impl View for DelimSpan {
    type V = Span;

    closed spec fn view(&self) -> Span {
        self.inner
    }
}

impl DelimSpan {
    /// The delimiters of the group that covers `group`.
    pub fn new(group: Span) -> (delim: Self)
        ensures
            delim@ == group,
    {
        DelimSpan { inner: group }
    }

    /// The region of the whole group, delimiters included.
    pub fn join(&self) -> (span: Span)
        ensures
            span == self@,
    {
        self.inner
    }

    /// The region of the opening delimiter alone.
    pub fn open(&self) -> (span: Span)
        ensures
            span.lo == self@.lo,
            span.hi == if self@.lo < self@.hi {
                self@.lo + 1
            } else {
                self@.hi as int
            },
    {
        self.inner.first_byte()
    }

    /// The region of the closing delimiter alone.
    pub fn close(&self) -> (span: Span)
        ensures
            span.hi == self@.hi,
            span.lo == if self@.lo < self@.hi {
                self@.hi - 1
            } else {
                self@.lo as int
            },
    {
        self.inner.last_byte()
    }
}

} // verus!
