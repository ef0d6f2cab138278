//! Byte-offset spans and values that carry one.

use vstd::prelude::*;

verus! {

/// A half-open range of byte offsets, `start` included and `end` excluded.
#[derive(Debug, Clone, Copy, PartialEq, Eq, Structural, Hash, PartialOrd, Ord)]
pub struct Span {
    start: usize,
    end: usize,
}

impl Span {
    /// First byte offset of the span.
    pub closed spec fn lo(self) -> usize {
        self.start
    }

    /// Byte offset just past the span.
    pub closed spec fn hi(self) -> usize {
        self.end
    }

    /// The span from `start` to `end`.
    pub closed spec fn at(start: usize, end: usize) -> Span {
        Span { start, end }
    }

    #[inline(always)]
    pub fn new(start: usize, end: usize) -> (r: Self)
        ensures
            r == Span::at(start, end),
            r.lo() == start,
            r.hi() == end,
    {
        Self { start, end }
    }

    /// The span that begins where `self` begins and ends where `other` ends.
    #[inline(always)]
    pub fn from_self_to_other(self, other: Self) -> (r: Self)
        ensures
            r.lo() == self.lo(),
            r.hi() == other.hi(),
    {
        Self { start: self.start, end: other.end }
    }

    /// Attaches the span to a value.
    #[inline(always)]
    pub fn over<T>(self, inner: T) -> (r: Spanned<T>)
        ensures
            r == (Spanned { inner, span: self }),
    {
        Spanned { inner, span: self }
    }

    /// A span is determined by its two bounds.
    pub proof fn lemma_bounds(a: Span, start: usize, end: usize)
        ensures
            Span::at(start, end).lo() == start,
            Span::at(start, end).hi() == end,
            a == Span::at(a.lo(), a.hi()),
    {
    }
}

impl Default for Span {
    #[inline(always)]
    fn default() -> (r: Self)
        ensures
            r == Span::at(0, 0),
    {
        Self { start: 0, end: 0 }
    }
}

/// A value together with the span it was read from.
#[derive(Debug, Clone, Copy, PartialEq, Eq, Hash, PartialOrd, Ord)]
pub struct Spanned<T> {
    pub inner: T,
    pub span: Span,
}

impl<T: Default> Default for Spanned<T> {
    /// The default value in the empty span at offset zero.
    #[inline(always)]
    fn default() -> (r: Self)
        ensures
            call_ensures(T::default, (), r.inner),
            r.span == Span::at(0, 0),
    {
        Self { inner: T::default(), span: Span { start: 0, end: 0 } }
    }
}

impl<T> Spanned<T> {
    /// Wraps a value in the empty span at offset zero.
    pub fn default_span(inner: T) -> (r: Self)
        ensures
            r == (Spanned { inner, span: Span::at(0, 0) }),
    {
        Self { inner, span: Span { start: 0, end: 0 } }
    }

    #[inline(always)]
    pub fn new(inner: T, span: Span) -> (r: Self)
        ensures
            r == (Spanned { inner, span }),
    {
        Self { inner, span }
    }
}

} // verus!
