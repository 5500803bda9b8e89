use vstd::prelude::*;

verus! {

/// A half-open byte range `start..end` within one input's text.
///
/// Nothing here validates the pair. An `end` before its own `start` reads as the empty range at
/// `start`: [`len`](Self::len) saturates to zero, [`is_empty`](Self::is_empty) is true and
/// [`contains`](Self::contains) is false for every offset.
#[derive(Debug, Clone, Copy, PartialEq, Eq, Hash)]
pub struct Span {
    start: usize,
    end: usize,
}

impl Span {
    /// The first byte offset in the range.
    pub closed spec fn start_spec(self) -> usize {
        self.start
    }

    /// The offset one past the last byte in the range.
    pub closed spec fn end_spec(self) -> usize {
        self.end
    }

    /// How many bytes the range covers, zero for an inverted pair.
    pub open spec fn len_spec(self) -> nat {
        if self.end_spec() >= self.start_spec() {
            (self.end_spec() - self.start_spec()) as nat
        } else {
            0
        }
    }

    /// A range from `start` to `end`.
    pub fn new(start: usize, end: usize) -> (span: Self)
        ensures
            span.start_spec() == start,
            span.end_spec() == end,
    {
        Self { start, end }
    }

    /// The empty range at `at` — a caret rather than an underline.
    pub fn empty(at: usize) -> (span: Self)
        ensures
            span.start_spec() == at,
            span.end_spec() == at,
    {
        Self { start: at, end: at }
    }

    /// Returns the first byte offset in the range.
    pub fn start(&self) -> (start: usize)
        ensures
            start == self.start_spec(),
    {
        self.start
    }

    /// Returns the offset one past the last byte in the range.
    pub fn end(&self) -> (end: usize)
        ensures
            end == self.end_spec(),
    {
        self.end
    }

    /// Returns how many bytes the range covers, saturating at zero for an inverted pair.
    pub fn len(&self) -> (len: usize)
        ensures
            len == self.len_spec(),
    {
        self.end.saturating_sub(self.start)
    }

    /// Returns whether the range covers no bytes.
    pub fn is_empty(&self) -> (empty: bool)
        ensures
            empty == (self.end_spec() <= self.start_spec()),
            empty == (self.len_spec() == 0),
    {
        self.end <= self.start
    }

    /// Returns whether `offset` falls inside the half-open range.
    pub fn contains(&self, offset: usize) -> (inside: bool)
        ensures
            inside == (self.start_spec() <= offset && offset < self.end_spec()),
    {
        self.start <= offset && offset < self.end
    }
}

/// An inverted or empty span contains no offset at all, and its length is zero.
pub proof fn law_an_empty_span_contains_nothing(span: Span, offset: usize)
    requires
        span.end_spec() <= span.start_spec(),
    ensures
        span.len_spec() == 0,
        !(span.start_spec() <= offset && offset < span.end_spec()),
{
}

/// A span is its two offsets: two spans with the same start and end are the same span.
pub proof fn lemma_span_is_its_offsets(a: Span, b: Span)
    requires
        a.start_spec() == b.start_spec(),
        a.end_spec() == b.end_spec(),
    ensures
        a == b,
{
}

} // verus!
