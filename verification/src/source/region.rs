use vstd::prelude::*;
use vstd::string::StringSliceAdditionalSpecFns;
use vstd::utf8::*;

use super::line::{Line, Lines};
use super::model::{
    column_at, count_breaks, is_atom_boundary, is_line_start, lemma_count_breaks_monotone, lemma_line_end,
    lemma_line_start_of, line_number_at, line_start_of,
};
use super::Position;
use crate::diagnostic::Span;
use crate::text::{lemma_ascii_is_an_atom, lemma_boundary_of_subrange, slice};

verus! {

/// The last line a region is drawn on: the line its end is on, unless the end sits at column 1 of
/// a later line — a span that swallowed its own trailing newline has nothing there to draw.
pub open spec fn drawn_last_line(start: Position, end: Position) -> u64 {
    if end.line_spec() > start.line_spec() && end.column_spec() == 1 {
        (end.line_spec() - 1) as u64
    } else {
        end.line_spec()
    }
}

/// A span resolved against the text it points into.
///
/// Produced by [`Source::resolve`](crate::Source::resolve), which is where the clamping that makes
/// it total is stated.
#[derive(Debug, Clone, Copy, PartialEq, Eq, Hash)]
pub struct Region<'a> {
    source: &'a str,
    span: Span,
    start: Position,
    end: Position,
    first_line_start: usize,
    last_line: u64,
}

impl<'a> Region<'a> {
    #[verifier::type_invariant]
    spec fn resolved(self) -> bool {
        let b = self.source.spec_bytes();
        &&& b.len() <= isize::MAX
        &&& self.span.start_spec() <= self.span.end_spec()
        &&& is_atom_boundary(b, self.span.start_spec() as int)
        &&& is_atom_boundary(b, self.span.end_spec() as int)
        &&& self.start.is_at(b, self.span.start_spec() as int)
        &&& self.end.is_at(b, self.span.end_spec() as int)
        &&& self.first_line_start == line_start_of(b, self.span.start_spec() as int)
        &&& self.last_line == drawn_last_line(self.start, self.end)
    }

    /// The bytes of the text the region is in.
    pub closed spec fn bytes_spec(self) -> Seq<u8> {
        self.source.spec_bytes()
    }

    /// The byte range the region covers, after clamping.
    pub closed spec fn span_spec(self) -> Span {
        self.span
    }

    /// Where the region begins.
    pub closed spec fn start_spec(self) -> Position {
        self.start
    }

    /// Where the region ends, one past its last byte.
    pub closed spec fn end_spec(self) -> Position {
        self.end
    }

    /// The last line the region is drawn on.
    pub closed spec fn last_line_spec(self) -> u64 {
        self.last_line
    }

    pub(crate) fn new(
        source: &'a str,
        span: Span,
        start: Position,
        end: Position,
        first_line_start: usize,
        last_line: u64,
    ) -> (region: Self)
        requires
            source.spec_bytes().len() <= isize::MAX,
            span.start_spec() <= span.end_spec(),
            is_atom_boundary(source.spec_bytes(), span.start_spec() as int),
            is_atom_boundary(source.spec_bytes(), span.end_spec() as int),
            start.is_at(source.spec_bytes(), span.start_spec() as int),
            end.is_at(source.spec_bytes(), span.end_spec() as int),
            first_line_start == line_start_of(source.spec_bytes(), span.start_spec() as int),
            last_line == drawn_last_line(start, end),
        ensures
            region.bytes_spec() == source.spec_bytes(),
            region.span_spec() == span,
            region.start_spec() == start,
            region.end_spec() == end,
            region.last_line_spec() == last_line,
    {
        Self { source, span, start, end, first_line_start, last_line }
    }

    /// Returns the byte range the region covers, after clamping.
    pub fn span(&self) -> (span: Span)
        ensures
            span == self.span_spec(),
    {
        self.span
    }

    /// Returns where the region begins.
    pub fn start(&self) -> (start: Position)
        ensures
            start == self.start_spec(),
    {
        self.start
    }

    /// Returns where the region ends, one past its last byte.
    pub fn end(&self) -> (end: Position)
        ensures
            end == self.end_spec(),
    {
        self.end
    }

    /// Returns the covered text: exactly the text re-sliced by [`span`](Self::span).
    pub fn text(&self) -> (text: &'a str)
        ensures
            text.spec_bytes() == self.bytes_spec().subrange(
                self.span_spec().start_spec() as int,
                self.span_spec().end_spec() as int,
            ),
    {
        proof {
            use_type_invariant(self);
        }
        slice(self.source, self.span.start(), self.span.end())
    }

    /// Returns whether the region is drawn across more than one line.
    pub fn is_multiline(&self) -> (multiline: bool)
        ensures
            multiline == (self.last_line_spec() > self.start_spec().line_spec()),
    {
        self.last_line > self.start.line()
    }

    /// Returns how many lines [`lines`](Self::lines) will yield: at least one, more than one
    /// exactly when the region is multi-line, and ending on the line the region's end is on, or
    /// the one before when the end stands at the start of a later line.
    pub fn line_count(&self) -> (count: u64)
        ensures
            count == self.last_line_spec() - self.start_spec().line_spec() + 1,
            self.start_spec().line_spec() <= self.last_line_spec(),
            count >= 1,
            self.last_line_spec() == drawn_last_line(self.start_spec(), self.end_spec()),
            (count > 1) == (self.last_line_spec() > self.start_spec().line_spec()),
    {
        proof {
            use_type_invariant(self);
            lemma_count_breaks_monotone(
                self.source.spec_bytes(),
                self.span.start_spec() as int,
                self.span.end_spec() as int,
            );
        }
        self.last_line - self.start.line() + 1
    }

    /// Iterates the lines the region is drawn on, each with the part of it that falls there.
    pub fn lines(&self) -> (lines: RegionLines<'a>)
        ensures
            lines.bytes_spec() == self.bytes_spec(),
            lines.span_spec() == self.span_spec(),
            lines.within(),
            lines.remaining_spec() == self.last_line_spec() - self.start_spec().line_spec() + 1,
            lines.lines_spec().next_spec() == line_start_of(
                self.bytes_spec(),
                self.span_spec().start_spec() as int,
            ),
            !lines.lines_spec().done_spec(),
            lines.next_number_spec() == self.start_spec().line_spec(),
    {
        proof {
            use_type_invariant(self);
            let b = self.source.spec_bytes();
            lemma_line_start_of(b, self.span.start_spec() as int);
            lemma_count_breaks_monotone(b, self.span.end_spec() as int, b.len() as int);
        }
        let remaining = self.line_count();
        RegionLines {
            lines: Lines::resume(self.source, self.first_line_start),
            span: self.span,
            remaining,
        }
    }
}

/// One line of a [`Region`], with the part of the region that falls on it.
#[derive(Debug, Clone, Copy, PartialEq, Eq, Hash)]
pub struct RegionLine<'a> {
    line: Line<'a>,
    covered: Span,
}

impl<'a> RegionLine<'a> {
    #[verifier::type_invariant]
    spec fn inside(self) -> bool {
        let line_bytes = self.line.bytes_spec();
        let base = self.line.start_spec();
        &&& base <= self.covered.start_spec() <= self.covered.end_spec() <= self.line.end_spec()
        &&& valid_utf8(line_bytes)
        &&& is_char_boundary(line_bytes, self.covered.start_spec() - base)
        &&& is_char_boundary(line_bytes, self.covered.end_spec() - base)
    }

    /// The line.
    pub closed spec fn line_spec(self) -> Line<'a> {
        self.line
    }

    /// The byte range of the region that falls on the line.
    pub closed spec fn covered_spec(self) -> Span {
        self.covered
    }

    /// Returns the line.
    pub fn line(&self) -> (line: Line<'a>)
        ensures
            line == self.line_spec(),
    {
        self.line
    }

    /// Returns the byte range of the region that falls on this line, clipped to its content.
    pub fn covered(&self) -> (covered: Span)
        ensures
            covered == self.covered_spec(),
    {
        self.covered
    }

    /// Returns the text [`covered`](Self::covered) names.
    pub fn covered_text(&self) -> (text: &'a str)
        ensures
            text.spec_bytes() == self.line_spec().bytes_spec().subrange(
                self.covered_spec().start_spec() - self.line_spec().start_spec(),
                self.covered_spec().end_spec() - self.line_spec().start_spec(),
            ),
    {
        proof {
            use_type_invariant(self);
        }
        let base = self.line.span().start();
        slice(self.line.text(), self.covered.start() - base, self.covered.end() - base)
    }

    /// Returns the 1-based character columns the region occupies on this line, as `start..end`.
    pub fn columns(&self) -> (columns: core::ops::Range<u64>)
        ensures
            columns.start == self.line_spec().column_at_spec(
                self.covered_spec().start_spec() as int,
            ),
            columns.end == self.line_spec().column_at_spec(self.covered_spec().end_spec() as int),
    {
        self.line.column_at(self.covered.start())..self.line.column_at(self.covered.end())
    }
}

/// The part of `span` that falls on `line`'s content, clipped at both ends of it.
pub open spec fn clip_start(line: Line, span: Span) -> int {
    let start = if span.start_spec() >= line.start_spec() {
        span.start_spec() as int
    } else {
        line.start_spec() as int
    };
    if start <= line.end_spec() {
        start
    } else {
        line.end_spec()
    }
}

/// The end of the part of `span` that falls on `line`'s content.
pub open spec fn clip_end(line: Line, span: Span) -> int {
    let end = if span.end_spec() <= line.end_spec() {
        span.end_spec() as int
    } else {
        line.end_spec()
    };
    if end >= clip_start(line, span) {
        end
    } else {
        clip_start(line, span)
    }
}

/// The region's share of one line: clipped at BOTH ends of the line's content, because a region
/// can begin inside the break that ended a line.
pub(crate) fn clip<'a>(line: Line<'a>, span: Span, Ghost(bytes): Ghost<Seq<u8>>) -> (clipped:
    RegionLine<'a>)
    requires
        valid_utf8(bytes),
        line.is_line_of(bytes),
        span.start_spec() <= bytes.len(),
        span.end_spec() <= bytes.len(),
        is_char_boundary(bytes, span.start_spec() as int),
        is_char_boundary(bytes, span.end_spec() as int),
    ensures
        clipped.line_spec() == line,
        clipped.covered_spec().start_spec() == clip_start(line, span),
        clipped.covered_spec().end_spec() == clip_end(line, span),
{
    let content = line.span();
    let start = if span.start() >= content.start() {
        span.start()
    } else {
        content.start()
    };
    let start = if start <= content.end() {
        start
    } else {
        content.end()
    };
    let end = if span.end() <= content.end() {
        span.end()
    } else {
        content.end()
    };
    let end = if end >= start {
        end
    } else {
        start
    };
    proof {
        let ls = line.start_spec() as int;
        let le = line.end_spec();
        lemma_line_end(bytes, ls);
        is_char_boundary_start_end_of_seq(bytes);
        if ls > 0 {
            lemma_ascii_is_an_atom(bytes, ls - 1);
        }
        if le < bytes.len() {
            lemma_ascii_is_an_atom(bytes, le);
        }
        lemma_boundary_of_subrange(bytes, ls, le, start as int);
        lemma_boundary_of_subrange(bytes, ls, le, end as int);
    }
    RegionLine { line, covered: Span::new(start, end) }
}

/// How many lines a walk over a source's lines has still to hand out: none once it is done, and
/// otherwise the line it stands at and one for every break after it.
pub open spec fn lines_left(lines: Lines) -> int {
    if lines.done_spec() {
        0
    } else {
        1 + count_breaks(lines.bytes_spec(), lines.bytes_spec().len() as int) - count_breaks(
            lines.bytes_spec(),
            lines.next_spec() as int,
        )
    }
}

/// The iterator [`Region::lines`] returns.
#[derive(Debug)]
pub struct RegionLines<'a> {
    lines: Lines<'a>,
    span: Span,
    remaining: u64,
}

impl<'a> RegionLines<'a> {
    /// The region's ends are character boundaries of the text being walked, and the walk
    /// underneath has a line left for every line the region has still to draw.
    pub open spec fn within(self) -> bool {
        let b = self.bytes_spec();
        &&& self.remaining_spec() <= lines_left(self.lines_spec())
        &&& self.span_spec().start_spec() <= b.len()
        &&& self.span_spec().end_spec() <= b.len()
        &&& is_char_boundary(b, self.span_spec().start_spec() as int)
        &&& is_char_boundary(b, self.span_spec().end_spec() as int)
    }

    /// The bytes being walked.
    pub closed spec fn bytes_spec(self) -> Seq<u8> {
        self.lines.bytes_spec()
    }

    /// The region's byte range.
    pub closed spec fn span_spec(self) -> Span {
        self.span
    }

    /// How many lines are still to come.
    pub closed spec fn remaining_spec(self) -> u64 {
        self.remaining
    }

    /// The walk over the source's lines underneath.
    pub closed spec fn lines_spec(self) -> Lines<'a> {
        self.lines
    }

    /// The number of the line the walk stands at, which is the next one yielded.
    pub open spec fn next_number_spec(self) -> int {
        line_number_at(self.bytes_spec(), self.lines_spec().next_spec() as int) as int
    }

    /// Returns the next line the region is drawn on, or `None` after the last.
    pub fn next(&mut self) -> (found: Option<RegionLine<'a>>)
        requires
            old(self).within(),
        ensures
            final(self).within(),
            final(self).bytes_spec() == old(self).bytes_spec(),
            final(self).span_spec() == old(self).span_spec(),
            found.is_some() == (old(self).remaining_spec() > 0),
            found matches Some(line) ==> {
                &&& old(self).remaining_spec() > 0
                &&& final(self).remaining_spec() == old(self).remaining_spec() - 1
                &&& line.line_spec().number_spec() == old(self).next_number_spec()
                &&& final(self).remaining_spec() > 0 ==> final(self).next_number_spec()
                    == old(self).next_number_spec() + 1
                &&& line.line_spec().is_line_of(old(self).bytes_spec())
                &&& line.line_spec().start_spec() == old(self).lines_spec().next_spec()
                &&& line.covered_spec().start_spec() == clip_start(
                    line.line_spec(),
                    old(self).span_spec(),
                )
                &&& line.covered_spec().end_spec() == clip_end(
                    line.line_spec(),
                    old(self).span_spec(),
                )
            },
    {
        if self.remaining == 0 {
            return None;
        }
        self.remaining = self.remaining - 1;
        let line = match self.lines.next() {
            Some(line) => line,
            None => return None,
        };
        proof {
            use_type_invariant(&self.lines);
        }
        Some(clip(line, self.span, Ghost(self.lines.bytes_spec())))
    }
}

} // verus!
