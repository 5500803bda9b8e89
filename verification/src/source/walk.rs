use vstd::prelude::*;
use vstd::string::StringSliceAdditionalSpecFns;
use vstd::utf8::*;

use super::line::{scan, Line};
use super::model::{
    drawn_end, break_ends_at, break_start_before, count_breaks, is_atom_boundary, lemma_count_breaks_monotone,
    lemma_line_end, lemma_line_start_of, line_end, line_number_at, line_start_of, splits_crlf,
};
use super::region::{clip, clip_end, clip_start, RegionLine};
use super::{
    advance_to, cursor_at, resolved_end, resolved_start, start_cursor, Cursor, Position,
    Source,
};
use crate::diagnostic::Span;
use crate::text::lemma_valid;

verus! {

/// Resolves a set of spans against one text in a single forward walk.
///
/// [`Source::resolve`] starts at the top of the text every time; this carries the walk's position
/// between calls and keeps the line it is standing on, so spans visited in offset order cost one
/// pass. A span behind the walk restarts it from the top: slower, never wrong.
pub struct Walk<'a> {
    source: Source<'a>,
    cursor: Cursor,
    line: Option<Line<'a>>,
}

/// Where a span begins, the first line it is drawn on, and whether it is drawn on any other.
#[derive(Debug, Clone, Copy)]
pub struct Opening<'a> {
    at: Position,
    line: RegionLine<'a>,
    span: Span,
    reaches_another_line: bool,
}

impl<'a> Opening<'a> {
    /// Where the span begins.
    pub closed spec fn at_spec(self) -> Position {
        self.at
    }

    /// The first line the span is drawn on, and the part of it covered.
    pub closed spec fn line_spec(self) -> RegionLine<'a> {
        self.line
    }

    /// The span, resolved.
    pub closed spec fn span_spec(self) -> Span {
        self.span
    }

    /// Whether the span is drawn on a later line too.
    pub closed spec fn reaches_spec(self) -> bool {
        self.reaches_another_line
    }

    /// Returns where the span begins.
    pub fn at(&self) -> (at: Position)
        ensures
            at == self.at_spec(),
    {
        self.at
    }

    /// Returns the first line the span is drawn on, with the part of it that falls there.
    pub fn line(&self) -> (line: RegionLine<'a>)
        ensures
            line == self.line_spec(),
    {
        self.line
    }

    /// Returns the byte range the span resolved to.
    pub fn span(&self) -> (span: Span)
        ensures
            span == self.span_spec(),
    {
        self.span
    }

    /// Returns whether the span is drawn on a line after [`line`](Self::line).
    pub fn reaches_another_line(&self) -> (reaches: bool)
        ensures
            reaches == self.reaches_spec(),
    {
        self.reaches_another_line
    }

    /// This is what opening `span` in `bytes` answers.
    pub open spec fn opens(self, bytes: Seq<u8>, span: Span) -> bool {
        let start = resolved_start(bytes, span);
        let end = resolved_end(bytes, span);
        let line = self.line_spec().line_spec();
        &&& self.span_spec().start_spec() == start
        &&& self.span_spec().end_spec() == end
        &&& self.at_spec().is_at(bytes, start)
        &&& line.is_line_of(bytes)
        &&& line.start_spec() == line_start_of(bytes, start)
        &&& self.line_spec().covered_spec().start_spec() == clip_start(line, self.span_spec())
        &&& self.line_spec().covered_spec().end_spec() == clip_end(line, self.span_spec())
        &&& self.reaches_spec() == (end > line.end_spec() + match line.break_spec() {
            Some(found) => found.byte_len_spec() as int,
            None => 0,
        })
    }
}

impl<'a> Walk<'a> {
    /// The text being walked.
    pub closed spec fn source_spec(self) -> Source<'a> {
        self.source
    }

    /// The offset the walk has got to.
    pub closed spec fn offset_spec(self) -> usize {
        self.cursor.offset
    }

    /// The cursor stands where it says, and a remembered line is a line of the text.
    pub closed spec fn wf(self) -> bool {
        &&& cursor_at(self.source.bytes_spec(), self.cursor)
        &&& self.line matches Some(line) ==> line.is_line_of(self.source.bytes_spec())
    }

    /// A walk over `source`, positioned at the top of it.
    pub fn new(source: Source<'a>) -> (walk: Self)
        ensures
            walk.wf(),
            walk.source_spec() == source,
            walk.offset_spec() == 0,
    {
        Self { source, cursor: start_cursor(), line: None }
    }

    /// Returns where `span` starts, the first line it is drawn on, and whether it is drawn on
    /// another — what [`Source::resolve`] says of the same span, from wherever the walk has got to.
    pub fn open(&mut self, span: Span) -> (opening: Opening<'a>)
        requires
            old(self).wf(),
        ensures
            final(self).wf(),
            final(self).source_spec() == old(self).source_spec(),
            final(self).offset_spec() == opening.span_spec().start_spec(),
            opening.opens(old(self).source_spec().bytes_spec(), span),
            opening.span_spec().start_spec() <= opening.span_spec().end_spec() <= old(self).source_spec().bytes_spec().len(),
            is_atom_boundary(old(self).source_spec().bytes_spec(), opening.span_spec().start_spec() as int),
            is_atom_boundary(old(self).source_spec().bytes_spec(), opening.span_spec().end_spec() as int),
    {
        let ghost b = self.source.bytes_spec();
        let clamped = self.source.clamped(span);
        if clamped.start() < self.cursor.offset {
            self.cursor = start_cursor();
            self.line = None;
        }
        let (at, cursor) = self.source.position_from(self.cursor, clamped.start());
        self.cursor = cursor;
        let line = self.standing_on(cursor);
        let _ = self.source.text();
        proof {
            lemma_line_end(b, line.start_spec() as int);
        }
        let content = line.span().end();
        let reaches_another_line = match line.line_break() {
            Some(ended) => clamped.end() > content + ended.byte_len(),
            None => clamped.end() > content,
        };
        Opening { at, line: clip(line, clamped, Ghost(b)), span: clamped, reaches_another_line }
    }

    /// Returns the LAST line `opening`'s span is drawn on, with the part of it that falls there.
    ///
    /// Forward from wherever the walk has got to; a span behind the cursor restarts it.
    pub fn close(&mut self, opening: &Opening<'a>) -> (closing: RegionLine<'a>)
        requires
            old(self).wf(),
            opening.span_spec().start_spec() <= opening.span_spec().end_spec() <= old(self).source_spec().bytes_spec().len(),
            is_atom_boundary(old(self).source_spec().bytes_spec(), opening.span_spec().start_spec() as int),
            is_atom_boundary(old(self).source_spec().bytes_spec(), opening.span_spec().end_spec() as int),
        ensures
            final(self).wf(),
            final(self).source_spec() == old(self).source_spec(),
            closing.line_spec().is_line_of(old(self).source_spec().bytes_spec()),
            closing.covered_spec().start_spec() == clip_start(closing.line_spec(), opening.span_spec()),
            closing.covered_spec().end_spec() == clip_end(closing.line_spec(), opening.span_spec()),
            old(self).offset_spec() <= opening.span_spec().start_spec() ==> closing.line_spec().start_spec()
                == line_start_of(
                old(self).source_spec().bytes_spec(),
                drawn_end(
                    old(self).source_spec().bytes_spec(),
                    old(self).offset_spec() as int,
                    opening.span_spec().end_spec() as int,
                ),
            ),
    {
        let ghost b = self.source.bytes_spec();
        let span = opening.span;
        if span.end() < self.cursor.offset {
            self.cursor = start_cursor();
            self.line = None;
        }
        let text = self.source.text();
        let cursor = advance_to(text.as_bytes(), self.cursor, span.end(), true);
        self.cursor = cursor;
        let line = self.standing_on(cursor);
        clip(line, span, Ghost(b))
    }

    /// The line `cursor` stands on, scanned once and then remembered.
    fn standing_on(&mut self, cursor: Cursor) -> (line: Line<'a>)
        requires
            old(self).wf(),
            cursor_at(old(self).source_spec().bytes_spec(), cursor),
            old(self).cursor == cursor,
        ensures
            final(self).wf(),
            final(self).source_spec() == old(self).source_spec(),
            final(self).cursor == old(self).cursor,
            line.is_line_of(old(self).source_spec().bytes_spec()),
            line.start_spec() == cursor.line_start,
    {
        let ghost b = self.source.bytes_spec();
        let text = self.source.text();
        proof {
            lemma_line_start_of(b, cursor.offset as int);
        }
        match self.line {
            Some(line) => {
                if line.span().start() == cursor.line_start {
                    return line;
                }
            },
            None => {},
        }
        let scanned = scan(text, cursor.line_start, cursor.line);
        self.line = Some(scanned);
        scanned
    }
}

} // verus!
