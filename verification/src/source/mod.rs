//! Layer 2: turning byte offsets into something a reader can be pointed at.

pub mod model;
pub mod line;

pub mod region;
pub mod walk;
pub mod laws;

pub use line::{break_at_spec, clamp_into, lemma_prev_boundary_monotone, prev_boundary, Line, LineBreak, Lines};
pub use region::{Region, RegionLine, RegionLines};
pub(crate) use region::{clip, clip_end, clip_start};
pub use walk::{Opening, Walk};
use region::drawn_last_line;

use vstd::prelude::*;
use vstd::string::StringSliceAdditionalSpecFns;
use vstd::utf8::*;

use crate::diagnostic::Span;
use crate::text::{lemma_ascii_is_an_atom, lemma_valid};
use line::{break_at, count_breaks_exec, scan};
use model::{
    drawn_end, break_ends_at, break_start_before, ceil, char_starts, clamp_len, column_at, count_breaks,
    floor, is_atom_boundary, is_break_start, is_ceil, is_floor, is_line_start, lemma_ceil_unique,
    lemma_char_starts_bound, lemma_char_starts_push, lemma_count_breaks_bound,
    lemma_count_breaks_monotone, lemma_floor_unique, lemma_line_end, lemma_line_start_of,
    lemma_next_line_start, lemma_no_breaks_between, line_end, line_number_at, line_start_of, splits_crlf,
};

verus! {

/// Where a resolved span begins: its start moved back to the start of its atom.
pub open spec fn resolved_start(bytes: Seq<u8>, span: Span) -> int {
    floor(bytes, span.start_spec() as int)
}

/// Where a resolved span ends: its end, taken to its start when inverted, moved on past the end of
/// its atom.
pub open spec fn resolved_end(bytes: Seq<u8>, span: Span) -> int {
    ceil(
        bytes,
        if span.end_spec() >= span.start_spec() {
            span.end_spec() as int
        } else {
            span.start_spec() as int
        },
    )
}

/// A byte offset with the line and column it lands on.
///
/// Columns count characters, from 1 — not bytes, which no reader can see, and not display cells,
/// which need a width table and a medium.
#[derive(Debug, Clone, Copy, PartialEq, Eq, Hash, PartialOrd, Ord)]
pub struct Position {
    offset: usize,
    line: u64,
    column: u64,
}

impl Position {
    /// The byte offset.
    pub closed spec fn offset_spec(self) -> usize {
        self.offset
    }

    /// The 1-based line number.
    pub closed spec fn line_spec(self) -> u64 {
        self.line
    }

    /// The 1-based character column.
    pub closed spec fn column_spec(self) -> u64 {
        self.column
    }

    /// This is where `offset` lands in `bytes`.
    pub open spec fn is_at(self, bytes: Seq<u8>, offset: int) -> bool {
        &&& self.offset_spec() == offset
        &&& self.line_spec() == line_number_at(bytes, offset)
        &&& self.column_spec() == column_at(bytes, offset)
    }

    /// A position is where it is at: two positions at the same offset of the same text are the
    /// same position.
    pub proof fn lemma_position_is_where_it_is_at(self, other: Position, bytes: Seq<u8>, offset: int)
        requires
            self.is_at(bytes, offset),
            other.is_at(bytes, offset),
        ensures
            self == other,
    {
    }

    /// Returns the byte offset.
    pub fn offset(&self) -> (offset: usize)
        ensures
            offset == self.offset_spec(),
    {
        self.offset
    }

    /// Returns the 1-based line number.
    pub fn line(&self) -> (line: u64)
        ensures
            line == self.line_spec(),
    {
        self.line
    }

    /// Returns the 1-based character column.
    pub fn column(&self) -> (column: u64)
        ensures
            column == self.column_spec(),
    {
        self.column
    }
}

/// How far a walk over the text has got, what line it is on, and which column of it.
#[derive(Debug, Clone, Copy)]
pub(crate) struct Cursor {
    pub(crate) offset: usize,
    pub(crate) line: u64,
    pub(crate) line_start: usize,
    pub(crate) column: u64,
}

/// The cursor is standing at its offset, and knows the line and column there.
pub(crate) open spec fn cursor_at(bytes: Seq<u8>, cursor: Cursor) -> bool {
    &&& cursor.offset <= bytes.len()
    &&& !splits_crlf(bytes, cursor.offset as int)
    &&& cursor.line == line_number_at(bytes, cursor.offset as int)
    &&& cursor.line_start == line_start_of(bytes, cursor.offset as int)
    &&& cursor.column == column_at(bytes, cursor.offset as int)
}

/// A cursor at the top of the text.
pub(crate) fn start_cursor() -> (cursor: Cursor)
    ensures
        cursor.offset == 0,
        forall|bytes: Seq<u8>| cursor_at(bytes, cursor),
{
    let cursor = Cursor { offset: 0, line: 1, line_start: 0, column: 1 };
    assert forall|bytes: Seq<u8>| cursor_at(bytes, cursor) by {
        assert(bytes.subrange(0, 0) =~= Seq::<u8>::empty());
    }
    cursor
}

/// Walks `bytes` from `cursor` to `target`, counting the line breaks and the characters in
/// between; with `stop_on_a_break`, stops ON a break that ends exactly at `target` rather than
/// crossing it.
///
/// Forward-only, which is why resolving in offset order costs one pass rather than one per offset.
pub(crate) fn advance_to(bytes: &[u8], cursor: Cursor, target: usize, stop_on_a_break: bool) -> (walked: Cursor)
    requires
        bytes@.len() <= isize::MAX,
        cursor_at(bytes@, cursor),
        cursor.offset <= target <= bytes@.len(),
        !splits_crlf(bytes@, target as int),
    ensures
        cursor_at(bytes@, walked),
        walked.offset == if stop_on_a_break {
            drawn_end(bytes@, cursor.offset as int, target as int)
        } else {
            target as int
        },
{
    let ghost b = bytes@;
    let ghost from = cursor.offset as int;
    let mut walked = cursor;
    let mut index = cursor.offset;
    let mut reached = target;
    let mut walking = true;
    while walking && index < target
        invariant
            b == bytes@,
            b.len() <= isize::MAX,
            from <= index <= target <= b.len(),
            !splits_crlf(b, target as int),
            walking ==> cursor_at(b, Cursor { offset: index, ..walked }) && reached == target,
            walking && stop_on_a_break ==> !(break_ends_at(b, index as int) && break_start_before(
                b,
                index as int,
            ) >= from && index == target),
            walking && stop_on_a_break ==> (break_ends_at(b, index as int) && break_start_before(
                b,
                index as int,
            ) >= from ==> index < target),
            !walking ==> stop_on_a_break && cursor_at(b, Cursor { offset: reached, ..walked })
                && reached == drawn_end(b, from, target as int),
        decreases target - index, if walking { 1int } else { 0int },
    {
        proof {
            lemma_count_breaks_bound(b, index as int);
            lemma_line_start_of(b, index as int);
            lemma_char_starts_bound(b.subrange(walked.line_start as int, index as int));
        }
        match break_at(bytes, index) {
            Some(line_break) => {
                let after = index + line_break.byte_len();
                proof {
                    if after > target {
                        assert(splits_crlf(b, target as int));
                    }
                    let i = index as int;
                    assert(is_break_start(b, i)) by {
                        if b[i] == 10u8 && i > 0 {
                            assert(!splits_crlf(b, i));
                        }
                    }
                    assert(count_breaks(b, i + 1) == count_breaks(b, i) + 1);
                    if line_break == LineBreak::CrLf {
                        assert(!is_break_start(b, i + 1));
                        assert(count_breaks(b, i + 2) == count_breaks(b, i + 1));
                    }
                    assert(break_ends_at(b, after as int));
                    assert(b.subrange(after as int, after as int) =~= Seq::<u8>::empty());
                }
                if stop_on_a_break && after == target {
                    proof {
                        assert(break_start_before(b, target as int) == index);
                    }
                    reached = index;
                    walking = false;
                } else {
                    index = after;
                    walked.line = walked.line + 1;
                    walked.line_start = index;
                    walked.column = 1;
                }
            },
            None => {
                proof {
                    lemma_char_starts_push(b, walked.line_start as int, index as int);
                    let byte = b[index as int];
                    assert((byte & 0xc0u8 == 0x80u8) == (0x80u8 <= byte <= 0xbfu8)) by (bit_vector);
                    assert(!break_ends_at(b, index + 1));
                    assert(!is_break_start(b, index as int));
                }
                if !(bytes[index] & 0xc0u8 == 0x80u8) {
                    walked.column = walked.column + 1;
                }
                index = index + 1;
            },
        }
    }
    walked.offset = reached;
    walked
}

/// One input's text, addressed by byte offset.
///
/// Everything here is total: an offset past the end, inside a character or between the two
/// bytes of a CRLF is moved to the nearest place the text can express rather than refused.
#[derive(Debug, Clone, Copy, PartialEq, Eq, Hash)]
pub struct Source<'a> {
    text: &'a str,
}

impl<'a> Source<'a> {
    #[verifier::type_invariant]
    spec fn addressable(self) -> bool {
        self.text.spec_bytes().len() <= isize::MAX
    }

    /// The text's bytes.
    pub closed spec fn bytes_spec(self) -> Seq<u8> {
        self.text.spec_bytes()
    }

    /// The text's characters.
    pub closed spec fn text_spec(self) -> Seq<char> {
        self.text@
    }

    /// Wraps the text of one input.
    ///
    /// No object in Rust is longer than `isize::MAX` bytes, and every count below leans on that.
    pub fn new(text: &'a str) -> (source: Self)
        requires
            text.spec_bytes().len() <= isize::MAX,
        ensures
            source.bytes_spec() == text.spec_bytes(),
            source.text_spec() == text@,
    {
        Self { text }
    }

    /// Returns the text.
    pub fn text(&self) -> (text: &'a str)
        ensures
            text.spec_bytes() == self.bytes_spec(),
            text@ == self.text_spec(),
            valid_utf8(self.bytes_spec()),
            self.bytes_spec().len() <= isize::MAX,
    {
        proof {
            use_type_invariant(self);
            lemma_valid(self.text);
        }
        self.text
    }

    /// Returns the text's length in bytes.
    pub fn len(&self) -> (len: usize)
        ensures
            len == self.bytes_spec().len(),
    {
        proof {
            use_type_invariant(self);
        }
        self.text.len()
    }

    /// Returns whether the text is empty — which is still one (empty) line.
    pub fn is_empty(&self) -> (empty: bool)
        ensures
            empty == (self.bytes_spec().len() == 0),
    {
        proof {
            lemma_valid(self.text);
            vstd::utf8::encode_utf8_decode_utf8(self.text@);
            if self.text@.len() > 0 {
                assert(self.text.spec_bytes().len() > 0);
            }
        }
        self.text.is_empty()
    }

    /// Iterates every line, from the first.
    pub fn lines(&self) -> (lines: Lines<'a>)
        ensures
            lines.bytes_spec() == self.bytes_spec(),
            lines.next_spec() == 0,
            !lines.done_spec(),
    {
        proof {
            use_type_invariant(self);
        }
        Lines::new(self.text)
    }

    /// Returns how many lines the text has: one more than it has breaks.
    pub fn line_count(&self) -> (count: u64)
        ensures
            count == line_number_at(self.bytes_spec(), self.bytes_spec().len() as int),
    {
        proof {
            use_type_invariant(self);
            lemma_count_breaks_bound(self.text.spec_bytes(), self.text.spec_bytes().len() as int);
        }
        1 + count_breaks_exec(self.text.as_bytes(), self.text.len())
    }

    /// Returns line `number`, counting from 1, or `None` past the end.
    pub fn line(&self, number: u64) -> (found: Option<Line<'a>>)
        ensures
            found.is_some() == (1 <= number <= line_number_at(
                self.bytes_spec(),
                self.bytes_spec().len() as int,
            )),
            found matches Some(line) ==> line.is_line_of(self.bytes_spec()) && line.number_spec()
                == number,
    {
        let ghost b = self.text.spec_bytes();
        let mut lines = self.lines();
        proof {
            use_type_invariant(&lines);
        }
        loop
            invariant
                lines.bytes_spec() == b,
                b == self.bytes_spec(),
                lines.walking(),
                !lines.done_spec() ==> (number >= 1 ==> line_number_at(
                    b,
                    lines.next_spec() as int,
                ) <= number),
                lines.done_spec() ==> number == 0 || number > line_number_at(b, b.len() as int),
            decreases if lines.done_spec() {
                0
            } else {
                b.len() - lines.next_spec() + 1
            },
        {
            let ghost before = lines;
            match lines.next() {
                None => {
                    proof {
                        assert(before.done_spec());
                    }
                    return None;
                },
                Some(line) => {
                    proof {
                        use_type_invariant(&lines);
                        lemma_count_breaks_monotone(b, line.start_spec() as int, b.len() as int);
                        lemma_line_end(b, line.start_spec() as int);
                        if line.break_spec().is_none() {
                            lemma_no_breaks_between(b, line.start_spec() as int, b.len() as int);
                        } else {
                            lemma_next_line_start(b, line.start_spec() as int);
                        }
                    }
                    if line.number() == number {
                        return Some(line);
                    }
                },
            }
        }
    }

    /// Returns the line `offset` falls on, clamped into the text.
    pub fn line_at(&self, offset: usize) -> (line: Line<'a>)
        ensures
            line.is_line_of(self.bytes_spec()),
            line.start_spec() == line_start_of(
                self.bytes_spec(),
                floor(self.bytes_spec(), offset as int),
            ),
    {
        proof {
            use_type_invariant(self);
        }
        let at = self.floor(offset);
        let cursor = advance_to(self.text.as_bytes(), start_cursor(), at, false);
        proof {
            lemma_line_start_of(self.text.spec_bytes(), at as int);
        }
        scan(self.text, cursor.line_start, cursor.line)
    }

    /// Returns the line after `line`, or `None` when it ended the text.
    pub fn line_after(&self, line: Line<'a>) -> (next: Option<Line<'a>>)
        requires
            line.is_line_of(self.bytes_spec()),
        ensures
            next.is_some() == line.break_spec().is_some(),
            next matches Some(next) ==> {
                &&& next.is_line_of(self.bytes_spec())
                &&& next.start_spec() == line.end_spec() + line.break_spec().unwrap().byte_len_spec()
                &&& next.number_spec() == line.number_spec() + 1
            },
    {
        proof {
            use_type_invariant(self);
            lemma_line_end(self.text.spec_bytes(), line.start_spec() as int);
        }
        let line_break = match line.line_break() {
            Some(found) => found,
            None => return None,
        };
        proof {
            lemma_next_line_start(self.text.spec_bytes(), line.start_spec() as int);
            lemma_count_breaks_bound(self.text.spec_bytes(), line.start_spec() as int);
        }
        let start = line.span().end() + line_break.byte_len();
        Some(scan(self.text, start, line.number() + 1))
    }

    /// Returns the line and column `offset` lands on.
    ///
    /// Total: an offset past the end answers the end of the text, and one inside a character or a
    /// CRLF answers that atom's own position rather than splitting it.
    pub fn position(&self, offset: usize) -> (at: Position)
        ensures
            at.is_at(self.bytes_spec(), floor(self.bytes_spec(), offset as int)),
    {
        let at = self.floor(offset);
        self.position_from(start_cursor(), at).0
    }

    /// Resolves `offset` starting from a cursor already at or before it.
    pub(crate) fn position_from(&self, cursor: Cursor, offset: usize) -> (found: (Position, Cursor))
        requires
            cursor_at(self.bytes_spec(), cursor),
            cursor.offset <= offset <= self.bytes_spec().len(),
            !splits_crlf(self.bytes_spec(), offset as int),
        ensures
            found.0.is_at(self.bytes_spec(), offset as int),
            cursor_at(self.bytes_spec(), found.1),
            found.1.offset == offset,
    {
        proof {
            use_type_invariant(self);
        }
        let cursor = advance_to(self.text.as_bytes(), cursor, offset, false);
        (Position { offset, line: cursor.line, column: cursor.column }, cursor)
    }

    /// Resolves `span` against the text.
    ///
    /// A span and a text can disagree, so resolution moves the range to the nearest one this text
    /// can express, and [`Region::span`] reports what it settled on: an offset past the end
    /// becomes the end; an end before its own start is taken to that start — before either end is
    /// moved, so an inverted span resolves exactly where the empty span at its start would; and a
    /// boundary inside an atom (a multi-byte character, or a CRLF) moves outwards.
    pub fn resolve(&self, span: Span) -> (region: Region<'a>)
        ensures
            region.bytes_spec() == self.bytes_spec(),
            region.span_spec().start_spec() == resolved_start(self.bytes_spec(), span),
            region.span_spec().end_spec() == resolved_end(self.bytes_spec(), span),
            region.start_spec().is_at(self.bytes_spec(), resolved_start(self.bytes_spec(), span)),
            region.end_spec().is_at(self.bytes_spec(), resolved_end(self.bytes_spec(), span)),
            region.last_line_spec() == drawn_last_line(region.start_spec(), region.end_spec()),
    {
        proof {
            use_type_invariant(self);
        }
        let clamped = self.clamped(span);
        let (start, end) = (clamped.start(), clamped.end());
        let (start_position, cursor) = self.position_from(start_cursor(), start);
        let first_line_start = cursor.line_start;
        let (end_position, _) = self.position_from(cursor, end);
        let last_line = if end_position.line() > start_position.line() && end_position.column()
            == 1 {
            end_position.line() - 1
        } else {
            end_position.line()
        };
        Region::new(self.text, Span::new(start, end), start_position, end_position, first_line_start, last_line)
    }

    /// The byte range `span` resolves to: the inversion repaired first, then each end moved out to
    /// its atom.
    pub(crate) fn clamped(&self, span: Span) -> (clamped: Span)
        ensures
            clamped.start_spec() == resolved_start(self.bytes_spec(), span),
            clamped.end_spec() == resolved_end(self.bytes_spec(), span),
            clamped.start_spec() <= clamped.end_spec() <= self.bytes_spec().len(),
            is_atom_boundary(self.bytes_spec(), clamped.start_spec() as int),
            is_atom_boundary(self.bytes_spec(), clamped.end_spec() as int),
    {
        let requested_end = if span.end() >= span.start() {
            span.end()
        } else {
            span.start()
        };
        let start = self.floor(span.start());
        let end = self.ceil(requested_end);
        Span::new(start, end)
    }

    /// Clamps `offset` into the text and back to the start of whatever atom it lands inside.
    fn floor(&self, offset: usize) -> (at: usize)
        ensures
            at == floor(self.bytes_spec(), offset as int),
            is_floor(self.bytes_spec(), offset as int, at as int),
    {
        let ghost b = self.text.spec_bytes();
        proof {
            use_type_invariant(self);
            lemma_valid(self.text);
        }
        let len = self.text.len();
        let mut at = if offset < len {
            offset
        } else {
            len
        };
        let ghost limit = at as int;
        while !self.text.is_char_boundary(at)
            invariant
                at <= limit == clamp_len(b, offset as int),
                b == self.text.spec_bytes(),
                is_char_boundary(b, 0),
                forall|k: int| at < k <= limit ==> !is_char_boundary(b, k),
            decreases at,
        {
            at = at - 1;
        }
        if self.splits_a_crlf(at) {
            proof {
                lemma_ascii_is_an_atom(b, at - 1);
            }
            at = at - 1;
        }
        proof {
            lemma_floor_unique(b, offset as int, at as int);
        }
        at
    }

    /// Clamps `offset` into the text and on past whatever atom it lands inside.
    fn ceil(&self, offset: usize) -> (at: usize)
        ensures
            at == ceil(self.bytes_spec(), offset as int),
            is_ceil(self.bytes_spec(), offset as int, at as int),
    {
        let ghost b = self.text.spec_bytes();
        proof {
            use_type_invariant(self);
            lemma_valid(self.text);
        }
        let len = self.text.len();
        let mut at = if offset < len {
            offset
        } else {
            len
        };
        let ghost limit = at as int;
        while !self.text.is_char_boundary(at)
            invariant
                limit == clamp_len(b, offset as int) <= at <= b.len(),
                b == self.text.spec_bytes(),
                len == b.len(),
                is_char_boundary(b, b.len() as int),
                forall|k: int| limit <= k < at ==> !is_char_boundary(b, k),
            decreases len - at,
        {
            at = at + 1;
        }
        if self.splits_a_crlf(at) {
            proof {
                lemma_ascii_is_an_atom(b, at as int);
            }
            at = at + 1;
        }
        proof {
            lemma_ceil_unique(b, offset as int, at as int);
        }
        at
    }

    /// Returns whether `offset` sits between the two bytes of one CRLF.
    fn splits_a_crlf(&self, offset: usize) -> (split: bool)
        requires
            offset <= self.bytes_spec().len(),
        ensures
            split == splits_crlf(self.bytes_spec(), offset as int),
    {
        let bytes = self.text.as_bytes();
        offset > 0 && offset < bytes.len() && bytes[offset - 1] == 13u8 && bytes[offset] == 10u8
    }
}

} // verus!
