//! What resolution promises across its functions, proved over the model they are stated in.

use vstd::prelude::*;
use vstd::utf8::*;

use super::line::{clamp_into, prev_boundary, Line, LineBreak};
use super::model::{
    break_ends_at, break_start_before, ceil, char_starts, column_at, count_breaks, floor,
    is_atom_boundary, is_break_start, is_ceil, is_floor, is_line_start, lemma_count_breaks_monotone,
    lemma_line_end, lemma_line_start_of, lemma_next_line_start, lemma_no_breaks_between, line_end,
    line_number_at, line_start_of, splits_crlf,
};
use super::{resolved_end, resolved_start, Opening, Region, RegionLine, RegionLines};
use super::region::{clip_end, clip_start};
use super::region::drawn_last_line;
use crate::diagnostic::lemma_span_is_its_offsets;
use crate::diagnostic::Span;
use crate::text::{lemma_ascii_is_an_atom, lemma_boundary_inside};

verus! {

/// An inverted span asks a weaker question than the empty span at its start, and gets exactly
/// that span's answer: resolution takes the end to the start before either end is moved.
pub proof fn law_an_inverted_span_resolves_where_its_empty_span_does(
    bytes: Seq<u8>,
    inverted: Span,
    caret: Span,
)
    requires
        inverted.end_spec() < inverted.start_spec(),
        caret.start_spec() == inverted.start_spec(),
        caret.end_spec() == inverted.start_spec(),
    ensures
        resolved_start(bytes, inverted) == resolved_start(bytes, caret),
        resolved_end(bytes, inverted) == resolved_end(bytes, caret),
{
}

/// Resolution only ever widens: the resolved start is at or before the requested one, the
/// resolved end at or after it, and both land on atom boundaries — never inside a character and
/// never between the two bytes of a CRLF.
pub proof fn law_resolution_widens_onto_atom_boundaries(bytes: Seq<u8>, span: Span, start: int, end: int)
    requires
        is_floor(bytes, span.start_spec() as int, start),
        is_ceil(
            bytes,
            if span.end_spec() >= span.start_spec() {
                span.end_spec() as int
            } else {
                span.start_spec() as int
            },
            end,
        ),
    ensures
        start == resolved_start(bytes, span),
        end == resolved_end(bytes, span),
        start <= span.start_spec(),
        start <= end <= bytes.len(),
        span.end_spec() <= bytes.len() ==> span.end_spec() <= end,
        is_atom_boundary(bytes, start),
        is_atom_boundary(bytes, end),
{
    super::model::lemma_floor_unique(bytes, span.start_spec() as int, start);
    super::model::lemma_ceil_unique(
        bytes,
        if span.end_spec() >= span.start_spec() {
            span.end_spec() as int
        } else {
            span.start_spec() as int
        },
        end,
    );
}

/// The last line a range between two atom boundaries is drawn on.
pub open spec fn drawn_last(bytes: Seq<u8>, start: int, end: int) -> nat {
    if line_number_at(bytes, end) > line_number_at(bytes, start) && column_at(bytes, end) == 1 {
        (line_number_at(bytes, end) - 1) as nat
    } else {
        line_number_at(bytes, end)
    }
}

/// How many bytes the break at `index` of `bytes` occupies, zero where none begins.
pub open spec fn break_len(bytes: Seq<u8>, index: int) -> int {
    match super::line::break_at_spec(bytes, index) {
        Some(found) => found.byte_len_spec() as int,
        None => 0,
    }
}

/// A walk decides whether a span reaches another line from the first line alone, before it pays
/// for the walk to the far end: whether its end lies past the break that ends the line its start
/// is on. That decision is exactly whether the resolved region is drawn on more than one line.
pub proof fn law_reaching_another_line_is_being_multiline(bytes: Seq<u8>, start: int, end: int)
    requires
        valid_utf8(bytes),
        start <= end,
        is_atom_boundary(bytes, start),
        is_atom_boundary(bytes, end),
    ensures
        (end > line_end(bytes, line_start_of(bytes, start)) + break_len(
            bytes,
            line_end(bytes, line_start_of(bytes, start)),
        )) == (drawn_last(bytes, start, end) > line_number_at(bytes, start)),
{
    let ls = line_start_of(bytes, start);
    lemma_line_start_of(bytes, start);
    lemma_line_end(bytes, ls);
    let le = line_end(bytes, ls);
    lemma_line_end_from_inside(bytes, ls, start);
    if end <= le {
        lemma_no_breaks_between(bytes, start, end);
    } else {
        lemma_next_line_start(bytes, ls);
        let next = if bytes[le] == 13u8 && le + 1 < bytes.len() && bytes[le + 1] == 10u8 {
            le + 2
        } else {
            le + 1
        };
        assert(next == le + break_len(bytes, le));
        lemma_count_breaks_monotone(bytes, start, le);
        lemma_no_breaks_between(bytes, start, le);
        if end <= next {
            if next == le + 2 && end == le + 1 {
                assert(splits_crlf(bytes, end));
            }
            assert(end == next);
            assert(line_start_of(bytes, end) == end);
            assert(bytes.subrange(end, end) =~= Seq::<u8>::empty());
        } else {
            lemma_count_breaks_monotone(bytes, next, end);
            if count_breaks(bytes, end) == count_breaks(bytes, next) {
                lemma_line_start_at_least(bytes, next, end);
                lemma_line_start_at_most(bytes, next, end);
                assert(line_start_of(bytes, end) == next);
                lemma_ascii_is_an_atom(bytes, next - 1);
                lemma_boundary_inside(bytes, next);
                lemma_char_starts_first(bytes.subrange(next, end));
            }
        }
    }
}

/// Closing a span that reaches another line, from a walk at or before where it opened, stands on
/// exactly the last line the resolved region is drawn on — the line a span that swallowed its own
/// trailing newline ends on, not the one after it.
pub proof fn law_closing_stands_on_the_last_drawn_line(
    bytes: Seq<u8>,
    from: int,
    start: int,
    end: int,
)
    requires
        valid_utf8(bytes),
        0 <= from <= start < end,
        is_atom_boundary(bytes, start),
        is_atom_boundary(bytes, end),
    ensures
        line_number_at(bytes, super::model::drawn_end(bytes, from, end)) == drawn_last(bytes, start, end),
{
    lemma_count_breaks_monotone(bytes, start, end);
    if break_ends_at(bytes, end) {
        let begins = break_start_before(bytes, end);
        if begins < start {
            assert(splits_crlf(bytes, start));
        }
        assert(is_break_start(bytes, begins));
        lemma_count_breaks_monotone(bytes, start, begins);
        assert(count_breaks(bytes, begins + 1) == count_breaks(bytes, begins) + 1);
        if begins + 2 == end {
            assert(!is_break_start(bytes, begins + 1));
        }
        assert(count_breaks(bytes, end) == count_breaks(bytes, begins) + 1);
        assert(line_start_of(bytes, end) == end);
        assert(bytes.subrange(end, end) =~= Seq::<u8>::empty());
    } else {
        lemma_line_start_of(bytes, end);
        let ls = line_start_of(bytes, end);
        assert(ls < end);
        if ls > 0 {
            lemma_ascii_is_an_atom(bytes, ls - 1);
        } else {
            is_char_boundary_start_end_of_seq(bytes);
        }
        lemma_boundary_inside(bytes, ls);
        lemma_char_starts_first(bytes.subrange(ls, end));
    }
}

/// Nothing but content lies between a line's start and a position on it, so the line's content
/// ends where it would had it been scanned from that position.
proof fn lemma_line_end_from_inside(bytes: Seq<u8>, from: int, at: int)
    requires
        0 <= from <= at <= bytes.len(),
        forall|k: int| from <= k < at ==> !(bytes[k] == 10u8 || bytes[k] == 13u8),
    ensures
        line_end(bytes, from) == line_end(bytes, at),
    decreases at - from,
{
    if from < at {
        lemma_line_end_from_inside(bytes, from + 1, at);
    }
}

/// The line holding `at` begins at or after every line start at or before `at`.
proof fn lemma_line_start_at_least(bytes: Seq<u8>, start: int, at: int)
    requires
        0 <= start <= at <= bytes.len(),
        is_line_start(bytes, start),
    ensures
        line_start_of(bytes, at) >= start,
    decreases at,
{
    if at > start && !break_ends_at(bytes, at) {
        lemma_line_start_at_least(bytes, start, at - 1);
    }
}

/// With no break beginning between a line start and `at`, that line start is the line of `at`.
proof fn lemma_line_start_at_most(bytes: Seq<u8>, start: int, at: int)
    requires
        0 < start <= at <= bytes.len(),
        is_line_start(bytes, start),
        count_breaks(bytes, at) == count_breaks(bytes, start),
    ensures
        line_start_of(bytes, at) <= start,
    decreases at,
{
    if at > start {
        lemma_count_breaks_monotone(bytes, start, at - 1);
        lemma_count_breaks_monotone(bytes, at - 1, at);
        if break_ends_at(bytes, at) {
            let begins = break_start_before(bytes, at);
            if begins < start {
                assert(bytes[start - 1] == 13u8 && bytes[start] == 10u8);
            }
            assert(is_break_start(bytes, begins));
            lemma_count_breaks_monotone(bytes, start, begins);
            lemma_count_breaks_monotone(bytes, begins + 1, at);
            assert(false);
        } else {
            lemma_line_start_at_most(bytes, start, at - 1);
        }
    }
}

/// A run that begins with a character counts at least that one.
proof fn lemma_char_starts_first(bytes: Seq<u8>)
    requires
        bytes.len() > 0,
        !is_continuation_byte(bytes[0]),
    ensures
        char_starts(bytes) >= 1,
    decreases bytes.len(),
{
    if bytes.len() > 1 {
        lemma_char_starts_first(bytes.drop_last());
    }
}

/// A span that reaches past the break ending its first line closes on a later line: the line
/// the walk closing it stands on is numbered after the line it opened on.
pub proof fn lemma_closing_line_follows_opening_line(bytes: Seq<u8>, start: int, end: int)
    requires
        valid_utf8(bytes),
        start <= end,
        is_atom_boundary(bytes, start),
        is_atom_boundary(bytes, end),
        end > line_end(bytes, line_start_of(bytes, start)) + break_len(
            bytes,
            line_end(bytes, line_start_of(bytes, start)),
        ),
    ensures
        start < end,
        line_number_at(bytes, line_start_of(bytes, start)) < line_number_at(
            bytes,
            line_start_of(bytes, super::model::drawn_end(bytes, start, end)),
        ),
        !splits_crlf(bytes, super::model::drawn_end(bytes, start, end)),
        0 <= super::model::drawn_end(bytes, start, end) <= bytes.len(),
{
    law_reaching_another_line_is_being_multiline(bytes, start, end);
    lemma_line_start_of(bytes, start);
    let ls = line_start_of(bytes, start);
    lemma_line_end(bytes, ls);
    lemma_line_end_from_inside(bytes, ls, start);
    lemma_line_end(bytes, start);
    law_closing_stands_on_the_last_drawn_line(bytes, start, start, end);
    let closing = super::model::drawn_end(bytes, start, end);
    lemma_line_start_of(bytes, closing);
}

/// Walking to a span and resolving it agree, whatever the walk visited before: the walk opens at
/// the position the resolved region starts at, on the same resolved span.
pub proof fn law_a_walk_opens_where_resolving_starts(
    bytes: Seq<u8>,
    span: Span,
    opening: Opening,
    region: Region,
)
    requires
        opening.opens(bytes, span),
        region.span_spec().start_spec() == resolved_start(bytes, span),
        region.span_spec().end_spec() == resolved_end(bytes, span),
        region.start_spec().is_at(bytes, resolved_start(bytes, span)),
    ensures
        opening.at_spec() == region.start_spec(),
        opening.span_spec() == region.span_spec(),
{
    opening.at_spec().lemma_position_is_where_it_is_at(
        region.start_spec(),
        bytes,
        resolved_start(bytes, span),
    );
    lemma_span_is_its_offsets(opening.span_spec(), region.span_spec());
}

/// Walking to a span opens on the first line resolving it draws: the walk's opening line and the
/// first line [`Region::lines`] yields are the same line of the text (its start, number, content,
/// text and break) with the same part of it covered.
pub proof fn law_a_walk_opens_on_the_first_line_a_region_draws(
    bytes: Seq<u8>,
    span: Span,
    opening: Opening,
    region: Region,
    lines: RegionLines,
    first: RegionLine,
)
    requires
        opening.opens(bytes, span),
        region.span_spec().start_spec() == resolved_start(bytes, span),
        region.span_spec().end_spec() == resolved_end(bytes, span),
        lines.span_spec() == region.span_spec(),
        lines.lines_spec().next_spec() == line_start_of(
            bytes,
            region.span_spec().start_spec() as int,
        ),
        first.line_spec().is_line_of(bytes),
        first.line_spec().start_spec() == lines.lines_spec().next_spec(),
        first.covered_spec().start_spec() == clip_start(first.line_spec(), lines.span_spec()),
        first.covered_spec().end_spec() == clip_end(first.line_spec(), lines.span_spec()),
    ensures
        opening.line_spec().line_spec().start_spec() == first.line_spec().start_spec(),
        opening.line_spec().line_spec().number_spec() == first.line_spec().number_spec(),
        opening.line_spec().line_spec().bytes_spec() == first.line_spec().bytes_spec(),
        opening.line_spec().line_spec().text_spec() == first.line_spec().text_spec(),
        opening.line_spec().line_spec().break_spec() == first.line_spec().break_spec(),
        opening.line_spec().covered_spec() == first.covered_spec(),
{
    let mine = opening.line_spec().line_spec();
    let theirs = first.line_spec();
    lemma_span_is_its_offsets(opening.span_spec(), region.span_spec());
    mine.lemma_text_is_its_bytes();
    theirs.lemma_text_is_its_bytes();
    lemma_span_is_its_offsets(opening.line_spec().covered_spec(), first.covered_spec());
}

/// Where the line after the one beginning at `start` begins, when a break ends it; `None` for the
/// last line.
pub open spec fn following_line(bytes: Seq<u8>, start: int) -> Option<int> {
    let end = line_end(bytes, start);
    match super::line::break_at_spec(bytes, end) {
        Some(found) => Some(end + found.byte_len_spec()),
        None => None,
    }
}

/// The text from the line beginning at `start` on, rebuilt from its lines: each line's content
/// followed by the break that ends it, and the last line, which no break ends, alone.
pub open spec fn joined_from(bytes: Seq<u8>, start: int) -> Seq<u8>
    decreases bytes.len() - start,
{
    if 0 <= start <= bytes.len() {
        proof {
            lemma_line_end(bytes, start);
        }
        let end = line_end(bytes, start);
        match following_line(bytes, start) {
            Some(next) => bytes.subrange(start, next) + joined_from(bytes, next),
            None => bytes.subrange(start, end),
        }
    } else {
        Seq::empty()
    }
}

/// How many lines there are from the line beginning at `start` on.
pub open spec fn lines_from(bytes: Seq<u8>, start: int) -> nat
    decreases bytes.len() - start,
{
    if 0 <= start <= bytes.len() {
        proof {
            lemma_line_end(bytes, start);
        }
        match following_line(bytes, start) {
            Some(next) => 1 + lines_from(bytes, next),
            None => 1,
        }
    } else {
        0
    }
}

/// The lines of a text, walked as [`Lines::next`](super::Lines::next) walks them from a line
/// start, join back into the text: each line's content and the break ending it, every line but
/// the last ended by one. There are one more of them than there are breaks after the start, so
/// from the start of the text they number exactly [`Source::line_count`](super::Source::line_count).
pub proof fn law_the_lines_of_a_text_join_back_into_it(bytes: Seq<u8>, start: int)
    requires
        0 <= start <= bytes.len(),
        is_line_start(bytes, start),
    ensures
        joined_from(bytes, start) == bytes.subrange(start, bytes.len() as int),
        lines_from(bytes, start) == 1 + count_breaks(bytes, bytes.len() as int) - count_breaks(
            bytes,
            start,
        ),
    decreases bytes.len() - start,
{
    lemma_line_end(bytes, start);
    let end = line_end(bytes, start);
    match following_line(bytes, start) {
        Some(next) => {
            lemma_next_line_start(bytes, start);
            law_the_lines_of_a_text_join_back_into_it(bytes, next);
            assert(bytes.subrange(start, next) + bytes.subrange(next, bytes.len() as int)
                =~= bytes.subrange(start, bytes.len() as int));
        },
        None => {
            lemma_no_breaks_between(bytes, start, bytes.len() as int);
        },
    }
}

/// Every line of a text holds no break; only a line reaching the end of the text is not ended
/// by one; and the line after a line begins where its break ends and is numbered one more. Walked
/// from the first line, the lines are therefore numbered 1, 2, 3, ... up to
/// [`Source::line_count`](super::Source::line_count), the last of them without a break.
pub proof fn law_each_line_is_numbered_one_after_the_one_before(bytes: Seq<u8>, start: int)
    requires
        0 <= start <= bytes.len(),
        is_line_start(bytes, start),
    ensures
        forall|k: int|
            start <= k < line_end(bytes, start) ==> !(bytes[k] == 10u8 || bytes[k] == 13u8),
        following_line(bytes, start) is None <==> line_end(bytes, start) == bytes.len(),
        following_line(bytes, start) matches Some(next) ==> {
            &&& start < next <= bytes.len()
            &&& is_line_start(bytes, next)
            &&& line_number_at(bytes, next) == line_number_at(bytes, start) + 1
        },
{
    lemma_line_end(bytes, start);
    if line_end(bytes, start) < bytes.len() {
        lemma_next_line_start(bytes, start);
    }
}

/// A walk that closes a span reaching another line stands on the last line the resolved region
/// is drawn on: the line a span that swallowed its own trailing newline ends on, not the one
/// after it.
pub proof fn law_a_walk_closes_on_the_last_line_the_region_is_drawn_on(
    bytes: Seq<u8>,
    span: Span,
    region: Region,
)
    requires
        valid_utf8(bytes),
        resolved_start(bytes, span) <= resolved_end(bytes, span),
        is_atom_boundary(bytes, resolved_start(bytes, span)),
        is_atom_boundary(bytes, resolved_end(bytes, span)),
        region.start_spec().is_at(bytes, resolved_start(bytes, span)),
        region.end_spec().is_at(bytes, resolved_end(bytes, span)),
        region.last_line_spec() == drawn_last_line(region.start_spec(), region.end_spec()),
        resolved_end(bytes, span) > line_end(bytes, line_start_of(bytes, resolved_start(bytes, span)))
            + break_len(bytes, line_end(bytes, line_start_of(bytes, resolved_start(bytes, span)))),
    ensures
        line_number_at(
            bytes,
            line_start_of(
                bytes,
                super::model::drawn_end(
                    bytes,
                    resolved_start(bytes, span),
                    resolved_end(bytes, span),
                ),
            ),
        ) == region.last_line_spec(),
{
    let start = resolved_start(bytes, span);
    let end = resolved_end(bytes, span);
    lemma_closing_line_follows_opening_line(bytes, start, end);
    law_closing_stands_on_the_last_drawn_line(bytes, start, start, end);
    lemma_line_start_of(bytes, super::model::drawn_end(bytes, start, end));
}

/// Below any index of a text there is a greatest atom boundary.
proof fn lemma_atom_at_or_below(bytes: Seq<u8>, index: int) -> (at: int)
    requires
        valid_utf8(bytes),
        0 <= index <= bytes.len(),
    ensures
        0 <= at <= index,
        is_atom_boundary(bytes, at),
        forall|k: int| at < k <= index ==> !is_atom_boundary(bytes, k),
    decreases index,
{
    is_char_boundary_start_end_of_seq(bytes);
    if index == 0 || is_atom_boundary(bytes, index) {
        index
    } else {
        lemma_atom_at_or_below(bytes, index - 1)
    }
}

/// The greatest character boundary at or before an index is a boundary, and no boundary lies
/// between it and the index.
pub proof fn lemma_prev_boundary_is_greatest(bytes: Seq<u8>, index: int)
    requires
        valid_utf8(bytes),
        0 <= index <= bytes.len(),
    ensures
        0 <= prev_boundary(bytes, index) <= index,
        is_char_boundary(bytes, prev_boundary(bytes, index)),
        forall|k: int| prev_boundary(bytes, index) < k <= index ==> !is_char_boundary(bytes, k),
    decreases index,
{
    is_char_boundary_start_end_of_seq(bytes);
    if index > 0 && !is_char_boundary(bytes, index) {
        lemma_prev_boundary_is_greatest(bytes, index - 1);
    }
}

/// A line and a position agree on every offset: the line holding the place an offset resolves
/// to carries the position's line number, measures the offset at the position's column, and its
/// span holds the place the position stands at.
pub proof fn law_a_line_and_a_position_agree(bytes: Seq<u8>, offset: int, line: Line)
    requires
        valid_utf8(bytes),
        0 <= offset,
        line.is_line_of(bytes),
        line.start_spec() == line_start_of(bytes, floor(bytes, offset)),
    ensures
        line.number_spec() == line_number_at(bytes, floor(bytes, offset)),
        line.column_at_spec(offset) == column_at(bytes, floor(bytes, offset)),
        line.start_spec() <= floor(bytes, offset) <= line.end_spec(),
{
    let limit = super::model::clamp_len(bytes, offset);
    let f = lemma_atom_at_or_below(bytes, limit);
    assert(is_floor(bytes, offset, f));
    super::model::lemma_floor_unique(bytes, offset, f);
    lemma_line_start_of(bytes, f);
    let ls = line.start_spec() as int;
    lemma_line_end(bytes, ls);
    lemma_line_end_from_inside(bytes, ls, f);
    lemma_line_end(bytes, f);
    let le = line_end(bytes, ls);
    let content = line.bytes_spec();
    assert(content == bytes.subrange(ls, le));
    is_char_boundary_start_end_of_seq(bytes);
    if ls > 0 {
        lemma_ascii_is_an_atom(bytes, ls - 1);
    }
    if le < bytes.len() {
        lemma_ascii_is_an_atom(bytes, le);
    }
    crate::text::lemma_boundary_of_subrange(bytes, ls, le, f);
    let clamped = clamp_into(offset, ls, le);
    let target = clamped - ls;
    lemma_prev_boundary_is_greatest(content, target);
    let found = prev_boundary(content, target);
    // Inside the line's content a character boundary is an atom boundary, and the other way.
    assert forall|k: int| 0 <= k <= content.len() implies (is_char_boundary(content, k)
        <==> is_atom_boundary(bytes, ls + k)) by {
        if k < content.len() {
            lemma_boundary_inside(content, k);
            lemma_boundary_inside(bytes, ls + k);
            assert(content[k] == bytes[ls + k]);
        } else {
            is_char_boundary_start_end_of_seq(content);
        }
    }
    if offset >= le {
        assert(is_atom_boundary(bytes, le));
        assert(f == le);
    } else {
        assert(is_atom_boundary(bytes, ls + found));
    }
    assert(found == f - ls);
    assert(content.subrange(0, found) == bytes.subrange(ls, f));
}

/// The first position of every line is column one: a line's start resolves to itself, on that
/// line, before any character of it.
pub proof fn law_the_first_position_of_every_line_is_column_one(bytes: Seq<u8>, line: Line)
    requires
        valid_utf8(bytes),
        line.is_line_of(bytes),
    ensures
        floor(bytes, line.start_spec() as int) == line.start_spec(),
        line_number_at(bytes, floor(bytes, line.start_spec() as int)) == line.number_spec(),
        column_at(bytes, floor(bytes, line.start_spec() as int)) == 1,
{
    let ls = line.start_spec() as int;
    is_char_boundary_start_end_of_seq(bytes);
    if ls > 0 {
        lemma_ascii_is_an_atom(bytes, ls - 1);
    }
    assert(is_atom_boundary(bytes, ls));
    assert(is_floor(bytes, ls, ls));
    super::model::lemma_floor_unique(bytes, ls, ls);
    lemma_line_start_of(bytes, ls);
    lemma_line_start_at_least(bytes, ls, ls);
    assert(bytes.subrange(ls, ls) =~= Seq::<u8>::empty());
}

} // verus!
