//! The mathematical model resolution is stated against: a text is its UTF-8 bytes, and lines,
//! columns and atoms are properties of those bytes.

use vstd::prelude::*;
use vstd::utf8::*;

verus! {

/// Whether a line break begins at `index`: a `\r` (alone or opening a CRLF), or a `\n` that does
/// not close a CRLF.
pub open spec fn is_break_start(bytes: Seq<u8>, index: int) -> bool {
    0 <= index < bytes.len() && (bytes[index] == 13u8 || (bytes[index] == 10u8 && !(index > 0
        && bytes[index - 1] == 13u8)))
}

/// Whether `index` sits between the two bytes of one CRLF.
pub open spec fn splits_crlf(bytes: Seq<u8>, index: int) -> bool {
    0 < index < bytes.len() && bytes[index - 1] == 13u8 && bytes[index] == 10u8
}

/// Whether a line break ends exactly at `index`.
pub open spec fn break_ends_at(bytes: Seq<u8>, index: int) -> bool {
    0 < index <= bytes.len() && (bytes[index - 1] == 10u8 || (bytes[index - 1] == 13u8 && !(index
        < bytes.len() && bytes[index] == 10u8)))
}

/// Whether a line begins at `index`: the start of the text, or just after a break.
pub open spec fn is_line_start(bytes: Seq<u8>, index: int) -> bool {
    index == 0 || break_ends_at(bytes, index)
}

/// How many line breaks begin before `end`.
pub open spec fn count_breaks(bytes: Seq<u8>, end: int) -> nat
    decreases end,
{
    if end <= 0 {
        0
    } else {
        count_breaks(bytes, end - 1) + if is_break_start(bytes, end - 1) {
            1nat
        } else {
            0nat
        }
    }
}

/// Where the line holding `index` begins: the last line start at or before it.
pub open spec fn line_start_of(bytes: Seq<u8>, index: int) -> int
    decreases index,
{
    if index <= 0 || break_ends_at(bytes, index) {
        if index <= 0 {
            0
        } else {
            index
        }
    } else {
        line_start_of(bytes, index - 1)
    }
}

/// How many characters begin in `bytes`: every byte that does not continue one.
pub open spec fn char_starts(bytes: Seq<u8>) -> nat
    decreases bytes.len(),
{
    if bytes.len() == 0 {
        0
    } else {
        char_starts(bytes.drop_last()) + if is_continuation_byte(bytes.last()) {
            0nat
        } else {
            1nat
        }
    }
}

/// The 1-based line `index` is on.
pub open spec fn line_number_at(bytes: Seq<u8>, index: int) -> nat {
    1 + count_breaks(bytes, index)
}

/// The 1-based character column `index` is at.
pub open spec fn column_at(bytes: Seq<u8>, index: int) -> nat {
    1 + char_starts(bytes.subrange(line_start_of(bytes, index), index))
}

/// Where the content of a line that begins at `start` ends: the first `\n` or `\r` at or after
/// it, or the end of the text.
pub open spec fn line_end(bytes: Seq<u8>, start: int) -> int
    decreases bytes.len() - start,
{
    if start >= bytes.len() {
        bytes.len() as int
    } else if bytes[start] == 10u8 || bytes[start] == 13u8 {
        start
    } else {
        line_end(bytes, start + 1)
    }
}

/// An atom boundary: a character boundary that does not split a CRLF.
pub open spec fn is_atom_boundary(bytes: Seq<u8>, index: int) -> bool {
    0 <= index <= bytes.len() && is_char_boundary(bytes, index) && !splits_crlf(bytes, index)
}

/// `offset` clamped into the text.
pub open spec fn clamp_len(bytes: Seq<u8>, offset: int) -> int {
    if offset < bytes.len() {
        offset
    } else {
        bytes.len() as int
    }
}

/// `at` is the greatest atom boundary at or before `offset` (clamped into the text).
pub open spec fn is_floor(bytes: Seq<u8>, offset: int, at: int) -> bool {
    &&& at <= clamp_len(bytes, offset)
    &&& is_atom_boundary(bytes, at)
    &&& forall|k: int| at < k <= clamp_len(bytes, offset) ==> !is_atom_boundary(bytes, k)
}

/// `at` is the least atom boundary at or after `offset` (clamped into the text).
pub open spec fn is_ceil(bytes: Seq<u8>, offset: int, at: int) -> bool {
    &&& clamp_len(bytes, offset) <= at
    &&& is_atom_boundary(bytes, at)
    &&& forall|k: int| clamp_len(bytes, offset) <= k < at ==> !is_atom_boundary(bytes, k)
}

/// The greatest atom boundary at or before `offset`.
pub open spec fn floor(bytes: Seq<u8>, offset: int) -> int {
    choose|at: int| is_floor(bytes, offset, at)
}

/// The least atom boundary at or after `offset`.
pub open spec fn ceil(bytes: Seq<u8>, offset: int) -> int {
    choose|at: int| is_ceil(bytes, offset, at)
}

/// A floor is unique, so whatever satisfies the property is the one [`floor`] names.
pub proof fn lemma_floor_unique(bytes: Seq<u8>, offset: int, at: int)
    requires
        is_floor(bytes, offset, at),
    ensures
        floor(bytes, offset) == at,
{
    let other = floor(bytes, offset);
    assert(is_floor(bytes, offset, other));
    if other < at {
        assert(!is_atom_boundary(bytes, at));
    } else if other > at {
        assert(!is_atom_boundary(bytes, other));
    }
}

/// A ceiling is unique, so whatever satisfies the property is the one [`ceil`] names.
pub proof fn lemma_ceil_unique(bytes: Seq<u8>, offset: int, at: int)
    requires
        is_ceil(bytes, offset, at),
    ensures
        ceil(bytes, offset) == at,
{
    let other = ceil(bytes, offset);
    assert(is_ceil(bytes, offset, other));
    if other < at {
        assert(!is_atom_boundary(bytes, other));
    } else if other > at {
        assert(!is_atom_boundary(bytes, at));
    }
}

/// No line break begins in a stretch that holds neither `\n` nor `\r`.
pub proof fn lemma_no_breaks_between(bytes: Seq<u8>, from: int, to: int)
    requires
        0 <= from <= to <= bytes.len(),
        forall|k: int| from <= k < to ==> !(bytes[k] == 10u8 || bytes[k] == 13u8),
    ensures
        count_breaks(bytes, to) == count_breaks(bytes, from),
    decreases to - from,
{
    if to > from {
        lemma_no_breaks_between(bytes, from, to - 1);
    }
}

/// A count of breaks never exceeds the bytes it counts over.
pub proof fn lemma_count_breaks_bound(bytes: Seq<u8>, end: int)
    requires
        0 <= end,
    ensures
        count_breaks(bytes, end) <= end,
    decreases end,
{
    if end > 0 {
        lemma_count_breaks_bound(bytes, end - 1);
    }
}

/// The content of a line ends at a terminator or at the end of the text, and holds neither.
pub proof fn lemma_line_end(bytes: Seq<u8>, start: int)
    requires
        0 <= start <= bytes.len(),
    ensures
        start <= line_end(bytes, start) <= bytes.len(),
        line_end(bytes, start) == bytes.len() || bytes[line_end(bytes, start)] == 10u8
            || bytes[line_end(bytes, start)] == 13u8,
        forall|k: int|
            start <= k < line_end(bytes, start) ==> !(bytes[k] == 10u8 || bytes[k] == 13u8),
    decreases bytes.len() - start,
{
    if start < bytes.len() && !(bytes[start] == 10u8 || bytes[start] == 13u8) {
        lemma_line_end(bytes, start + 1);
    }
}

/// Removing the last byte of a run removes at most the one character it starts.
pub proof fn lemma_char_starts_push(bytes: Seq<u8>, from: int, to: int)
    requires
        0 <= from <= to < bytes.len(),
    ensures
        char_starts(bytes.subrange(from, to + 1)) == char_starts(bytes.subrange(from, to))
            + if is_continuation_byte(bytes[to]) {
            0nat
        } else {
            1nat
        },
{
    assert(bytes.subrange(from, to + 1).drop_last() =~= bytes.subrange(from, to));
}

/// A character count never exceeds the bytes it counts over.
pub proof fn lemma_char_starts_bound(bytes: Seq<u8>)
    ensures
        char_starts(bytes) <= bytes.len(),
    decreases bytes.len(),
{
    if bytes.len() > 0 {
        lemma_char_starts_bound(bytes.drop_last());
    }
}

} // verus!

verus! {

/// Where the break that ends at `index` begins.
pub open spec fn break_start_before(bytes: Seq<u8>, index: int) -> int {
    if index >= 2 && bytes[index - 1] == 10u8 && bytes[index - 2] == 13u8 {
        index - 2
    } else {
        index - 1
    }
}

/// Where a walk that stops on a break ending at `target` comes to rest.
pub open spec fn drawn_end(bytes: Seq<u8>, from: int, target: int) -> int {
    if break_ends_at(bytes, target) && break_start_before(bytes, target) >= from {
        break_start_before(bytes, target)
    } else {
        target
    }
}

/// Breaks are only ever counted, never uncounted, as the end moves forward.
pub proof fn lemma_count_breaks_monotone(bytes: Seq<u8>, low: int, high: int)
    requires
        low <= high,
    ensures
        count_breaks(bytes, low) <= count_breaks(bytes, high),
    decreases high - low,
{
    if low < high {
        lemma_count_breaks_monotone(bytes, low, high - 1);
    }
}

/// What [`line_start_of`] is: the last line start at or before `index`, with nothing but the
/// line's own content between the two.
pub proof fn lemma_line_start_of(bytes: Seq<u8>, index: int)
    requires
        0 <= index <= bytes.len(),
        !splits_crlf(bytes, index),
    ensures
        0 <= line_start_of(bytes, index) <= index,
        is_line_start(bytes, line_start_of(bytes, index)),
        count_breaks(bytes, line_start_of(bytes, index)) == count_breaks(bytes, index),
        forall|k: int|
            line_start_of(bytes, index) <= k < index ==> !(bytes[k] == 10u8 || bytes[k] == 13u8),
    decreases index,
{
    if index > 0 && !break_ends_at(bytes, index) {
        assert(!splits_crlf(bytes, index - 1));
        lemma_line_start_of(bytes, index - 1);
        assert(!is_break_start(bytes, index - 1));
        let start = line_start_of(bytes, index);
        assert forall|k: int| start <= k < index implies !(bytes[k] == 10u8 || bytes[k]
            == 13u8) by {
            if k == index - 1 {
            }
        }
    }
}

/// The line after a line that ends in a break begins right after that break, and is numbered one
/// more.
pub proof fn lemma_next_line_start(bytes: Seq<u8>, start: int)
    requires
        0 <= start <= bytes.len(),
        is_line_start(bytes, start),
        line_end(bytes, start) < bytes.len(),
    ensures
        ({
            let end = line_end(bytes, start);
            let next = if bytes[end] == 13u8 && end + 1 < bytes.len() && bytes[end + 1] == 10u8 {
                end + 2
            } else {
                end + 1
            };
            &&& next <= bytes.len()
            &&& is_line_start(bytes, next)
            &&& count_breaks(bytes, next) == count_breaks(bytes, start) + 1
        }),
{
    lemma_line_end(bytes, start);
    let e = line_end(bytes, start);
    lemma_no_breaks_between(bytes, start, e);
    assert(is_break_start(bytes, e)) by {
        if bytes[e] == 10u8 && e > 0 {
            if e > start {
                assert(!(bytes[e - 1] == 10u8 || bytes[e - 1] == 13u8));
            } else {
                assert(break_ends_at(bytes, e));
            }
        }
    }
    assert(count_breaks(bytes, e + 1) == count_breaks(bytes, e) + 1);
    if bytes[e] == 13u8 && e + 1 < bytes.len() && bytes[e + 1] == 10u8 {
        assert(!is_break_start(bytes, e + 1));
        assert(count_breaks(bytes, e + 2) == count_breaks(bytes, e + 1));
    }
}

} // verus!
