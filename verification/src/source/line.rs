use vstd::prelude::*;
use vstd::string::StringSliceAdditionalSpecFns;
use vstd::utf8::*;

use super::model::{
    break_ends_at, char_starts, is_break_start, count_breaks, is_line_start, lemma_char_starts_bound, lemma_char_starts_push,
    lemma_count_breaks_bound, lemma_line_end, lemma_no_breaks_between, line_end, line_number_at,
};
use crate::diagnostic::Span;
use crate::text::{
    lemma_ascii_is_an_atom, lemma_boundary_inside, lemma_char_count_bound, lemma_valid, slice,
};

verus! {

/// What ends a line.
///
/// `\n` and `\r\n` are the two everybody expects; a lone `\r` is here because GraphQL's grammar
/// lists it too, and a line number that disagrees with the reader's editor is silently wrong.
#[derive(Debug, Clone, Copy, PartialEq, Eq, Hash)]
pub enum LineBreak {
    /// A line feed, `\n`.
    Lf,
    /// A carriage return followed by a line feed, `\r\n`.
    CrLf,
    /// A lone carriage return, `\r`.
    Cr,
}

impl LineBreak {
    /// How many bytes the break occupies.
    pub open spec fn byte_len_spec(self) -> nat {
        match self {
            LineBreak::CrLf => 2,
            _ => 1,
        }
    }

    /// The break's own text.
    pub open spec fn text_spec(self) -> Seq<char> {
        match self {
            LineBreak::Lf => seq!['\n'],
            LineBreak::CrLf => seq!['\r', '\n'],
            LineBreak::Cr => seq!['\r'],
        }
    }

    /// Returns how many bytes the break occupies.
    pub fn byte_len(&self) -> (len: usize)
        ensures
            len == self.byte_len_spec(),
    {
        match self {
            LineBreak::Lf | LineBreak::Cr => 1,
            LineBreak::CrLf => 2,
        }
    }

    /// Returns the break's own text.
    pub fn as_str(&self) -> (text: &'static str)
        ensures
            text@ == self.text_spec(),
    {
        match self {
            LineBreak::Lf => {
                let text = "\n";
                proof {
                    reveal_strlit("\n");
                }
                text
            },
            LineBreak::CrLf => {
                let text = "\r\n";
                proof {
                    reveal_strlit("\r\n");
                }
                text
            },
            LineBreak::Cr => {
                let text = "\r";
                proof {
                    reveal_strlit("\r");
                }
                text
            },
        }
    }
}

/// The break beginning at `index`, if one does.
pub open spec fn break_at_spec(bytes: Seq<u8>, index: int) -> Option<LineBreak> {
    if 0 <= index < bytes.len() && bytes[index] == 10u8 {
        Some(LineBreak::Lf)
    } else if 0 <= index < bytes.len() && bytes[index] == 13u8 {
        if index + 1 < bytes.len() && bytes[index + 1] == 10u8 {
            Some(LineBreak::CrLf)
        } else {
            Some(LineBreak::Cr)
        }
    } else {
        None
    }
}

/// Returns the break beginning at `index`, if one does.
///
/// Byte-wise: no byte of a multi-byte UTF-8 sequence is below `0x80`, so `\r` and `\n` can only
/// ever be themselves.
pub(crate) fn break_at(bytes: &[u8], index: usize) -> (found: Option<LineBreak>)
    ensures
        found == break_at_spec(bytes@, index as int),
{
    if index < bytes.len() && bytes[index] == 10u8 {
        Some(LineBreak::Lf)
    } else if index < bytes.len() && bytes[index] == 13u8 {
        if index + 1 < bytes.len() && bytes[index + 1] == 10u8 {
            Some(LineBreak::CrLf)
        } else {
            Some(LineBreak::Cr)
        }
    } else {
        None
    }
}

/// One line of a source, without whatever ended it.
#[derive(Debug, Clone, Copy, PartialEq, Eq, Hash)]
pub struct Line<'a> {
    number: u64,
    start: usize,
    text: &'a str,
    line_break: Option<LineBreak>,
}

impl<'a> Line<'a> {
    #[verifier::type_invariant]
    spec fn fits(self) -> bool {
        &&& self.start + self.text.spec_bytes().len() <= usize::MAX
        &&& self.text.spec_bytes().len() <= isize::MAX
    }

    /// The 1-based line number.
    pub closed spec fn number_spec(self) -> u64 {
        self.number
    }

    /// The byte offset the line's content begins at.
    pub closed spec fn start_spec(self) -> usize {
        self.start
    }

    /// The line's content, as bytes.
    pub closed spec fn bytes_spec(self) -> Seq<u8> {
        self.text.spec_bytes()
    }

    /// The line's content, as characters.
    pub closed spec fn text_spec(self) -> Seq<char> {
        self.text@
    }

    /// What ended the line.
    pub closed spec fn break_spec(self) -> Option<LineBreak> {
        self.line_break
    }

    /// A line's content is well-formed UTF-8, as every `str` is.
    pub proof fn lemma_bytes_valid(self)
        ensures
            valid_utf8(self.bytes_spec()),
            is_char_boundary(self.bytes_spec(), 0),
            is_char_boundary(self.bytes_spec(), self.bytes_spec().len() as int),
    {
        lemma_valid(self.text);
    }

    /// A line's bytes are the encoding of its characters.
    pub proof fn lemma_text_is_its_bytes(self)
        ensures
            decode_utf8(self.bytes_spec()) == self.text_spec(),
    {
        encode_utf8_decode_utf8(self.text@);
    }

    /// A line has no more characters than bytes.
    pub proof fn lemma_text_fits_its_bytes(self)
        ensures
            self.text_spec().len() <= self.bytes_spec().len(),
    {
        lemma_char_count_bound(self.text@);
    }

    /// The byte offset one past the line's content.
    pub open spec fn end_spec(self) -> int {
        self.start_spec() + self.bytes_spec().len()
    }

    /// This is the line of `bytes` that begins at `start`: its content up to the first terminator,
    /// and that terminator.
    pub open spec fn is_scan_of(self, bytes: Seq<u8>, start: int) -> bool {
        &&& self.start_spec() == start
        &&& self.end_spec() == line_end(bytes, start)
        &&& self.bytes_spec() == bytes.subrange(start, line_end(bytes, start))
        &&& self.break_spec() == break_at_spec(bytes, line_end(bytes, start))
    }

    /// This is a line of `bytes`, numbered as it is there.
    pub open spec fn is_line_of(self, bytes: Seq<u8>) -> bool {
        &&& 0 <= self.start_spec() <= bytes.len()
        &&& is_line_start(bytes, self.start_spec() as int)
        &&& self.is_scan_of(bytes, self.start_spec() as int)
        &&& self.number_spec() == line_number_at(bytes, self.start_spec() as int)
    }

    /// The 1-based character column of `offset`, clamped into the line and back onto the start
    /// of the character it lands in.
    pub open spec fn column_at_spec(self, offset: int) -> nat {
        1 + char_starts(
            self.bytes_spec().subrange(
                0,
                prev_boundary(
                    self.bytes_spec(),
                    clamp_into(offset, self.start_spec() as int, self.end_spec())
                        - self.start_spec(),
                ),
            ),
        )
    }

    /// Returns the 1-based line number.
    pub fn number(&self) -> (number: u64)
        ensures
            number == self.number_spec(),
    {
        self.number
    }

    /// Returns the line's content, not including whatever ended it.
    pub fn text(&self) -> (text: &'a str)
        ensures
            text.spec_bytes() == self.bytes_spec(),
            text@ == self.text_spec(),
            self.start_spec() + text.spec_bytes().len() <= usize::MAX,
            text.spec_bytes().len() <= isize::MAX,
    {
        proof {
            use_type_invariant(self);
        }
        self.text
    }

    /// Returns the byte range of the line's content, not including whatever ended it.
    pub fn span(&self) -> (span: Span)
        ensures
            span.start_spec() == self.start_spec(),
            span.end_spec() == self.end_spec(),
    {
        proof {
            use_type_invariant(self);
        }
        Span::new(self.start, self.start + self.text.len())
    }

    /// Returns what ended the line, or `None` for a last line that has no break.
    pub fn line_break(&self) -> (found: Option<LineBreak>)
        ensures
            found == self.break_spec(),
    {
        self.line_break
    }

    /// Returns how many characters the line's content holds.
    ///
    /// Characters, not display cells: a CJK ideograph counts once here.
    pub fn char_count(&self) -> (count: u64)
        ensures
            count == char_starts(self.bytes_spec()),
    {
        proof {
            use_type_invariant(self);
            assert(self.text.spec_bytes().subrange(0, self.text.spec_bytes().len() as int)
                =~= self.text.spec_bytes());
        }
        count_chars(self.text.as_bytes(), self.text.len())
    }

    /// Returns the 1-based character column of `offset` on this line.
    ///
    /// Total, and clamping: an offset before the line answers `1`, one past its content answers
    /// one past the last character, and one inside a character answers that character's column.
    pub fn column_at(&self, offset: usize) -> (column: u64)
        ensures
            column == self.column_at_spec(offset as int),
    {
        proof {
            use_type_invariant(self);
            lemma_valid(self.text);
        }
        let end = self.start + self.text.len();
        let clamped = if offset < self.start {
            self.start
        } else if offset > end {
            end
        } else {
            offset
        };
        let mut relative = clamped - self.start;
        let ghost target = relative as int;
        while !self.text.is_char_boundary(relative)
            invariant
                0 <= relative <= target <= self.text.spec_bytes().len(),
                valid_utf8(self.text.spec_bytes()),
                is_char_boundary(self.text.spec_bytes(), 0),
                prev_boundary(self.text.spec_bytes(), target) == prev_boundary(
                    self.text.spec_bytes(),
                    relative as int,
                ),
            decreases relative,
        {
            relative -= 1;
        }
        proof {
            lemma_char_starts_bound(self.text.spec_bytes().subrange(0, relative as int));
        }
        1 + count_chars(self.text.as_bytes(), relative)
    }
}

/// `offset` clamped into `[low, high]`.
pub open spec fn clamp_into(offset: int, low: int, high: int) -> int {
    if offset < low {
        low
    } else if offset > high {
        high
    } else {
        offset
    }
}

/// Moving an index right never moves the boundary at or before it left.
pub proof fn lemma_prev_boundary_monotone(bytes: Seq<u8>, low: int, high: int)
    requires
        low <= high,
    ensures
        prev_boundary(bytes, low) <= prev_boundary(bytes, high),
    decreases high,
{
    lemma_prev_boundary_bounded(bytes, low);
    if low < high && high > 0 && !is_char_boundary(bytes, high) {
        lemma_prev_boundary_monotone(bytes, low, high - 1);
    }
}

/// The boundary at or before an index is no further right than the index.
pub proof fn lemma_prev_boundary_bounded(bytes: Seq<u8>, index: int)
    ensures
        prev_boundary(bytes, index) <= if index > 0 { index } else { 0 },
        prev_boundary(bytes, index) >= 0,
    decreases index,
{
    if index > 0 && !is_char_boundary(bytes, index) {
        lemma_prev_boundary_bounded(bytes, index - 1);
    }
}

/// The greatest character boundary at or before `index`.
pub open spec fn prev_boundary(bytes: Seq<u8>, index: int) -> int
    decreases index,
{
    if index <= 0 {
        0
    } else if is_char_boundary(bytes, index) {
        index
    } else {
        prev_boundary(bytes, index - 1)
    }
}

/// Counts the characters that begin in `bytes[..end]`.
fn count_chars(bytes: &[u8], end: usize) -> (count: u64)
    requires
        end <= bytes@.len(),
    ensures
        count == char_starts(bytes@.subrange(0, end as int)),
{
    let mut count: u64 = 0;
    let mut index: usize = 0;
    while index < end
        invariant
            index <= end <= bytes@.len(),
            count == char_starts(bytes@.subrange(0, index as int)),
        decreases end - index,
    {
        proof {
            lemma_char_starts_push(bytes@, 0, index as int);
            lemma_char_starts_bound(bytes@.subrange(0, index as int));
        }
        if !(bytes[index] & 0xc0u8 == 0x80u8) {
            count = count + 1;
        }
        proof {
            let byte = bytes@[index as int];
            assert((byte & 0xc0u8 == 0x80u8) == (0x80u8 <= byte <= 0xbfu8)) by (bit_vector);
        }
        index = index + 1;
    }
    count
}

/// Reads the line that begins at `start`, which must be a line start.
pub(crate) fn scan<'a>(source: &'a str, start: usize, number: u64) -> (line: Line<'a>)
    requires
        source.spec_bytes().len() <= isize::MAX,
        start <= source.spec_bytes().len(),
        is_line_start(source.spec_bytes(), start as int),
    ensures
        line.is_scan_of(source.spec_bytes(), start as int),
        line.number_spec() == number,
{
    let bytes = source.as_bytes();
    let ghost b = source.spec_bytes();
    let mut index = start;
    while index < bytes.len() && !(bytes[index] == 10u8 || bytes[index] == 13u8)
        invariant
            start <= index <= b.len(),
            bytes@ == b,
            forall|k: int| start <= k < index ==> !(b[k] == 10u8 || b[k] == 13u8),
            line_end(b, start as int) == line_end(b, index as int),
        decreases b.len() - index,
    {
        index = index + 1;
    }
    proof {
        lemma_valid(source);
        if start > 0 {
            lemma_ascii_is_an_atom(b, start - 1);
        }
        if index < b.len() {
            lemma_ascii_is_an_atom(b, index as int);
        }
    }
    let line_break = break_at(bytes, index);
    let text = slice(source, start, index);
    Line { number, start, text, line_break }
}

/// The iterator [`Source::lines`](crate::Source::lines) returns.
///
/// A source always has at least one line — `""` is one empty line — and a trailing break adds
/// the empty line after it, which is where a position at the very end of the file resolves to.
#[derive(Debug)]
pub struct Lines<'a> {
    source: &'a str,
    next: usize,
    number: u64,
    done: bool,
}

impl<'a> Lines<'a> {
    /// The walk stands at a line start, and knows that line's number.
    #[verifier::type_invariant]
    pub open spec fn walking(self) -> bool {
        &&& self.bytes_spec().len() <= isize::MAX
        &&& valid_utf8(self.bytes_spec())
        &&& self.next_spec() <= self.bytes_spec().len()
        &&& is_line_start(self.bytes_spec(), self.next_spec() as int)
        &&& self.number_spec() == line_number_at(self.bytes_spec(), self.next_spec() as int)
    }

    /// The number the next line will carry.
    pub closed spec fn number_spec(self) -> u64 {
        self.number
    }

    /// The bytes being walked.
    pub closed spec fn bytes_spec(self) -> Seq<u8> {
        self.source.spec_bytes()
    }

    /// Where the next line begins.
    pub closed spec fn next_spec(self) -> usize {
        self.next
    }

    /// Whether the last line has been handed out.
    pub closed spec fn done_spec(self) -> bool {
        self.done
    }

    pub(crate) fn new(source: &'a str) -> (lines: Self)
        requires
            source.spec_bytes().len() <= isize::MAX,
        ensures
            lines.bytes_spec() == source.spec_bytes(),
            lines.next_spec() == 0,
            !lines.done_spec(),
    {
        proof {
            lemma_valid(source);
        }
        Self { source, next: 0, number: 1, done: false }
    }

    /// Resumes the walk at `start`, which must be where a line begins.
    pub(crate) fn resume(source: &'a str, start: usize) -> (lines: Self)
        requires
            source.spec_bytes().len() <= isize::MAX,
            start <= source.spec_bytes().len(),
            is_line_start(source.spec_bytes(), start as int),
        ensures
            lines.bytes_spec() == source.spec_bytes(),
            lines.next_spec() == start,
            !lines.done_spec(),
    {
        let ghost b = source.spec_bytes();
        proof {
            lemma_count_breaks_bound(b, start as int);
            lemma_valid(source);
        }
        let number = 1 + count_breaks_exec(source.as_bytes(), start);
        Self { source, next: start, number, done: false }
    }

    /// Returns the next line, or `None` once the last has been handed out.
    pub fn next(&mut self) -> (line: Option<Line<'a>>)
        ensures
            final(self).bytes_spec() == old(self).bytes_spec(),
            old(self).done_spec() ==> line.is_none() && *final(self) == *old(self),
            !old(self).done_spec() ==> match line {
                Some(line) => {
                    &&& line.is_line_of(old(self).bytes_spec())
                    &&& line.start_spec() == old(self).next_spec()
                    &&& match line.break_spec() {
                        Some(found) => {
                            &&& !final(self).done_spec()
                            &&& final(self).next_spec() == line.end_spec() + found.byte_len_spec()
                            &&& count_breaks(old(self).bytes_spec(), final(self).next_spec() as int)
                                == count_breaks(old(self).bytes_spec(), old(self).next_spec() as int)
                                + 1
                        },
                        None => {
                            &&& final(self).done_spec()
                            &&& line.end_spec() == old(self).bytes_spec().len()
                            &&& count_breaks(
                                old(self).bytes_spec(),
                                old(self).bytes_spec().len() as int,
                            ) == count_breaks(old(self).bytes_spec(), old(self).next_spec() as int)
                        },
                    }
                },
                None => false,
            },
    {
        proof {
            use_type_invariant(&*self);
        }
        if self.done {
            return None;
        }
        let line = scan(self.source, self.next, self.number);
        let ghost b = self.source.spec_bytes();
        proof {
            lemma_line_end(b, self.next as int);
        }
        match line.line_break {
            Some(found) => {
                let end = self.next + line.text.len();
                proof {
                    lemma_no_breaks_between(b, self.next as int, end as int);
                    lemma_count_breaks_bound(b, end as int + found.byte_len_spec());
                    let e = end as int;
                    assert(is_break_start(b, e)) by {
                        if b[e] == 10u8 && e > 0 {
                            if e > self.next {
                                assert(!(b[e - 1] == 10u8 || b[e - 1] == 13u8));
                            } else {
                                assert(break_ends_at(b, e));
                            }
                        }
                    }
                    assert(count_breaks(b, e + 1) == count_breaks(b, e) + 1);
                    if found == LineBreak::CrLf {
                        assert(!is_break_start(b, e + 1));
                        assert(count_breaks(b, e + 2) == count_breaks(b, e + 1));
                    }
                }
                *self = Lines {
                    source: self.source,
                    next: end + found.byte_len(),
                    number: self.number + 1,
                    done: false,
                };
            },
            None => {
                proof {
                    lemma_no_breaks_between(b, self.next as int, b.len() as int);
                }
                self.done = true;
            },
        }
        Some(line)
    }
}

/// How many line breaks begin before `end`.
pub(crate) fn count_breaks_exec(bytes: &[u8], end: usize) -> (count: u64)
    requires
        end <= bytes@.len() <= isize::MAX,
    ensures
        count == count_breaks(bytes@, end as int),
{
    let mut count: u64 = 0;
    let mut index: usize = 0;
    while index < end
        invariant
            index <= end <= bytes@.len() <= isize::MAX,
            count == count_breaks(bytes@, index as int),
        decreases end - index,
    {
        proof {
            lemma_count_breaks_bound(bytes@, index as int);
        }
        if bytes[index] == 13u8 || (bytes[index] == 10u8 && !(index > 0 && bytes[index - 1]
            == 13u8)) {
            count = count + 1;
        }
        index = index + 1;
    }
    count
}

} // verus!
