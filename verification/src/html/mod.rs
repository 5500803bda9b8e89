//! HTML: a document the embedder themes, with nothing of the caller's text left as markup.
//!
//! Classes, never inline styles, so the embedder owns appearance completely: painty writes no
//! `style` attribute, no `<style>` element and no colour. The classes that carry meaning are
//! [`Role`](crate::Role)'s, so a theme's roles and a stylesheet's selectors are the same list; the
//! rest name structure.
//!
//! | class | on | what it names |
//! |---|---|---|
//! | `painty` | the root `<div>` | one whole diagnostic |
//! | `painty-error`, `painty-warning`, `painty-advice` | the root | the severity |
//! | `painty-header` | a `<p>` | the severity, the code and the message |
//! | `painty-severity` | a `<span>` | the severity word itself |
//! | `painty-code` | a `<span>` | the machine identifier |
//! | `painty-message` | a `<span>` | what went wrong |
//! | `painty-block` | a `<section>` | everything drawn for one input |
//! | `painty-origin` | a `<p>` | where that input is, and what it is called |
//! | `painty-name` | a `<span>` | the caller's name for the input, when it gave one |
//! | `painty-position` | a `<span>` | `line:column`, in character columns |
//! | `painty-mark` | a `<div>` | one marked position: its excerpt and its label |
//! | `painty-primary`, `painty-secondary` | a mark, a covered run, a label | which position it belongs to |
//! | `painty-excerpt` | a `<pre>` | the source rows of one mark |
//! | `painty-row` | a `<span>` | one source line |
//! | `painty-gutter painty-number` | the number cell | the line number |
//! | `painty-text` | a `<span>` | the line's own text |
//! | `painty-covered` | a `<span>` | the bytes the span covers on this row, even when none |
//! | `painty-elision` | a row | lines left out between two rows of one span |
//! | `painty-label` | a `<p>` | the phrase attached to a position |
//! | `painty-help` | a `<p>` | what the reader can do |
//!
//! No cell arithmetic (a tab stays a tab), no row is ever cut, no palette, no result path, and no
//! merged rows: two labels on one line are two marks, each with its own excerpt.

use vstd::prelude::*;
use vstd::string::StringSliceAdditionalSpecFns;
use vstd::utf8::*;

use crate::diagnostic::{Diagnostic, Location, Severity, Span};
use crate::input::Input;
use crate::escape::{escape_into, escape_spec};
use crate::text::{decimal, push_chars, push_decimal, slice, suffix};
use crate::elide::{shown_between, shown_between_spec};
use crate::source::laws::{break_len, drawn_last, lemma_closing_line_follows_opening_line};
use crate::source::model::{
    column_at, drawn_end, is_atom_boundary, is_line_start, lemma_count_breaks_bound, lemma_line_end,
    lemma_line_start_of, line_end, line_number_at, line_start_of, splits_crlf,
};
use crate::source::{
    clip, clip_end, clip_start, resolved_end, resolved_start, Line, Opening, RegionLine, Source, Walk,
};
use crate::text::lemma_ascii_is_an_atom;

verus! {

broadcast use vstd::utf8::group_utf8_lib;

/// The text of `bytes`, escaped.
pub open spec fn escaped_bytes(bytes: Seq<u8>) -> Seq<char> {
    escape_spec(decode_utf8(bytes))
}

/// One source row: the line number, then the line's text with the bytes `from..to` of it wrapped
/// as the covered run, everything escaped.
pub open spec fn row_of(number: nat, text: Seq<u8>, from: int, to: int, role: Seq<char>) -> Seq<
    char,
> {
    "<span class=\"painty-row\"><span class=\"painty-gutter painty-number\">"@ + decimal(number)
        + "</span><span class=\"painty-text\">"@ + escaped_bytes(text.subrange(0, from))
        + "<span class=\"painty-covered "@ + role + "\">"@ + escaped_bytes(text.subrange(from, to))
        + "</span>"@ + escaped_bytes(text.subrange(to, text.len() as int)) + "</span></span>"@
}

/// The header: the severity's word, the code and the message.
pub open spec fn header_of(severity: Severity, code: Seq<char>, message: Seq<char>) -> Seq<char> {
    "<p class=\"painty-header\"><span class=\"painty-severity\">"@ + severity.name_spec()
        + "</span><span class=\"painty-code\">"@ + escape_spec(code)
        + "</span><span class=\"painty-message\">"@ + escape_spec(message) + "</span></p>\n"@
}

/// Where a block begins: the caller's name for the input, if it gave one, and `line:column`.
pub open spec fn origin_of(origin: Option<Seq<char>>, line: nat, column: nat) -> Seq<char> {
    "<p class=\"painty-origin\">"@ + match origin {
        Some(name) => "<span class=\"painty-name\">"@ + escape_spec(name) + "</span>"@,
        None => Seq::empty(),
    } + "<span class=\"painty-position\">"@ + decimal(line) + ":"@ + decimal(column)
        + "</span></p>\n"@
}

/// The class of a diagnostic's severity.
pub open spec fn severity_class(severity: Severity) -> Seq<char> {
    match severity {
        Severity::Error => "painty-error"@,
        Severity::Warning => "painty-warning"@,
        Severity::Advice => "painty-advice"@,
    }
}

/// The class of a position's role.
pub open spec fn role_class(primary: bool) -> Seq<char> {
    if primary {
        "painty-primary"@
    } else {
        "painty-secondary"@
    }
}

/// Writes one source row.
#[verifier::spinoff_prover]
#[verifier::rlimit(40)]
fn row(out: &mut String, line: RegionLine, role: &str)
    requires
        line.covered_spec().start_spec() >= line.line_spec().start_spec(),
        line.covered_spec().start_spec() <= line.covered_spec().end_spec() <= line.line_spec().end_spec(),
        is_char_boundary(
            line.line_spec().bytes_spec(),
            line.covered_spec().start_spec() - line.line_spec().start_spec(),
        ),
        is_char_boundary(
            line.line_spec().bytes_spec(),
            line.covered_spec().end_spec() - line.line_spec().start_spec(),
        ),
    ensures
        final(out)@ == old(out)@ + row_of(
            line.line_spec().number_spec() as nat,
            line.line_spec().bytes_spec(),
            line.covered_spec().start_spec() - line.line_spec().start_spec(),
            line.covered_spec().end_spec() - line.line_spec().start_spec(),
            role@,
        ),
{
    let source_line = line.line();
    let text = source_line.text();
    proof {
        crate::text::lemma_valid(text);
    }
    let base = source_line.span().start();
    let covered = line.covered();
    let from = covered.start() - base;
    let to = covered.end() - base;
    let ghost start = out@;
    push_chars(out, "<span class=\"painty-row\"><span class=\"painty-gutter painty-number\">");
    push_decimal(out, source_line.number());
    push_chars(out, "</span><span class=\"painty-text\">");
    let before = slice(text, 0, from);
    let inside = slice(text, from, to);
    let after = suffix(text, to);
    proof {
        encode_utf8_decode_utf8(before@);
        encode_utf8_decode_utf8(inside@);
        encode_utf8_decode_utf8(after@);
    }
    escape_into(out, before);
    push_chars(out, "<span class=\"painty-covered ");
    push_chars(out, role);
    push_chars(out, "\">");
    escape_into(out, inside);
    push_chars(out, "</span>");
    escape_into(out, after);
    push_chars(out, "</span></span>");
}

/// Writes the header.
fn header(out: &mut String, diagnostic: &Diagnostic)
    ensures
        final(out)@ == old(out)@ + header_of(
            diagnostic.severity_spec(),
            diagnostic.code_spec()@,
            diagnostic.message_spec()@,
        ),
{
    push_chars(out, "<p class=\"painty-header\"><span class=\"painty-severity\">");
    push_chars(out, diagnostic.severity().as_str());
    push_chars(out, "</span><span class=\"painty-code\">");
    escape_into(out, diagnostic.code());
    push_chars(out, "</span><span class=\"painty-message\">");
    escape_into(out, diagnostic.message());
    push_chars(out, "</span></p>\n");
}

/// Writes what the input is called, and where in it the block begins.
fn origin(out: &mut String, name: Option<&str>, line: u64, column: u64)
    ensures
        final(out)@ == old(out)@ + origin_of(
            match name {
                Some(text) => Some(text@),
                None => None,
            },
            line as nat,
            column as nat,
        ),
{
    push_chars(out, "<p class=\"painty-origin\">");
    match name {
        Some(text) => {
            push_chars(out, "<span class=\"painty-name\">");
            escape_into(out, text);
            push_chars(out, "</span>");
        },
        None => {},
    }
    push_chars(out, "<span class=\"painty-position\">");
    push_decimal(out, line);
    push_chars(out, ":");
    push_decimal(out, column);
    push_chars(out, "</span></p>\n");
}


/// Where the part of `start..end` that falls on the content `line_start..line_end` begins.
pub open spec fn clipped_from(line_start: int, line_end: int, start: int) -> int {
    let from = if start >= line_start {
        start
    } else {
        line_start
    };
    if from <= line_end {
        from
    } else {
        line_end
    }
}

/// Where that part ends.
pub open spec fn clipped_to(line_start: int, line_end: int, start: int, end: int) -> int {
    let from = clipped_from(line_start, line_end, start);
    let to = if end <= line_end {
        end
    } else {
        line_end
    };
    if to >= from {
        to
    } else {
        from
    }
}

/// The row for the line of `bytes` that begins at `line_start`, with the part of `start..end`
/// that falls on it covered.
pub open spec fn row_at(bytes: Seq<u8>, line_start: int, start: int, end: int, role: Seq<char>) -> Seq<
    char,
> {
    let le = line_end(bytes, line_start);
    row_of(
        line_number_at(bytes, line_start),
        bytes.subrange(line_start, le),
        clipped_from(line_start, le, start) - line_start,
        clipped_to(line_start, le, start, end) - line_start,
        role,
    )
}

/// Where the line after the one beginning at `line_start` begins, when a break ends it.
pub open spec fn line_after_start(bytes: Seq<u8>, line_start: int) -> int {
    line_end(bytes, line_start) + break_len(bytes, line_end(bytes, line_start))
}

/// The row standing for the lines left out between two rows of one span.
pub open spec fn elision_row() -> Seq<char> {
    "<span class=\"painty-row painty-elision\"><span class=\"painty-gutter painty-number\">\u{22ee}</span><span class=\"painty-text\"></span></span>"@
}

/// The rows one position is drawn on, in `bytes`, which is the input `input` of `diagnostic`.
///
/// The line its resolved start is on; and, for a span that reaches another line, the rows
/// [`tail_of`] draws after it.
#[verifier::opaque]
spec fn excerpt_of(
    diagnostic: Diagnostic,
    supplied: int,
    input: int,
    bytes: Seq<u8>,
    span: Span,
    role: Seq<char>,
) -> Seq<char> {
    let start = resolved_start(bytes, span);
    let end = resolved_end(bytes, span);
    let first_start = line_start_of(bytes, start);
    let first_end = line_end(bytes, first_start);
    let opening = row_at(bytes, first_start, start, end, role);
    if end > first_end + break_len(bytes, first_end) {
        opening + tail_of(diagnostic, supplied, input, bytes, start, end, role)
    } else {
        opening
    }
}

/// One position: its excerpt, and the phrase attached to it.
spec fn mark_of(
    diagnostic: Diagnostic,
    supplied: int,
    input: int,
    bytes: Seq<u8>,
    span: Span,
    text: Option<Seq<char>>,
    primary: bool,
) -> Seq<char> {
    let role = role_class(primary);
    "<div class=\"painty-mark "@ + role + "\">\n<pre class=\"painty-excerpt\">"@ + excerpt_of(
        diagnostic,
        supplied,
        input,
        bytes,
        span,
        role,
    ) + "</pre>\n"@ + match text {
        Some(phrase) => "<p class=\"painty-label "@ + role + "\">"@ + escape_spec(phrase)
            + "</p>\n"@,
        None => Seq::empty(),
    } + "</div>\n"@
}

/// The line `line` of `bytes`, clipped to `span`, is what [`row_at`] draws.
pub(crate) proof fn lemma_clipped_row(bytes: Seq<u8>, line: Line, span: Span)
    requires
        valid_utf8(bytes),
        line.is_line_of(bytes),
        span.start_spec() <= span.end_spec() <= bytes.len(),
        is_atom_boundary(bytes, span.start_spec() as int),
        is_atom_boundary(bytes, span.end_spec() as int),
    ensures
        ({
            let from = clip_start(line, span);
            let to = clip_end(line, span);
            &&& line.start_spec() <= from <= to <= line.end_spec()
            &&& is_char_boundary(line.bytes_spec(), from - line.start_spec())
            &&& is_char_boundary(line.bytes_spec(), to - line.start_spec())
            &&& from == clipped_from(
                line.start_spec() as int,
                line.end_spec(),
                span.start_spec() as int,
            )
            &&& to == clipped_to(
                line.start_spec() as int,
                line.end_spec(),
                span.start_spec() as int,
                span.end_spec() as int,
            )
        }),
{
    let ls = line.start_spec() as int;
    let le = line.end_spec();
    lemma_line_end(bytes, ls);
    vstd::utf8::is_char_boundary_start_end_of_seq(bytes);
    if ls > 0 {
        lemma_ascii_is_an_atom(bytes, ls - 1);
    }
    if le < bytes.len() {
        lemma_ascii_is_an_atom(bytes, le);
    }
    let from = clip_start(line, span);
    let to = clip_end(line, span);
    crate::text::lemma_boundary_of_subrange(bytes, ls, le, from);
    crate::text::lemma_boundary_of_subrange(bytes, ls, le, to);
}

/// The first line a span is drawn on, once resolved against `bytes`.
pub open spec fn first_line_of(bytes: Seq<u8>, span: Span) -> int {
    line_number_at(bytes, resolved_start(bytes, span)) as int
}

/// The last line a span is drawn on, once resolved against `bytes`.
pub open spec fn last_line_of(bytes: Seq<u8>, span: Span) -> int {
    drawn_last(bytes, resolved_start(bytes, span), resolved_end(bytes, span)) as int
}

/// `best`, or `line` where it lies after `after` and before `best`.
pub open spec fn nearer(best: int, line: int, after: int) -> int {
    if after < line && line < best {
        line
    } else {
        best
    }
}

/// The nearest anchor of `input` after line `after` and before `best`, among the positions from
/// `at` on: an anchor is a line the first or the last line of a position falls on, and `best`
/// when there is none nearer.
pub(crate) open spec fn next_anchor_from(
    diagnostic: Diagnostic,
    supplied: int,
    input: int,
    bytes: Seq<u8>,
    after: int,
    at: int,
    best: int,
) -> int
    decreases diagnostic.labels_spec().len() + 1 - at,
{
    if at < 0 || at > diagnostic.labels_spec().len() {
        best
    } else {
        let nearest = match drawable_at(diagnostic, at, supplied) {
            Some(position) => if position.input == input {
                nearer(
                    nearer(best, first_line_of(bytes, position.span), after),
                    last_line_of(bytes, position.span),
                    after,
                )
            } else {
                best
            },
            None => best,
        };
        next_anchor_from(diagnostic, supplied, input, bytes, after, at + 1, nearest)
    }
}

/// The anchor of `input` that follows line `after`, or `last` when none comes before it.
pub(crate) open spec fn next_anchor(
    diagnostic: Diagnostic,
    supplied: int,
    input: int,
    bytes: Seq<u8>,
    after: int,
    last: int,
) -> int {
    next_anchor_from(diagnostic, supplied, input, bytes, after, 0, last)
}

/// Whether a span of `input` that reaches a later line opens on `line`, among the positions from
/// `at` on.
pub(crate) open spec fn opens_from(
    diagnostic: Diagnostic,
    supplied: int,
    input: int,
    bytes: Seq<u8>,
    line: int,
    at: int,
) -> bool
    decreases diagnostic.labels_spec().len() + 1 - at,
{
    if at < 0 || at > diagnostic.labels_spec().len() {
        false
    } else {
        (match drawable_at(diagnostic, at, supplied) {
            Some(position) => position.input == input && first_line_of(bytes, position.span) == line
                && last_line_of(bytes, position.span) > line,
            None => false,
        }) || opens_from(diagnostic, supplied, input, bytes, line, at + 1)
    }
}

/// Whether a span of `input` that reaches a later line opens on `line`.
pub(crate) open spec fn opens_on(diagnostic: Diagnostic, supplied: int, input: int, bytes: Seq<u8>, line: int) -> bool {
    opens_from(diagnostic, supplied, input, bytes, line, 0)
}

/// Whether a line follows the line beginning at `line_start`.
pub open spec fn has_next_line(bytes: Seq<u8>, line_start: int) -> bool {
    &&& line_start >= 0
    &&& crate::source::break_at_spec(bytes, line_end(bytes, line_start)) is Some
    &&& line_start < line_after_start(bytes, line_start) <= bytes.len()
}

/// The rows drawn after the line beginning at `line_start`, of a span that closes on line `last`.
///
/// Walked a line at a time. `previous` is the last anchor of the input walked past, `next` the
/// anchor after it, and `gap` whether a gap row already stands for lines left out since
/// `previous`. A line is drawn when it is the next anchor or when the shared elision rule shows
/// it after `previous`; the first line left out is drawn as a gap row, and the rest as nothing.
spec fn rows_after(
    diagnostic: Diagnostic,
    supplied: int,
    input: int,
    bytes: Seq<u8>,
    line_start: int,
    last: int,
    previous: int,
    next: int,
    gap: bool,
    start: int,
    end: int,
    role: Seq<char>,
) -> Seq<char>
    decreases bytes.len() - line_start,
{
    let current = line_number_at(bytes, line_start) as int;
    if current < last && has_next_line(bytes, line_start) {
        let following = line_after_start(bytes, line_start);
        let number = current + 1;
        if number == next {
            "\n"@ + row_at(bytes, following, start, end, role) + rows_after(
                diagnostic,
                supplied,
                input,
                bytes,
                following,
                last,
                next,
                next_anchor(diagnostic, supplied, input, bytes, next, last),
                false,
                start,
                end,
                role,
            )
        } else if number <= shown_between_spec(
            previous,
            next,
            opens_on(diagnostic, supplied, input, bytes, previous),
        ) {
            "\n"@ + row_at(bytes, following, start, end, role) + rows_after(
                diagnostic,
                supplied,
                input,
                bytes,
                following,
                last,
                previous,
                next,
                false,
                start,
                end,
                role,
            )
        } else if !gap {
            "\n"@ + elision_row() + rows_after(
                diagnostic,
                supplied,
                input,
                bytes,
                following,
                last,
                previous,
                next,
                true,
                start,
                end,
                role,
            )
        } else {
            rows_after(
                diagnostic,
                supplied,
                input,
                bytes,
                following,
                last,
                previous,
                next,
                true,
                start,
                end,
                role,
            )
        }
    } else {
        Seq::empty()
    }
}

/// The rows after the first of a span that reaches another line, in the input `input` of
/// `diagnostic`: every line up to the one the span closes on is walked, and which are drawn is
/// decided over the input's anchors by the shared elision rule, the span's own first line being
/// the first anchor.
spec fn tail_of(
    diagnostic: Diagnostic,
    supplied: int,
    input: int,
    bytes: Seq<u8>,
    start: int,
    end: int,
    role: Seq<char>,
) -> Seq<char> {
    let first_start = line_start_of(bytes, start);
    let last_start = line_start_of(bytes, drawn_end(bytes, start, end));
    let first = line_number_at(bytes, first_start) as int;
    let last = line_number_at(bytes, last_start) as int;
    rows_after(
        diagnostic,
        supplied,
        input,
        bytes,
        first_start,
        last,
        first,
        next_anchor(diagnostic, supplied, input, bytes, first, last),
        false,
        start,
        end,
        role,
    )
}

/// The nearest anchor keeps within `after` and `best`, and is `best` when nothing lies between.
pub(crate) proof fn lemma_next_anchor_bounds(
    diagnostic: Diagnostic,
    supplied: int,
    input: int,
    bytes: Seq<u8>,
    after: int,
    at: int,
    best: int,
)
    requires
        at >= 0,
    ensures
        after < best ==> after < next_anchor_from(diagnostic, supplied, input, bytes, after, at, best)
            <= best,
        after >= best ==> next_anchor_from(diagnostic, supplied, input, bytes, after, at, best)
            == best,
    decreases diagnostic.labels_spec().len() + 1 - at,
{
    if at <= diagnostic.labels_spec().len() {
        let nearest = match drawable_at(diagnostic, at, supplied) {
            Some(position) => if position.input == input {
                nearer(
                    nearer(best, first_line_of(bytes, position.span), after),
                    last_line_of(bytes, position.span),
                    after,
                )
            } else {
                best
            },
            None => best,
        };
        lemma_next_anchor_bounds(diagnostic, supplied, input, bytes, after, at + 1, nearest);
    }
}

/// The first and the last line a span is drawn on.
pub(crate) fn span_lines(source: Source, span: Span) -> (lines: (u64, u64))
    ensures
        lines.0 == first_line_of(source.bytes_spec(), span),
        lines.1 == last_line_of(source.bytes_spec(), span),
{
    let region = source.resolve(span);
    let first = region.start().line();
    let count = region.line_count();
    (first, first + (count - 1))
}

/// The anchor of `input` that follows line `after`, or `last` when none comes before it.
pub(crate) fn next_anchor_exec(
    diagnostic: &Diagnostic,
    supplied: usize,
    input: usize,
    source: Source,
    after: u64,
    last: u64,
) -> (next: u64)
    requires
        after < last,
    ensures
        next == next_anchor(*diagnostic, supplied as int, input as int, source.bytes_spec(), after as int, last as int),
        after < next <= last,
{
    let n = diagnostic.labels().len();
    let mut best = last;
    let mut at: usize = 0;
    proof {
        lemma_next_anchor_bounds(*diagnostic, supplied as int, input as int, source.bytes_spec(), after as int, 0, last as int);
    }
    let mut done = false;
    while !done
        invariant
            n == diagnostic.labels_spec().len(),
            at <= n,
            after < best <= last,
            next_anchor(*diagnostic, supplied as int, input as int, source.bytes_spec(), after as int, last as int)
                == next_anchor_from(
                *diagnostic,
                supplied as int,
                input as int,
                source.bytes_spec(),
                after as int,
                if done { n + 1 } else { at as int },
                best as int,
            ),
        decreases n - at + if done { 0int } else { 1int },
    {
        match drawable(diagnostic, at, supplied) {
            Some(position) => {
                if position.input == input {
                    let (first, closing) = span_lines(source, position.span);
                    if after < first && first < best {
                        best = first;
                    }
                    if after < closing && closing < best {
                        best = closing;
                    }
                }
            },
            None => {},
        }
        if at == n {
            done = true;
        } else {
            at += 1;
        }
    }
    best
}

/// Whether a span of `input` that reaches a later line opens on `line`.
pub(crate) fn opens_on_exec(diagnostic: &Diagnostic, supplied: usize, input: usize, source: Source, line: u64) -> (opens: bool)
    ensures
        opens == opens_on(*diagnostic, supplied as int, input as int, source.bytes_spec(), line as int),
{
    let n = diagnostic.labels().len();
    let mut at: usize = 0;
    let mut done = false;
    while !done
        invariant
            n == diagnostic.labels_spec().len(),
            at <= n,
            opens_on(*diagnostic, supplied as int, input as int, source.bytes_spec(), line as int)
                == opens_from(
                *diagnostic,
                supplied as int,
                input as int,
                source.bytes_spec(),
                line as int,
                if done { n + 1 } else { at as int },
            ),
        decreases n - at + if done { 0int } else { 1int },
    {
        match drawable(diagnostic, at, supplied) {
            Some(position) => {
                if position.input == input {
                    let (first, closing) = span_lines(source, position.span);
                    if first == line && closing > line {
                        return true;
                    }
                }
            },
            None => {},
        }
        if at == n {
            done = true;
        } else {
            at += 1;
        }
    }
    false
}

/// Writes the rows after the first for a span that reaches another line.
#[verifier::rlimit(60)]
fn tail<'a>(
    out: &mut String,
    walk: &mut Walk<'a>,
    source: Source<'a>,
    diagnostic: &Diagnostic,
    supplied: usize,
    input: usize,
    opening: &Opening<'a>,
    role: &str,
)
    requires
        old(walk).wf(),
        old(walk).source_spec() == source,
        old(walk).offset_spec() == opening.span_spec().start_spec(),
        valid_utf8(source.bytes_spec()),
        opening.span_spec().start_spec() <= opening.span_spec().end_spec() <= source.bytes_spec().len(),
        is_atom_boundary(source.bytes_spec(), opening.span_spec().start_spec() as int),
        is_atom_boundary(source.bytes_spec(), opening.span_spec().end_spec() as int),
        opening.line_spec().line_spec().is_line_of(source.bytes_spec()),
        opening.line_spec().line_spec().start_spec() == line_start_of(
            source.bytes_spec(),
            opening.span_spec().start_spec() as int,
        ),
        opening.span_spec().end_spec() > line_end(
            source.bytes_spec(),
            line_start_of(source.bytes_spec(), opening.span_spec().start_spec() as int),
        ) + break_len(
            source.bytes_spec(),
            line_end(
                source.bytes_spec(),
                line_start_of(source.bytes_spec(), opening.span_spec().start_spec() as int),
            ),
        ),
    ensures
        final(walk).wf(),
        final(walk).source_spec() == source,
        final(out)@ == old(out)@ + tail_of(
            *diagnostic,
            supplied as int,
            input as int,
            source.bytes_spec(),
            opening.span_spec().start_spec() as int,
            opening.span_spec().end_spec() as int,
            role@,
        ),
{
    let clamped = opening.span();
    let first_row = opening.line();
    let text = source.text();
    let ghost b = source.bytes_spec();
    let ghost s = clamped.start_spec() as int;
    let ghost e = clamped.end_spec() as int;
    let ghost ls = line_start_of(b, s);
    proof {
        lemma_closing_line_follows_opening_line(b, s, e);
        lemma_count_breaks_bound(b, s);
        lemma_line_start_of(b, s);
    }
    let closing = walk.close(opening);
    let first = first_row.line().number();
    let last = closing.line().number();
    proof {
        lemma_line_start_of(b, drawn_end(b, s, e));
        lemma_count_breaks_bound(b, drawn_end(b, s, e));
    }
    let mut previous = first;
    let mut next = next_anchor_exec(diagnostic, supplied, input, source, first, last);
    let mut opens = opens_on_exec(diagnostic, supplied, input, source, previous);
    let mut gap = false;
    let mut line = first_row.line();
    let ghost rows_start = out@;
    let mut going = true;
    while going && line.number() < last
        invariant
            line.is_line_of(b),
            valid_utf8(b),
            b == source.bytes_spec(),
            b.len() <= isize::MAX,
            last <= b.len() + 1,
            clamped.start_spec() <= clamped.end_spec() <= b.len(),
            is_atom_boundary(b, clamped.start_spec() as int),
            is_atom_boundary(b, clamped.end_spec() as int),
            s == clamped.start_spec(),
            e == clamped.end_spec(),
            previous <= line.number_spec(),
            line.number_spec() < last ==> line.number_spec() < next <= last,
            opens == opens_on(*diagnostic, supplied as int, input as int, b, previous as int),
            rows_start + tail_of(*diagnostic, supplied as int, input as int, b, s, e, role@) == out@
                + rows_after(
                *diagnostic,
                supplied as int,
                input as int,
                b,
                line.start_spec() as int,
                last as int,
                previous as int,
                next as int,
                gap,
                s,
                e,
                role@,
            ),
            !going ==> line.break_spec() is None,
        decreases b.len() - line.start_spec() + if going { 1int } else { 0int },
    {
        proof {
            lemma_line_end(b, line.start_spec() as int);
        }
        match source.line_after(line) {
            None => {
                going = false;
            },
            Some(following) => {
                let number = line.number() + 1;
                if number == next {
                    proof {
                        lemma_clipped_row(b, following, clamped);
                    }
                    let clipped = clip(following, clamped, Ghost(b));
                    push_chars(out, "\n");
                    row(out, clipped, role);
                    previous = next;
                    if previous < last {
                        next = next_anchor_exec(diagnostic, supplied, input, source, previous, last);
                    } else {
                        proof {
                            lemma_next_anchor_bounds(*diagnostic, supplied as int, input as int, b, previous as int, 0, last as int);
                        }
                    }
                    opens = opens_on_exec(diagnostic, supplied, input, source, previous);
                    gap = false;
                } else if number <= shown_between(previous, next, opens) {
                    proof {
                        lemma_clipped_row(b, following, clamped);
                    }
                    let clipped = clip(following, clamped, Ghost(b));
                    push_chars(out, "\n");
                    row(out, clipped, role);
                    gap = false;
                } else if !gap {
                    push_chars(out, "\n");
                    push_chars(
                        out,
                        "<span class=\"painty-row painty-elision\"><span class=\"painty-gutter painty-number\">\u{22ee}</span><span class=\"painty-text\"></span></span>",
                    );
                    gap = true;
                }
                line = following;
            },
        }
    }
    let _ = text;
}

/// Writes the rows one position is drawn on.
fn excerpt<'a>(
    out: &mut String,
    walk: &mut Walk<'a>,
    source: Source<'a>,
    diagnostic: &Diagnostic,
    supplied: usize,
    input: usize,
    span: Span,
    role: &str,
)
    requires
        old(walk).wf(),
        old(walk).source_spec() == source,
    ensures
        final(walk).wf(),
        final(walk).source_spec() == source,
        final(out)@ == old(out)@ + excerpt_of(
            *diagnostic,
            supplied as int,
            input as int,
            source.bytes_spec(),
            span,
            role@,
        ),
{
    let ghost b = source.bytes_spec();
    let _ = source.text();
    let opening = walk.open(span);
    let clamped = opening.span();
    let first_row = opening.line();
    proof {
        reveal(excerpt_of);
    }
    proof {
        lemma_clipped_row(b, first_row.line_spec(), clamped);
        lemma_line_start_of(b, clamped.start_spec() as int);
    }
    row(out, first_row, role);
    if opening.reaches_another_line() {
        tail(out, walk, source, diagnostic, supplied, input, &opening, role);
    }
}

/// Writes one position: its excerpt, and the phrase attached to it.
fn mark<'a>(
    out: &mut String,
    walk: &mut Walk<'a>,
    source: Source<'a>,
    diagnostic: &Diagnostic,
    supplied: usize,
    input: usize,
    span: Span,
    text: Option<&str>,
    primary: bool,
)
    requires
        old(walk).wf(),
        old(walk).source_spec() == source,
    ensures
        final(walk).wf(),
        final(walk).source_spec() == source,
        final(out)@ == old(out)@ + mark_of(
            *diagnostic,
            supplied as int,
            input as int,
            source.bytes_spec(),
            span,
            match text {
                Some(phrase) => Some(phrase@),
                None => None,
            },
            primary,
        ),
{
    let role = if primary {
        "painty-primary"
    } else {
        "painty-secondary"
    };
    push_chars(out, "<div class=\"painty-mark ");
    push_chars(out, role);
    push_chars(out, "\">\n<pre class=\"painty-excerpt\">");
    excerpt(out, walk, source, diagnostic, supplied, input, span, role);
    push_chars(out, "</pre>\n");
    match text {
        Some(phrase) => {
            push_chars(out, "<p class=\"painty-label ");
            push_chars(out, role);
            push_chars(out, "\">");
            escape_into(out, phrase);
            push_chars(out, "</p>\n");
        },
        None => {},
    }
    push_chars(out, "</div>\n");
}

/// One position a diagnostic names that a render can draw: where it was in the caller's order
/// (the primary is zero), which input it is in, its span, its phrase, and whether it is the
/// primary.
#[derive(Clone, Copy)]
pub(crate) struct Drawable<'a> {
    pub(crate) at: usize,
    pub(crate) input: usize,
    pub(crate) span: Span,
    pub(crate) text: Option<&'a str>,
    pub(crate) primary: bool,
}

/// The position at `at` in the caller's order (the primary, then each label), if it names an
/// input among the `supplied` ones and a span within it.
pub(crate) open spec fn drawable_at<'a>(diagnostic: Diagnostic<'a>, at: int, supplied: int) -> Option<Drawable<'a>> {
    let labels = diagnostic.labels_spec();
    if 0 <= at <= labels.len() && at <= usize::MAX {
        let location = if at == 0 {
            diagnostic.primary_spec()
        } else {
            labels[at - 1].location_spec()
        };
        let text = if at == 0 {
            diagnostic.primary_label_spec()
        } else {
            Some(labels[at - 1].text_spec())
        };
        if (location.source_spec() as int) < supplied && location.span_spec() is Some {
            Some(
                Drawable {
                    at: at as usize,
                    input: location.source_spec() as usize,
                    span: location.span_spec()->0,
                    text,
                    primary: at == 0,
                },
            )
        } else {
            None
        }
    } else {
        None
    }
}

/// Whether the position at `at` is the first the caller names in its input.
pub(crate) open spec fn first_in_its_input(diagnostic: Diagnostic, at: int, supplied: int) -> bool {
    &&& drawable_at(diagnostic, at, supplied) is Some
    &&& forall|earlier: int|
        0 <= earlier < at ==> !(#[trigger] drawable_at(diagnostic, earlier, supplied) matches Some(
            other,
        ) && other.input == drawable_at(diagnostic, at, supplied)->0.input)
}

/// Whether `position` comes after `after` in source order: by where its span starts, then by the
/// caller's order.
pub(crate) open spec fn comes_after(after: Option<(int, int)>, position: Drawable) -> bool {
    match after {
        None => true,
        Some(key) => key.0 < position.span.start_spec() || (key.0 == position.span.start_spec()
            && key.1 < position.at),
    }
}

/// Whether `a` comes before `b` in source order.
pub(crate) open spec fn before(a: Drawable, b: Drawable) -> bool {
    a.span.start_spec() < b.span.start_spec() || (a.span.start_spec() == b.span.start_spec() && a.at
        < b.at)
}

/// The key a position is ordered by.
pub(crate) open spec fn key_of(position: Drawable) -> Option<(int, int)> {
    Some((position.span.start_spec() as int, position.at as int))
}

/// Whether the position at `at` is in `input` and comes after `after`.
pub(crate) open spec fn pending(diagnostic: Diagnostic, supplied: int, input: int, after: Option<(int, int)>, at: int) -> bool {
    drawable_at(diagnostic, at, supplied) matches Some(position) && position.input == input
        && comes_after(after, position)
}

/// The earliest in source order of the positions at `at` and later that are pending, against
/// `best` so far.
pub(crate) open spec fn earliest_from<'a>(
    diagnostic: Diagnostic<'a>,
    supplied: int,
    input: int,
    after: Option<(int, int)>,
    at: int,
    best: Option<Drawable<'a>>,
) -> Option<Drawable<'a>>
    decreases diagnostic.labels_spec().len() + 1 - at,
{
    if at < 0 || at > diagnostic.labels_spec().len() {
        best
    } else {
        let candidate = drawable_at(diagnostic, at, supplied);
        let better = pending(diagnostic, supplied, input, after, at) && match best {
            None => true,
            Some(so_far) => before(candidate->0, so_far),
        };
        earliest_from(
            diagnostic,
            supplied,
            input,
            after,
            at + 1,
            if better {
                candidate
            } else {
                best
            },
        )
    }
}

/// How many positions at `at` and later are pending.
pub(crate) open spec fn pending_count(diagnostic: Diagnostic, supplied: int, input: int, after: Option<(int, int)>, at: int) -> nat
    decreases diagnostic.labels_spec().len() + 1 - at,
{
    if at < 0 || at > diagnostic.labels_spec().len() {
        0
    } else {
        (if pending(diagnostic, supplied, input, after, at) {
            1nat
        } else {
            0nat
        }) + pending_count(diagnostic, supplied, input, after, at + 1)
    }
}

/// The marks of one input after `after`, in source order.
spec fn marks_from(
    diagnostic: Diagnostic,
    supplied: int,
    input: int,
    bytes: Seq<u8>,
    after: Option<(int, int)>,
) -> Seq<char>
    decreases pending_count(diagnostic, supplied, input, after, 0),
{
    match earliest_from(diagnostic, supplied, input, after, 0, None) {
        None => Seq::empty(),
        Some(position) => if pending_count(diagnostic, supplied, input, key_of(position), 0)
            < pending_count(diagnostic, supplied, input, after, 0) {
            mark_of(
                diagnostic,
                supplied,
                input,
                bytes,
                position.span,
                match position.text {
                    Some(phrase) => Some(phrase@),
                    None => None,
                },
                position.primary,
            ) + marks_from(diagnostic, supplied, input, bytes, key_of(position))
        } else {
            Seq::empty()
        },
    }
}

/// Everything drawn for the input the position `first` is the first of.
#[verifier::opaque]
spec fn block_of(diagnostic: Diagnostic, inputs: Seq<Input>, first: Drawable) -> Seq<char> {
    let input = inputs[first.input as int];
    let bytes = input.source_spec().bytes_spec();
    let start = resolved_start(bytes, first.span);
    "<section class=\"painty-block\">\n"@ + origin_of(
        match input.origin_spec() {
            Some(name) => Some(name@),
            None => None,
        },
        line_number_at(bytes, start),
        column_at(bytes, start),
    ) + marks_from(diagnostic, inputs.len() as int, first.input as int, bytes, None)
        + "</section>\n"@
}

/// The blocks from the position at `at` on, one for each input, in the order the inputs first
/// appear.
spec fn blocks_from(diagnostic: Diagnostic, inputs: Seq<Input>, at: int) -> Seq<char>
    decreases diagnostic.labels_spec().len() + 1 - at,
{
    if at < 0 || at > diagnostic.labels_spec().len() {
        Seq::empty()
    } else {
        (if first_in_its_input(diagnostic, at, inputs.len() as int) {
            block_of(diagnostic, inputs, drawable_at(diagnostic, at, inputs.len() as int)->0)
        } else {
            Seq::empty()
        }) + blocks_from(diagnostic, inputs, at + 1)
    }
}

/// The whole document for `diagnostic` against `inputs`.
///
/// A root element classed by severity, the header, one block per input the diagnostic draws in
/// (in the order the inputs first appear among the primary and the labels, each opening with
/// the input's name and the line and character column of its earliest position in the caller's
/// order, then one mark per position in source order), the help, and the root's close. A
/// position whose input is not among `inputs`, or which names a whole input, draws nothing.
pub closed spec fn document_of(diagnostic: Diagnostic, inputs: Seq<Input>) -> Seq<char> {
    "<div class=\"painty "@ + severity_class(diagnostic.severity_spec()) + "\">\n"@ + header_of(
        diagnostic.severity_spec(),
        diagnostic.code_spec()@,
        diagnostic.message_spec()@,
    ) + blocks_from(diagnostic, inputs, 0) + match diagnostic.help_spec() {
        Some(help) => "<p class=\"painty-help\">"@ + escape_spec(help@) + "</p>\n"@,
        None => Seq::empty(),
    } + "</div>\n"@
}

/// The blocks of the document for `diagnostic` against `inputs`: one for each input the diagnostic
/// draws in, in the order the inputs first appear among the primary and the labels.
pub closed spec fn blocks_of(diagnostic: Diagnostic, inputs: Seq<Input>) -> Seq<char> {
    blocks_from(diagnostic, inputs, 0)
}

/// What surrounds the blocks of a document: the root element classed by severity, the header,
/// then the blocks, the help when there is one, and the root's close.
pub proof fn lemma_document_of(diagnostic: Diagnostic, inputs: Seq<Input>)
    ensures
        document_of(diagnostic, inputs) == "<div class=\"painty "@ + severity_class(
            diagnostic.severity_spec(),
        ) + "\">\n"@ + header_of(
            diagnostic.severity_spec(),
            diagnostic.code_spec()@,
            diagnostic.message_spec()@,
        ) + blocks_of(diagnostic, inputs) + match diagnostic.help_spec() {
            Some(help) => "<p class=\"painty-help\">"@ + escape_spec(help@) + "</p>\n"@,
            None => Seq::empty(),
        } + "</div>\n"@,
{
}

/// A diagnostic none of whose positions names a span in a supplied input draws no block: a
/// position in an input the caller did not supply, or one naming a whole input, draws nothing.
pub proof fn lemma_nothing_drawable_draws_no_block(diagnostic: Diagnostic, inputs: Seq<Input>)
    requires
        diagnostic.primary_spec().source_spec() >= inputs.len()
            || diagnostic.primary_spec().span_spec() is None,
        forall|i: int|
            0 <= i < diagnostic.labels_spec().len() ==> (#[trigger] diagnostic.labels_spec()[i]).location_spec().source_spec()
                >= inputs.len() || diagnostic.labels_spec()[i].location_spec().span_spec() is None,
    ensures
        blocks_of(diagnostic, inputs) == Seq::<char>::empty(),
{
    lemma_no_blocks_from(diagnostic, inputs, 0);
}

/// No block is drawn from `at` on where no position from there is drawable.
proof fn lemma_no_blocks_from(diagnostic: Diagnostic, inputs: Seq<Input>, at: int)
    requires
        at >= 0,
        forall|k: int| at <= k ==> drawable_at(diagnostic, k, inputs.len() as int) is None,
    ensures
        blocks_from(diagnostic, inputs, at) == Seq::<char>::empty(),
    decreases diagnostic.labels_spec().len() + 1 - at,
{
    if at <= diagnostic.labels_spec().len() {
        assert(drawable_at(diagnostic, at, inputs.len() as int) is None);
        lemma_no_blocks_from(diagnostic, inputs, at + 1);
    }
}

/// The earliest pending position found is one the caller named, in the input asked about, after
/// `after`.
pub(crate) proof fn lemma_earliest_is_pending<'a>(
    diagnostic: Diagnostic<'a>,
    supplied: int,
    input: int,
    after: Option<(int, int)>,
    at: int,
    best: Option<Drawable<'a>>,
)
    requires
        at >= 0,
        best matches Some(so_far) ==> drawable_at(diagnostic, so_far.at as int, supplied) == best
            && pending(diagnostic, supplied, input, after, so_far.at as int),
    ensures
        earliest_from(diagnostic, supplied, input, after, at, best) matches Some(found) ==> drawable_at(
            diagnostic,
            found.at as int,
            supplied,
        ) == Some(found) && pending(diagnostic, supplied, input, after, found.at as int),
    decreases diagnostic.labels_spec().len() + 1 - at,
{
    if at <= diagnostic.labels_spec().len() {
        let candidate = drawable_at(diagnostic, at, supplied);
        let better = pending(diagnostic, supplied, input, after, at) && match best {
            None => true,
            Some(so_far) => before(candidate->0, so_far),
        };
        lemma_earliest_is_pending(
            diagnostic,
            supplied,
            input,
            after,
            at + 1,
            if better {
                candidate
            } else {
                best
            },
        );
    }
}

/// Once a pending position is drawn, fewer are pending after it than were after the key before:
/// everything pending after it was pending before, and it no longer is.
pub(crate) proof fn lemma_pending_drops(
    diagnostic: Diagnostic,
    supplied: int,
    input: int,
    after: Option<(int, int)>,
    drawn: Drawable,
    at: int,
)
    requires
        at >= 0,
        drawable_at(diagnostic, drawn.at as int, supplied) == Some(drawn),
        pending(diagnostic, supplied, input, after, drawn.at as int),
    ensures
        pending_count(diagnostic, supplied, input, key_of(drawn), at) <= pending_count(
            diagnostic,
            supplied,
            input,
            after,
            at,
        ),
        at <= drawn.at ==> pending_count(diagnostic, supplied, input, key_of(drawn), at)
            < pending_count(diagnostic, supplied, input, after, at),
    decreases diagnostic.labels_spec().len() + 1 - at,
{
    if at <= diagnostic.labels_spec().len() {
        lemma_pending_drops(diagnostic, supplied, input, after, drawn, at + 1);
    }
}

/// The position at `at` in the caller's order, if this render can draw it.
pub(crate) fn drawable<'a>(diagnostic: &Diagnostic<'a>, at: usize, supplied: usize) -> (found: Option<Drawable<'a>>)
    requires
        at <= diagnostic.labels_spec().len(),
    ensures
        found == drawable_at(*diagnostic, at as int, supplied as int),
{
    let (location, text): (Location, Option<&'a str>) = if at == 0 {
        (diagnostic.primary(), diagnostic.primary_label())
    } else {
        let label = diagnostic.labels()[at - 1];
        (label.location(), Some(label.text()))
    };
    let source = location.source() as usize;
    if source < supplied {
        match location.span() {
            Some(span) => Some(Drawable { at, input: source, span, text, primary: at == 0 }),
            None => None,
        }
    } else {
        None
    }
}

/// Whether the position at `at`, in `input`, is the first the caller names there.
pub(crate) fn first_in_input(diagnostic: &Diagnostic, at: usize, supplied: usize, input: usize) -> (first: bool)
    requires
        at <= diagnostic.labels_spec().len(),
        drawable_at(*diagnostic, at as int, supplied as int) matches Some(position) && position.input
            == input,
    ensures
        first == first_in_its_input(*diagnostic, at as int, supplied as int),
{
    let mut earlier: usize = 0;
    while earlier < at
        invariant
            earlier <= at <= diagnostic.labels_spec().len(),
            drawable_at(*diagnostic, at as int, supplied as int) matches Some(position)
                && position.input == input,
            forall|k: int|
                0 <= k < earlier ==> !(#[trigger] drawable_at(*diagnostic, k, supplied as int) matches Some(
                    other,
                ) && other.input == input),
        decreases at - earlier,
    {
        match drawable(diagnostic, earlier, supplied) {
            Some(other) => {
                if other.input == input {
                    return false;
                }
            },
            None => {},
        }
        earlier += 1;
    }
    true
}

/// The view of a source-order key.
pub(crate) open spec fn key_view(after: Option<(usize, usize)>) -> Option<(int, int)> {
    match after {
        Some(key) => Some((key.0 as int, key.1 as int)),
        None => None,
    }
}

/// Weighs the position at `at` against the earliest found so far.
fn consider<'a>(
    diagnostic: &Diagnostic<'a>,
    supplied: usize,
    input: usize,
    after: Option<(usize, usize)>,
    at: usize,
    best: Option<Drawable<'a>>,
) -> (next: Option<Drawable<'a>>)
    requires
        at <= diagnostic.labels_spec().len(),
    ensures
        earliest_from(*diagnostic, supplied as int, input as int, key_view(after), at as int, best)
            == earliest_from(
            *diagnostic,
            supplied as int,
            input as int,
            key_view(after),
            at + 1,
            next,
        ),
{
    let candidate = drawable(diagnostic, at, supplied);
    match candidate {
        Some(position) => {
            let after_key = match after {
                None => true,
                Some(k) => k.0 < position.span.start() || (k.0 == position.span.start() && k.1
                    < position.at),
            };
            if position.input == input && after_key {
                let better = match best {
                    None => true,
                    Some(so_far) => position.span.start() < so_far.span.start() || (
                    position.span.start() == so_far.span.start() && position.at < so_far.at),
                };
                if better {
                    return candidate;
                }
            }
            best
        },
        None => best,
    }
}

/// The earliest position of `input`, in source order, after the one keyed by `after`.
pub(crate) fn earliest<'a>(
    diagnostic: &Diagnostic<'a>,
    supplied: usize,
    input: usize,
    after: Option<(usize, usize)>,
) -> (found: Option<Drawable<'a>>)
    ensures
        found == earliest_from(*diagnostic, supplied as int, input as int, key_view(after), 0, None),
{
    let n = diagnostic.labels().len();
    let mut best = consider(diagnostic, supplied, input, after, 0, None);
    let mut at: usize = 0;
    while at < n
        invariant
            at <= n,
            n == diagnostic.labels_spec().len(),
            earliest_from(*diagnostic, supplied as int, input as int, key_view(after), 0, None)
                == earliest_from(
                *diagnostic,
                supplied as int,
                input as int,
                key_view(after),
                at + 1,
                best,
            ),
        decreases n - at,
    {
        best = consider(diagnostic, supplied, input, after, at + 1, best);
        at += 1;
    }
    best
}

/// Writes everything drawn for the input `first` is the first position of.
fn block<'a>(out: &mut String, diagnostic: &Diagnostic<'a>, inputs: &[Input<'a>], first: Drawable<'a>)
    requires
        first.input < inputs@.len(),
    ensures
        final(out)@ == old(out)@ + block_of(*diagnostic, inputs@, first),
{
    proof {
        reveal(block_of);
    }
    let supplied = inputs.len();
    let input = inputs[first.input];
    let source = input.source();
    let ghost b = source.bytes_spec();
    let mut walk = Walk::new(source);
    push_chars(out, "<section class=\"painty-block\">\n");
    let at = walk.open(first.span).at();
    origin(out, input.origin(), at.line(), at.column());
    let ghost marks_start = out@;
    let mut previous: Option<(usize, usize)> = None;
    let mut going = true;
    while going
        invariant
            walk.wf(),
            walk.source_spec() == source,
            b == source.bytes_spec(),
            supplied == inputs@.len(),
            marks_start + marks_from(*diagnostic, supplied as int, first.input as int, b, None)
                == out@ + if going {
                marks_from(
                    *diagnostic,
                    supplied as int,
                    first.input as int,
                    b,
                    match previous {
                        Some(key) => Some((key.0 as int, key.1 as int)),
                        None => None,
                    },
                )
            } else {
                Seq::empty()
            },
        decreases pending_count(
            *diagnostic,
            supplied as int,
            first.input as int,
            match previous {
                Some(key) => Some((key.0 as int, key.1 as int)),
                None => None,
            },
            0,
        ) + if going { 1int } else { 0int },
    {
        let ghost key = key_view(previous);
        match earliest(diagnostic, supplied, first.input, previous) {
            None => {
                going = false;
            },
            Some(position) => {
                proof {
                    lemma_earliest_is_pending(
                        *diagnostic,
                        supplied as int,
                        first.input as int,
                        key,
                        0,
                        None,
                    );
                    lemma_pending_drops(
                        *diagnostic,
                        supplied as int,
                        first.input as int,
                        key,
                        position,
                        0,
                    );
                }
                mark(
                    out,
                    &mut walk,
                    source,
                    diagnostic,
                    supplied,
                    first.input,
                    position.span,
                    position.text,
                    position.primary,
                );
                previous = Some((position.span.start(), position.at));
            },
        }
    }
    push_chars(out, "</section>\n");
}

/// Writes the block for the position at `at`, if it is the first the caller names in its input.
fn block_at<'a>(out: &mut String, diagnostic: &Diagnostic<'a>, inputs: &[Input<'a>], at: usize)
    requires
        at <= diagnostic.labels_spec().len(),
    ensures
        final(out)@ == old(out)@ + if first_in_its_input(*diagnostic, at as int, inputs@.len() as int) {
            block_of(*diagnostic, inputs@, drawable_at(*diagnostic, at as int, inputs@.len() as int)->0)
        } else {
            Seq::empty()
        },
{
    let supplied = inputs.len();
    match drawable(diagnostic, at, supplied) {
        Some(position) => {
            if first_in_input(diagnostic, at, supplied, position.input) {
                block(out, diagnostic, inputs, position);
            }
        },
        None => {},
    }
}

/// Writes the blocks, one for each input, in the order the inputs first appear.
fn blocks<'a>(out: &mut String, diagnostic: &Diagnostic<'a>, inputs: &[Input<'a>])
    ensures
        final(out)@ == old(out)@ + blocks_from(*diagnostic, inputs@, 0),
{
    let ghost blocks_start = out@;
    let n = diagnostic.labels().len();
    block_at(out, diagnostic, inputs, 0);
    let mut at: usize = 0;
    while at < n
        invariant
            at <= n,
            n == diagnostic.labels_spec().len(),
            blocks_start + blocks_from(*diagnostic, inputs@, 0) == out@ + blocks_from(
                *diagnostic,
                inputs@,
                at + 1,
            ),
        decreases n - at,
    {
        block_at(out, diagnostic, inputs, at + 1);
        at += 1;
    }
    proof {
        assert(blocks_from(*diagnostic, inputs@, n + 1) == Seq::<char>::empty());
    }
}

/// Renders a diagnostic and its source as HTML.
///
/// One element per thing, one class per role, and every byte of the caller's text escaped on
/// its way out. There is nothing to configure: appearance is the stylesheet's.
#[derive(Debug, Clone, Copy, PartialEq, Eq, Hash)]
#[non_exhaustive]
pub struct Html;

impl Default for Html {
    fn default() -> (html: Self)
        ensures
            html == Html,
    {
        Html
    }
}

impl Html {
    /// The renderer.
    pub fn new() -> (html: Self)
        ensures
            html == Html,
    {
        Html
    }

    /// Writes `diagnostic` against the caller's inputs, appending the document to `out`.
    ///
    /// A location's `source` indexes `inputs`: out of range draws no block rather than a
    /// fabricated one, on the same terms as a location that names a whole input. A diagnostic
    /// that names no drawable position still renders its header, its help and nothing between
    /// them. What is appended is exactly [`document_of`].
    pub fn render(&self, diagnostic: &Diagnostic, inputs: &[Input], out: &mut String)
        ensures
            final(out)@ == old(out)@ + document_of(*diagnostic, inputs@),
    {
        let ghost start = out@;
        push_chars(out, "<div class=\"painty ");
        let class = match diagnostic.severity() {
            Severity::Error => "painty-error",
            Severity::Warning => "painty-warning",
            Severity::Advice => "painty-advice",
        };
        push_chars(out, class);
        push_chars(out, "\">\n");
        header(out, diagnostic);
        blocks(out, diagnostic, inputs);
        match diagnostic.help() {
            Some(help) => {
                push_chars(out, "<p class=\"painty-help\">");
                escape_into(out, help);
                push_chars(out, "</p>\n");
            },
            None => {},
        }
        push_chars(out, "</div>\n");
    }
}

} // verus!
