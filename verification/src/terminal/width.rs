//! One source line, measured in the cells a fixed-width terminal gives it.
//!
//! Three units meet here. A byte offset indexes the caller's text; a character column counts
//! characters and is what [`Line::column_at`](crate::Line::column_at) reports; a display column
//! counts the cells a terminal paints, and agrees with neither: a CJK ideograph is one character
//! in two cells, a combining mark one character in none, and a tab one character in however many
//! cells the next tab stop is away.
//!
//! # The placement model
//!
//! A line is its sequence of extended grapheme clusters (UAX #29, by `unicode-segmentation`),
//! after sanitization: every control character but the tab is replaced by a visible stand-in of
//! one cell (a C0 character by its Control Picture, DEL by `␡`, C1 by the replacement character),
//! so nothing the caller wrote can steer a terminal. A tab is a cluster of its own and reaches the
//! next tab stop; every other cluster occupies exactly `unicode-width`'s width of that cluster
//! measured in isolation. A byte offset's display column is one plus the cells of the whole
//! clusters before the one it falls in, and a span widens outward to cluster boundaries. Width
//! rules that reach across cluster boundaries (Arabic lam then alef scoring one cell for the pair)
//! are rejected by this model: a cursor-addressable terminal has already placed the first cluster
//! when the second arrives. Columns saturate at `u64::MAX` rather than wrap.
//!
//! # Measuring, then placing
//!
//! What the two Unicode crates answer is gathered first, into one [`Cluster`] per cluster: how
//! many characters it holds, how many cells it occupies, and whether it is a tab. Everything after
//! that is arithmetic over those measurements, and it is public on its own —
//! [`column_in`], [`width_in`], [`columns_in`] and [`expand_in`] — so that it holds for any
//! measurements and can be checked on given ones. [`LineCells`] measures a line and hands its
//! clusters to them.

use vstd::prelude::*;
use vstd::string::{StrSliceExecFns, StringSliceAdditionalSpecFns};
use vstd::utf8::*;
use unicode_segmentation::UnicodeSegmentation;
use unicode_width::UnicodeWidthStr;

use crate::diagnostic::Span;
use crate::source::{clamp_into, lemma_prev_boundary_monotone, prev_boundary, Line};
use crate::text::{lemma_char_count_bound, lemma_valid, push_char, push_chars, slice};

verus! {

broadcast use {vstd::utf8::group_utf8_lib, vstd::string::group_string_axioms};

/// The cells `unicode-width` measures `text` at.
pub uninterp spec fn display_width(text: Seq<char>) -> nat;

/// The extended grapheme clusters `unicode-segmentation` splits `text` into.
pub uninterp spec fn grapheme_clusters(text: Seq<char>) -> Seq<Seq<char>>;

/// Measures `text` with `UnicodeWidthStr::width`.
///
/// The crate's width is a function of the text alone (its tables are compiled in), so its result
/// is named rather than restated: the contract claims only that the call returns
/// `display_width` of the characters it was handed.
#[verifier::external_body]
fn width_of(text: &str) -> (cells: usize)
    ensures
        cells == display_width(text@),
{
    text.width()
}

/// The views of a sequence of strings.
pub open spec fn views(strings: Seq<String>) -> Seq<Seq<char>> {
    strings.map_values(|string: String| string@)
}

/// Splits `text` into its extended grapheme clusters with `UnicodeSegmentation::graphemes`.
///
/// The crate walks a cursor from the start of the text to its end and yields each slice from one
/// boundary to the next, so the clusters are non-empty and, joined in order, are the text. Which
/// boundaries UAX #29 puts where is named rather than restated, but for one rule: its pair check
/// breaks before and after every control character but between a carriage return and a line feed
/// (rules GB4 and GB5, ahead of every rule that joins), so a tab is always a cluster of its own.
#[verifier::external_body]
fn clusters_of(text: &str) -> (clusters: Vec<String>)
    ensures
        views(clusters@) == grapheme_clusters(text@),
        views(clusters@).flatten() == text@,
        forall|i: int| 0 <= i < clusters@.len() ==> (#[trigger] clusters@[i])@.len() > 0,
        tabs_stand_alone(views(clusters@)),
{
    text.graphemes(true).map(String::from).collect()
}

/// `char::from_u32`: the character with this scalar value, where there is one.
#[verifier::external_body]
pub(crate) fn char_from_u32(code: u32) -> (found: Option<char>)
    ensures
        code < 0xD800 ==> found == Some(code as char),
{
    char::from_u32(code)
}

/// The stand-in a character is shown as: a C0 control other than the tab by its Control Picture,
/// DEL by `␡`, a C1 control by the replacement character, and anything else by itself.
pub open spec fn picture(character: char) -> char {
    if (character as u32) < 0x20 && character != '\t' {
        (0x2400 + character as u32) as char
    } else if character == '\u{7f}' {
        '\u{2421}'
    } else if 0x80 <= (character as u32) && (character as u32) <= 0x9f {
        '\u{fffd}'
    } else {
        character
    }
}

/// `text` with every control character but the tab replaced by its stand-in.
pub open spec fn sanitized(text: Seq<char>) -> Seq<char> {
    text.map_values(|character: char| picture(character))
}

/// `value`, saturated at the largest `u64`.
pub open spec fn sat(value: int) -> int {
    if value > u64::MAX {
        u64::MAX as int
    } else {
        value
    }
}

/// The next tab stop after `column`, counting from zero; a column on a stop advances a whole one.
pub open spec fn next_stop(column: int, tab_width: int) -> int {
    column + (tab_width - column % tab_width)
}

/// Whether a cluster's text is a tab.
pub open spec fn is_tab(text: Seq<char>) -> bool {
    text.len() > 0 && text[0] == '\t'
}

/// Whether every cluster holding a tab is that tab and nothing else.
pub open spec fn tabs_stand_alone(clusters: Seq<Seq<char>>) -> bool {
    forall|i: int|
        0 <= i < clusters.len() && (#[trigger] clusters[i]).contains('\t') ==> clusters[i] == seq![
            '\t',
        ]
}

/// One grapheme cluster, measured: how many characters it holds, how many cells it occupies
/// where it is not a tab, and whether it is a tab.
#[derive(Debug, Clone, Copy, PartialEq, Eq, Structural)]
pub struct Cluster {
    pub characters: u64,
    pub cells: u64,
    pub tab: bool,
}

/// A cluster's text, measured: its characters, its width by `unicode-width`, and whether it is
/// a tab.
pub open spec fn measure(text: Seq<char>) -> Cluster {
    Cluster { characters: text.len() as u64, cells: display_width(text) as u64, tab: is_tab(text) }
}

/// Each cluster's text, measured.
pub open spec fn measured(texts: Seq<Seq<char>>) -> Seq<Cluster> {
    texts.map_values(|text: Seq<char>| measure(text))
}

/// How many characters the clusters before the one at `k` hold.
pub open spec fn characters_until(clusters: Seq<Cluster>, k: int) -> int
    decreases k,
{
    if k <= 0 {
        0
    } else {
        characters_until(clusters, k - 1) + clusters[k - 1].characters
    }
}

/// The column after `cluster`, drawn at `column`: the next tab stop for a tab, and the cluster's
/// cells further on for anything else.
pub open spec fn advance(cluster: Cluster, column: int, tab_width: int) -> int {
    if cluster.tab {
        sat(next_stop(column - 1, tab_width) + 1)
    } else {
        sat(column + cluster.cells)
    }
}

/// The display column of the character at index `target`, walking the clusters from the one at
/// `k`, which begins at character `position` in column `column`: the column of the cluster the
/// character falls in, or the column after the last cluster for a character past them all.
pub open spec fn column_of(
    clusters: Seq<Cluster>,
    tab_width: int,
    k: int,
    position: int,
    column: int,
    target: int,
) -> int
    decreases clusters.len() - k,
{
    if k < 0 || k >= clusters.len() {
        column
    } else {
        let after = position + clusters[k].characters;
        if target < after {
            column
        } else {
            column_of(
                clusters,
                tab_width,
                k + 1,
                after,
                advance(clusters[k], column, tab_width),
                target,
            )
        }
    }
}

/// The column after every cluster from the one at `k`, which is drawn at `column`.
pub open spec fn final_column(clusters: Seq<Cluster>, tab_width: int, k: int, column: int) -> int
    decreases clusters.len() - k,
{
    if k < 0 || k >= clusters.len() {
        column
    } else {
        final_column(clusters, tab_width, k + 1, advance(clusters[k], column, tab_width))
    }
}

/// The columns to mark for the characters `start..end`, walking the clusters from the one at
/// `k`: from the column of the first cluster the range touches to the column after the last, or
/// `None` if it touches none. A cluster touches the range when it begins before the range ends, or
/// when the range is empty and lies inside it; either way it must reach past the range's start.
pub open spec fn marked(
    clusters: Seq<Cluster>,
    tab_width: int,
    k: int,
    position: int,
    column: int,
    start: int,
    end: int,
) -> Option<(int, int)>
    decreases clusters.len() - k,
{
    if k < 0 || k >= clusters.len() {
        None
    } else {
        let after = position + clusters[k].characters;
        let next = advance(clusters[k], column, tab_width);
        let rest = marked(clusters, tab_width, k + 1, after, next, start, end);
        let touches = (position < end || (position <= start && start < after)) && after > start;
        if touches {
            Some(
                (
                    column,
                    match rest {
                        Some(later) => later.1,
                        None => next,
                    },
                ),
            )
        } else {
            rest
        }
    }
}

/// The display columns the characters `start..end` are marked at: those of the clusters the
/// range touches, or the column of `start`, empty, when it touches none.
pub open spec fn columns_of(clusters: Seq<Cluster>, tab_width: int, start: int, end: int) -> (
    int,
    int,
) {
    match marked(clusters, tab_width, 0, 0, 1, start, end) {
        Some(columns) => columns,
        None => {
            let at = column_of(clusters, tab_width, 0, 0, 1, start);
            (at, at)
        },
    }
}

/// `count` spaces.
pub open spec fn spaces(count: int) -> Seq<char> {
    Seq::new(if count > 0 { count as nat } else { 0 }, |i: int| ' ')
}

/// The clusters from the one at `k`, drawn from `column`, with each tab written as the spaces
/// that reach the next stop and every other cluster as its text.
pub open spec fn expanded(
    texts: Seq<Seq<char>>,
    clusters: Seq<Cluster>,
    tab_width: int,
    k: int,
    column: int,
) -> Seq<char>
    decreases clusters.len() - k,
{
    if k < 0 || k >= clusters.len() {
        Seq::empty()
    } else {
        let next = advance(clusters[k], column, tab_width);
        (if clusters[k].tab {
            spaces(next - column)
        } else {
            texts[k]
        }) + expanded(texts, clusters, tab_width, k + 1, next)
    }
}

/// The clusters from the one at `k`, drawn from `column` as [`expanded`] draws them, up to the
/// display column `limit`: the first cluster that would reach past it is not drawn, and an
/// ellipsis stands in its place and for everything after it.
pub open spec fn expanded_within(
    texts: Seq<Seq<char>>,
    clusters: Seq<Cluster>,
    tab_width: int,
    k: int,
    column: int,
    limit: int,
) -> Seq<char>
    decreases clusters.len() - k,
{
    if k < 0 || k >= clusters.len() {
        Seq::empty()
    } else {
        let next = advance(clusters[k], column, tab_width);
        if next > limit + 1 {
            seq!['\u{2026}']
        } else {
            (if clusters[k].tab {
                spaces(next - column)
            } else {
                texts[k]
            }) + expanded_within(texts, clusters, tab_width, k + 1, next, limit)
        }
    }
}

/// Whether `clusters` splits `text`: each is non-empty, and joined in order they are the text.
pub open spec fn splits(clusters: Seq<Seq<char>>, text: Seq<char>) -> bool {
    &&& clusters.flatten() == text
    &&& forall|i: int| 0 <= i < clusters.len() ==> (#[trigger] clusters[i]).len() > 0
}

/// The characters before a cluster never outnumber those before a later one.
proof fn lemma_characters_until_monotone(clusters: Seq<Cluster>, i: int, j: int)
    requires
        0 <= i <= j <= clusters.len(),
    ensures
        characters_until(clusters, i) <= characters_until(clusters, j),
    decreases j - i,
{
    if i < j {
        lemma_characters_until_monotone(clusters, i, j - 1);
    }
}

/// Measured texts count the characters the texts hold, where they fit in a `u64`.
proof fn lemma_measured_counts(texts: Seq<Seq<char>>, k: int)
    requires
        0 <= k <= texts.len(),
        texts.flatten().len() <= u64::MAX,
    ensures
        characters_until(measured(texts), k) == texts.subrange(0, k).flatten().len(),
        forall|i: int| 0 <= i < k ==> (#[trigger] measured(texts)[i]).characters == texts[i].len(),
    decreases k,
{
    if k == 0 {
        assert(texts.subrange(0, 0) =~= Seq::<Seq<char>>::empty());
    } else {
        lemma_measured_counts(texts, k - 1);
        lemma_flatten_prefix(texts, k - 1);
    }
}

/// Every column is at or after the cursor's, and the last is the furthest.
proof fn lemma_column_bounds(
    clusters: Seq<Cluster>,
    tab_width: int,
    k: int,
    position: int,
    column: int,
    target: int,
)
    requires
        0 <= k,
        1 <= tab_width,
        1 <= column <= u64::MAX,
    ensures
        column <= column_of(clusters, tab_width, k, position, column, target) <= final_column(
            clusters,
            tab_width,
            k,
            column,
        ) <= u64::MAX,
        column <= final_column(clusters, tab_width, k, column),
    decreases clusters.len() - k,
{
    if k < clusters.len() {
        let c = (column - 1) as int;
        assert(0 <= c % tab_width < tab_width) by (nonlinear_arith)
            requires
                c >= 0,
                tab_width >= 1,
        ;
        let after = position + clusters[k].characters;
        lemma_column_bounds(
            clusters,
            tab_width,
            k + 1,
            after,
            advance(clusters[k], column, tab_width),
            target,
        );
    }
}

/// A later character is never in an earlier column.
proof fn lemma_column_monotone(
    clusters: Seq<Cluster>,
    tab_width: int,
    k: int,
    position: int,
    column: int,
    earlier: int,
    later: int,
)
    requires
        0 <= k,
        1 <= tab_width,
        1 <= column <= u64::MAX,
        earlier <= later,
    ensures
        column_of(clusters, tab_width, k, position, column, earlier) <= column_of(
            clusters,
            tab_width,
            k,
            position,
            column,
            later,
        ),
    decreases clusters.len() - k,
{
    if k < clusters.len() {
        let c = (column - 1) as int;
        assert(0 <= c % tab_width < tab_width) by (nonlinear_arith)
            requires
                c >= 0,
                tab_width >= 1,
        ;
        let after = position + clusters[k].characters;
        let next = advance(clusters[k], column, tab_width);
        lemma_column_bounds(clusters, tab_width, k + 1, after, next, later);
        lemma_column_monotone(clusters, tab_width, k + 1, after, next, earlier, later);
    }
}

/// A character at or past the end of the clusters is in the column after the last of them.
proof fn lemma_column_past_the_end(
    clusters: Seq<Cluster>,
    tab_width: int,
    k: int,
    column: int,
    target: int,
)
    requires
        0 <= k <= clusters.len(),
        target >= characters_until(clusters, clusters.len() as int),
    ensures
        column_of(clusters, tab_width, k, characters_until(clusters, k), column, target)
            == final_column(clusters, tab_width, k, column),
    decreases clusters.len() - k,
{
    if k < clusters.len() {
        lemma_characters_until_monotone(clusters, k + 1, clusters.len() as int);
        lemma_column_past_the_end(
            clusters,
            tab_width,
            k + 1,
            advance(clusters[k], column, tab_width),
            target,
        );
    }
}

/// One source line, measured in the cells a fixed-width terminal will give it.
#[derive(Debug, Clone, Copy)]
pub struct LineCells<'a> {
    line: Line<'a>,
    tab_width: u64,
}

impl<'a> LineCells<'a> {
    #[verifier::type_invariant]
    spec fn bounded(self) -> bool {
        1 <= self.tab_width <= 256
    }

    /// The line being measured.
    pub closed spec fn line_spec(self) -> Line<'a> {
        self.line
    }

    /// The distance between tab stops, in cells.
    pub closed spec fn tab_width_spec(self) -> u64 {
        self.tab_width
    }

    /// The line's content, as bytes.
    pub open spec fn bytes_spec(self) -> Seq<u8> {
        self.line_spec().bytes_spec()
    }

    /// The texts of the line's clusters, after sanitization.
    pub open spec fn texts_spec(self) -> Seq<Seq<char>> {
        grapheme_clusters(sanitized(self.line_spec().text_spec()))
    }

    /// The line's clusters, measured.
    pub open spec fn clusters_spec(self) -> Seq<Cluster> {
        measured(self.texts_spec())
    }

    /// Where an absolute offset lands on the line: clamped into it and back onto the start of
    /// the character it falls in, as an index into the line's bytes.
    pub open spec fn relative(self, offset: int) -> int {
        prev_boundary(
            self.bytes_spec(),
            clamp_into(
                offset,
                self.line_spec().start_spec() as int,
                self.line_spec().end_spec(),
            ) - self.line_spec().start_spec(),
        )
    }

    /// How many characters of the line come before where `offset` lands.
    pub open spec fn characters_before(self, offset: int) -> int {
        decode_utf8(self.bytes_spec().subrange(0, self.relative(offset))).len() as int
    }

    /// The 1-based display column the cluster holding `offset` begins at.
    pub open spec fn column_at_spec(self, offset: int) -> int {
        column_of(
            self.clusters_spec(),
            self.tab_width_spec() as int,
            0,
            0,
            1,
            self.characters_before(offset),
        )
    }

    /// How many cells the whole line occupies.
    pub open spec fn width_spec(self) -> int {
        final_column(self.clusters_spec(), self.tab_width_spec() as int, 0, 1) - 1
    }

    /// The display columns the byte range `start..end` is marked at, widened to whole clusters;
    /// the column of its start, empty, when it touches no cluster.
    pub open spec fn columns_between_spec(self, start: int, end: int) -> (int, int) {
        columns_of(
            self.clusters_spec(),
            self.tab_width_spec() as int,
            self.characters_before(start),
            self.characters_before(end),
        )
    }

    /// The display columns a span is marked at, as
    /// [`columns_between_spec`](Self::columns_between_spec) says.
    pub open spec fn columns_for_spec(self, span: Span) -> (int, int) {
        self.columns_between_spec(span.start_spec() as int, span.end_spec() as int)
    }

    /// What [`new`](Self::new) makes of `line` and `tab_width`.
    pub closed spec fn new_spec(line: Line<'a>, tab_width: u64) -> Self {
        LineCells {
            line,
            tab_width: if tab_width == 0 {
                1
            } else if tab_width > 256 {
                256
            } else {
                tab_width
            },
        }
    }

    /// Measures `line` against a tab stop every `tab_width` cells.
    ///
    /// The tab width multiplies into every later column, so it is bounded at both ends: zero is
    /// raised to one, and anything past [`max_tab_width`](Self::max_tab_width) is lowered to it.
    pub fn new(line: Line<'a>, tab_width: u64) -> (cells: Self)
        ensures
            cells == Self::new_spec(line, tab_width),
            cells.line_spec() == line,
            cells.tab_width_spec() == if tab_width == 0 {
                1
            } else if tab_width > 256 {
                256
            } else {
                tab_width
            },
    {
        let width = if tab_width == 0 {
            1
        } else if tab_width > Self::max_tab_width() {
            Self::max_tab_width()
        } else {
            tab_width
        };
        Self { line, tab_width: width }
    }

    /// The furthest apart tab stops may be placed: wider than any terminal anybody uses, and
    /// small enough that expanding a line of tabs cannot become a hang.
    pub fn max_tab_width() -> (width: u64)
        ensures
            width == 256,
    {
        256
    }

    /// The tab width used when a caller has no reason to choose one.
    pub fn default_tab_width() -> (width: u64)
        ensures
            width == 4,
    {
        4
    }

    /// Returns the line being measured.
    pub fn line(&self) -> (line: Line<'a>)
        ensures
            line == self.line_spec(),
    {
        self.line
    }

    /// Returns the distance between tab stops, in cells.
    pub fn tab_width(&self) -> (width: u64)
        ensures
            width == self.tab_width_spec(),
            1 <= width <= 256,
    {
        proof {
            use_type_invariant(self);
        }
        self.tab_width
    }

    /// An absolute byte offset, clamped into the line and back onto a character boundary.
    fn clamp(&self, offset: usize) -> (relative: usize)
        ensures
            relative == self.relative(offset as int),
            relative <= self.bytes_spec().len(),
            is_char_boundary(self.bytes_spec(), relative as int),
    {
        let text = self.line.text();
        let span = self.line.span();
        let base = span.start();
        let end = span.end();
        proof {
            lemma_valid(text);
        }
        let clamped = if offset < base {
            base
        } else if offset > end {
            end
        } else {
            offset
        };
        let mut relative = clamped - base;
        let ghost target = relative as int;
        while !text.is_char_boundary(relative)
            invariant
                0 <= relative <= target <= text.spec_bytes().len(),
                text.spec_bytes() == self.bytes_spec(),
                valid_utf8(text.spec_bytes()),
                is_char_boundary(text.spec_bytes(), 0),
                prev_boundary(text.spec_bytes(), target) == prev_boundary(
                    text.spec_bytes(),
                    relative as int,
                ),
            decreases relative,
        {
            relative -= 1;
        }
        relative
    }

    /// How many characters of the line come before where `offset` lands.
    fn characters_before_exec(&self, offset: usize) -> (count: u64)
        ensures
            count == self.characters_before(offset as int),
    {
        let relative = self.clamp(offset);
        let text = self.line.text();
        let before = slice(text, 0, relative);
        proof {
            encode_utf8_decode_utf8(before@);
            lemma_char_count_bound(before@);
        }
        before.unicode_len() as u64
    }

    /// The texts of the line's clusters, after sanitization.
    fn texts(&self) -> (texts: Vec<String>)
        ensures
            views(texts@) == self.texts_spec(),
            splits(views(texts@), sanitized(self.line_spec().text_spec())),
            sanitized(self.line_spec().text_spec()).len() <= isize::MAX,
            tabs_stand_alone(self.texts_spec()),
    {
        let text = self.line.text();
        let clean = sanitize(text);
        let texts = clusters_of(clean.as_str());
        proof {
            lemma_char_count_bound(text@);
            assert forall|i: int| 0 <= i < views(texts@).len() implies (#[trigger] views(
                texts@,
            )[i]).len() > 0 by {
                assert(texts@[i]@.len() > 0);
            }
        }
        texts
    }

    /// The line's clusters, measured, with their texts.
    fn clusters(&self) -> (measured: (Vec<String>, Vec<Cluster>))
        ensures
            views(measured.0@) == self.texts_spec(),
            measured.1@ == self.clusters_spec(),
            characters_until(self.clusters_spec(), self.clusters_spec().len() as int) <= u64::MAX,
            splits(self.texts_spec(), sanitized(self.line_spec().text_spec())),
            self.bytes_spec().len() <= isize::MAX,
            tabs_stand_alone(self.texts_spec()),
    {
        let _ = self.line.text();
        let texts = self.texts();
        let clusters = measure_all(&texts);
        proof {
            let all = views(texts@);
            lemma_measured_counts(all, all.len() as int);
            assert(all.subrange(0, all.len() as int) == all);
        }
        (texts, clusters)
    }

    /// Returns the 1-based display column where `offset`'s cluster begins.
    ///
    /// Total, and clamping: an offset before the line answers `1`, an offset past its content
    /// answers one past the last cell, and an offset inside a cluster answers where that cluster
    /// starts, because that is where a terminal draws the whole of it.
    pub fn column_at(&self, offset: usize) -> (column: u64)
        ensures
            column == self.column_at_spec(offset as int),
            splits(self.texts_spec(), sanitized(self.line_spec().text_spec())),
            self.bytes_spec().len() <= isize::MAX,
            offset <= self.line_spec().start_spec() ==> column == 1,
            offset >= self.line_spec().end_spec() ==> column == self.width_spec() + 1,
            column <= self.width_spec() + 1,
    {
        proof {
            use_type_invariant(self);
        }
        let target = self.characters_before_exec(offset);
        let (_, clusters) = self.clusters();
        proof {
            if offset <= self.line_spec().start_spec() {
                law_a_line_starts_in_column_one(*self, offset as int);
            }
            if offset >= self.line_spec().end_spec() {
                law_the_column_past_the_end_is_the_width_plus_one(*self, offset as int);
            }
            law_a_column_never_goes_backwards(*self, offset as int, offset as int);
        }
        column_in(clusters.as_slice(), self.tab_width, target)
    }

    /// Returns how many cells the whole line occupies.
    pub fn width(&self) -> (width: u64)
        ensures
            width == self.width_spec(),
            splits(self.texts_spec(), sanitized(self.line_spec().text_spec())),
            self.bytes_spec().len() <= isize::MAX,
    {
        proof {
            use_type_invariant(self);
        }
        let (_, clusters) = self.clusters();
        width_in(clusters.as_slice(), self.tab_width)
    }

    /// Returns the display columns a span must be marked at, widened to whole clusters.
    ///
    /// A span reaching into a cluster is widened to the whole of it, because a terminal has no
    /// way to draw part of one.
    pub fn columns_for(&self, span: Span) -> (columns: core::ops::Range<u64>)
        ensures
            (columns.start as int, columns.end as int) == self.columns_for_spec(span),
            columns.start <= columns.end,
    {
        proof {
            use_type_invariant(self);
        }
        let start = self.characters_before_exec(span.start());
        let end = self.characters_before_exec(span.end());
        let (_, clusters) = self.clusters();
        columns_in(clusters.as_slice(), self.tab_width, start, end)
    }

    /// Returns how many cells the text between two byte offsets occupies, widened to whole
    /// clusters.
    pub fn cells_between(&self, start: usize, end: usize) -> (cells: u64)
        ensures
            cells == self.columns_between_spec(start as int, end as int).1
                - self.columns_between_spec(start as int, end as int).0,
    {
        let columns = self.columns_for(Span::new(start, end));
        columns.end - columns.start
    }

    /// Writes the line with each tab expanded to the spaces that reach the next stop and every
    /// control character shown by its stand-in.
    ///
    /// The expansion and the measurement are the same arithmetic, which is what keeps an
    /// underline placed by [`column_at`](Self::column_at) under the text this writes.
    pub fn write_expanded(&self, out: &mut String)
        ensures
            final(out)@ == old(out)@ + expanded(
                self.texts_spec(),
                self.clusters_spec(),
                self.tab_width_spec() as int,
                0,
                1,
            ),
            splits(self.texts_spec(), sanitized(self.line_spec().text_spec())),
            forall|i: int|
                old(out)@.len() <= i < final(out)@.len() ==> harmless(#[trigger] final(out)@[i]),
            tabs_stand_alone(self.texts_spec()),
            forall|i: int|
                old(out)@.len() <= i < final(out)@.len() ==> !is_control(#[trigger] final(out)@[i]),
    {
        proof {
            use_type_invariant(self);
        }
        let (texts, clusters) = self.clusters();
        let ghost before = out@;
        expand_in(out, texts.as_slice(), clusters.as_slice(), self.tab_width);
        proof {
            law_an_expanded_line_carries_no_control_character_but_the_tab(*self);
            law_an_expanded_line_carries_no_control_character(*self);
            let added = expanded(
                self.texts_spec(),
                self.clusters_spec(),
                self.tab_width_spec() as int,
                0,
                1,
            );
            assert forall|i: int| before.len() <= i < out@.len() implies harmless(
                #[trigger] out@[i],
            ) && !is_control(out@[i]) by {
                assert(out@[i] == added[i - before.len()]);
            }
        }
    }
}

impl<'a> LineCells<'a> {
    /// Writes the line as [`write_expanded`](Self::write_expanded) does, up to the display column
    /// `limit`: the first cluster that would reach past it is not written, and an ellipsis stands
    /// where it would have begun, so a row that was cut says so.
    pub fn write_expanded_within(&self, out: &mut String, limit: u64)
        requires
            limit < u64::MAX,
        ensures
            final(out)@ == old(out)@ + expanded_within(
                self.texts_spec(),
                self.clusters_spec(),
                self.tab_width_spec() as int,
                0,
                1,
                limit as int,
            ),
            splits(self.texts_spec(), sanitized(self.line_spec().text_spec())),
    {
        proof {
            use_type_invariant(self);
        }
        let (texts, clusters) = self.clusters();
        expand_within(out, texts.as_slice(), clusters.as_slice(), self.tab_width, limit);
    }
}

/// Measures each cluster's text.
fn measure_all(texts: &Vec<String>) -> (clusters: Vec<Cluster>)
    ensures
        clusters@ == measured(views(texts@)),
{
    let mut clusters: Vec<Cluster> = Vec::new();
    let mut k: usize = 0;
    while k < texts.len()
        invariant
            k <= texts@.len(),
            clusters@ == measured(views(texts@)).take(k as int),
        decreases texts@.len() - k,
    {
        let text = texts[k].as_str();
        let characters = text.unicode_len();
        let cells = width_of(text);
        let tab = characters > 0 && text.get_char(0) == '\t';
        clusters.push(Cluster { characters: characters as u64, cells: cells as u64, tab });
        proof {
            assert(measured(views(texts@)).take(k + 1) =~= measured(views(texts@)).take(
                k as int,
            ).push(measure(texts@[k as int]@)));
        }
        k += 1;
    }
    proof {
        assert(measured(views(texts@)).take(texts@.len() as int) =~= measured(views(texts@)));
    }
    clusters
}

/// The column after `cluster`, drawn at `column`.
fn advance_in(cluster: Cluster, column: u64, tab_width: u64) -> (next: u64)
    requires
        1 <= column,
        1 <= tab_width,
    ensures
        next == advance(cluster, column as int, tab_width as int),
        column <= next,
{
    if cluster.tab {
        proof {
            let c = (column - 1) as int;
            let t = tab_width as int;
            assert(0 <= c % t < t) by (nonlinear_arith)
                requires
                    c >= 0,
                    t >= 1,
            ;
        }
        next_stop_saturating(column - 1, tab_width).saturating_add(1)
    } else {
        column.saturating_add(cluster.cells)
    }
}

/// Returns the 1-based display column of the character at index `target` among measured
/// clusters laid out from column one: the column of the cluster it falls in, or the column after
/// the last cluster for a character past them all.
pub fn column_in(clusters: &[Cluster], tab_width: u64, target: u64) -> (column: u64)
    requires
        1 <= tab_width,
        characters_until(clusters@, clusters@.len() as int) <= u64::MAX,
    ensures
        column == column_of(clusters@, tab_width as int, 0, 0, 1, target as int),
{
    let ghost all = clusters@;
    let ghost tab = tab_width as int;
    let mut k: usize = 0;
    let mut position: u64 = 0;
    let mut column: u64 = 1;
    while k < clusters.len()
        invariant
            all == clusters@,
            tab == tab_width,
            1 <= tab_width,
            characters_until(all, all.len() as int) <= u64::MAX,
            k <= all.len(),
            position == characters_until(all, k as int),
            1 <= column,
            column_of(all, tab, k as int, position as int, column as int, target as int)
                == column_of(all, tab, 0, 0, 1, target as int),
        decreases all.len() - k,
    {
        proof {
            lemma_characters_until_monotone(all, k + 1, all.len() as int);
        }
        let cluster = clusters[k];
        let after = position + cluster.characters;
        if target < after {
            return column;
        }
        position = after;
        column = advance_in(cluster, column, tab_width);
        k += 1;
    }
    column
}

/// Returns how many cells measured clusters occupy, laid out from column one.
pub fn width_in(clusters: &[Cluster], tab_width: u64) -> (width: u64)
    requires
        1 <= tab_width,
    ensures
        width == final_column(clusters@, tab_width as int, 0, 1) - 1,
{
    let ghost all = clusters@;
    let ghost tab = tab_width as int;
    let mut k: usize = 0;
    let mut column: u64 = 1;
    while k < clusters.len()
        invariant
            all == clusters@,
            tab == tab_width,
            1 <= tab_width,
            k <= all.len(),
            1 <= column,
            final_column(all, tab, k as int, column as int) == final_column(all, tab, 0, 1),
        decreases all.len() - k,
    {
        column = advance_in(clusters[k], column, tab_width);
        k += 1;
    }
    column - 1
}

/// Returns the display columns the characters `start..end` are marked at among measured
/// clusters laid out from column one: from the column of the first cluster the range touches to
/// the column after the last, or the column of `start`, empty, when it touches none.
pub fn columns_in(clusters: &[Cluster], tab_width: u64, start: u64, end: u64) -> (columns:
    core::ops::Range<u64>)
    requires
        1 <= tab_width,
        characters_until(clusters@, clusters@.len() as int) <= u64::MAX,
    ensures
        (columns.start as int, columns.end as int) == columns_of(
            clusters@,
            tab_width as int,
            start as int,
            end as int,
        ),
        columns.start <= columns.end,
{
    let ghost all = clusters@;
    let ghost tab = tab_width as int;
    let ghost whole = marked(all, tab, 0, 0, 1, start as int, end as int);
    proof {
        lemma_marked_ordered(all, tab, 0, 0, 1, start as int, end as int);
    }
    let mut k: usize = 0;
    let mut position: u64 = 0;
    let mut column: u64 = 1;
    let mut first: Option<u64> = None;
    let mut last: Option<u64> = None;
    while k < clusters.len()
        invariant
            all == clusters@,
            tab == tab_width,
            1 <= tab_width,
            characters_until(all, all.len() as int) <= u64::MAX,
            k <= all.len(),
            position == characters_until(all, k as int),
            1 <= column,
            first is Some <==> last is Some,
            whole == match first {
                None => marked(all, tab, k as int, position as int, column as int, start as int, end as int),
                Some(from) => Some(
                    (
                        from as int,
                        match marked(
                            all,
                            tab,
                            k as int,
                            position as int,
                            column as int,
                            start as int,
                            end as int,
                        ) {
                            Some(later) => later.1,
                            None => last->0 as int,
                        },
                    ),
                ),
            },
        decreases all.len() - k,
    {
        proof {
            lemma_characters_until_monotone(all, k + 1, all.len() as int);
        }
        let cluster = clusters[k];
        let next = advance_in(cluster, column, tab_width);
        let after = position + cluster.characters;
        let touches = (position < end || (position <= start && start < after)) && after > start;
        if touches {
            if first.is_none() {
                first = Some(column);
            }
            last = Some(next);
        }
        position = after;
        column = next;
        k += 1;
    }
    match (first, last) {
        (Some(from), Some(to)) => from..to,
        _ => {
            let at = column_in(clusters, tab_width, start);
            at..at
        },
    }
}

/// Writes measured clusters laid out from column one: each tab as the spaces that reach the
/// next stop, and every other cluster as its text.
pub fn expand_in(out: &mut String, texts: &[String], clusters: &[Cluster], tab_width: u64)
    requires
        1 <= tab_width,
        texts@.len() == clusters@.len(),
    ensures
        final(out)@ == old(out)@ + expanded(views(texts@), clusters@, tab_width as int, 0, 1),
{
    let ghost all = clusters@;
    let ghost words = views(texts@);
    let ghost tab = tab_width as int;
    let ghost start_out = out@;
    let mut k: usize = 0;
    let mut column: u64 = 1;
    while k < clusters.len()
        invariant
            all == clusters@,
            words == views(texts@),
            texts@.len() == all.len(),
            tab == tab_width,
            1 <= tab_width,
            k <= all.len(),
            1 <= column,
            start_out + expanded(words, all, tab, 0, 1) == out@ + expanded(
                words,
                all,
                tab,
                k as int,
                column as int,
            ),
        decreases all.len() - k,
    {
        let cluster = clusters[k];
        let next = advance_in(cluster, column, tab_width);
        if cluster.tab {
            let ghost before = out@;
            let mut written = column;
            while written < next
                invariant
                    column <= written <= next,
                    out@ == before + spaces(written - column),
                decreases next - written,
            {
                push_char(out, ' ');
                proof {
                    assert(spaces(written - column).push(' ') =~= spaces(written + 1 - column));
                }
                written += 1;
            }
        } else {
            push_chars(out, texts[k].as_str());
        }
        column = next;
        k += 1;
    }
}

/// Writes the clusters expanded as [`expand_in`] writes them, up to the display column `limit`,
/// and an ellipsis where the first cluster that would reach past it stood.
pub fn expand_within(
    out: &mut String,
    texts: &[String],
    clusters: &[Cluster],
    tab_width: u64,
    limit: u64,
)
    requires
        1 <= tab_width,
        texts@.len() == clusters@.len(),
        limit < u64::MAX,
    ensures
        final(out)@ == old(out)@ + expanded_within(
            views(texts@),
            clusters@,
            tab_width as int,
            0,
            1,
            limit as int,
        ),
{
    let ghost all = clusters@;
    let ghost words = views(texts@);
    let ghost tab = tab_width as int;
    let ghost start_out = out@;
    let mut k: usize = 0;
    let mut column: u64 = 1;
    let mut stopped = false;
    while k < clusters.len() && !stopped
        invariant
            all == clusters@,
            words == views(texts@),
            texts@.len() == all.len(),
            tab == tab_width,
            1 <= tab_width,
            limit < u64::MAX,
            k <= all.len(),
            1 <= column,
            start_out + expanded_within(words, all, tab, 0, 1, limit as int) == out@ + if stopped {
                Seq::empty()
            } else {
                expanded_within(words, all, tab, k as int, column as int, limit as int)
            },
        decreases all.len() - k + if stopped { 0int } else { 1int },
    {
        let cluster = clusters[k];
        let next = advance_in(cluster, column, tab_width);
        if next > limit + 1 {
            push_char(out, '\u{2026}');
            stopped = true;
            proof {
                assert(out@ + Seq::<char>::empty() =~= out@);
            }
        } else {
            if cluster.tab {
                let ghost before = out@;
                let mut written = column;
                while written < next
                    invariant
                        column <= written <= next,
                        out@ == before + spaces(written - column),
                    decreases next - written,
                {
                    push_char(out, ' ');
                    proof {
                        assert(spaces(written - column).push(' ') =~= spaces(written + 1 - column));
                    }
                    written += 1;
                }
            } else {
                push_chars(out, texts[k].as_str());
            }
            column = next;
            k += 1;
        }
    }
}

/// The columns a range is marked at begin at the column of the cluster its start falls in.
proof fn lemma_marked_from_the_column_of_its_start(
    clusters: Seq<Cluster>,
    tab_width: int,
    k: int,
    position: int,
    column: int,
    start: int,
    end: int,
)
    requires
        0 <= k,
        position <= start,
    ensures
        marked(clusters, tab_width, k, position, column, start, end) matches Some(columns) ==> columns.0
            == column_of(clusters, tab_width, k, position, column, start),
    decreases clusters.len() - k,
{
    if k < clusters.len() {
        let after = position + clusters[k].characters;
        if start >= after {
            lemma_marked_from_the_column_of_its_start(
                clusters,
                tab_width,
                k + 1,
                after,
                advance(clusters[k], column, tab_width),
                start,
                end,
            );
        }
    }
}

/// The columns a range is marked at run from the column of the first cluster it touches to the
/// column after the last, which is never to the left of it.
proof fn lemma_marked_ordered(
    clusters: Seq<Cluster>,
    tab_width: int,
    k: int,
    position: int,
    column: int,
    start: int,
    end: int,
)
    requires
        0 <= k,
        1 <= tab_width,
        1 <= column <= u64::MAX,
    ensures
        marked(clusters, tab_width, k, position, column, start, end) matches Some(columns) ==> column
            <= columns.0 <= columns.1 <= u64::MAX,
    decreases clusters.len() - k,
{
    if k < clusters.len() {
        let c = (column - 1) as int;
        assert(0 <= c % tab_width < tab_width) by (nonlinear_arith)
            requires
                c >= 0,
                tab_width >= 1,
        ;
        let after = position + clusters[k].characters;
        let next = advance(clusters[k], column, tab_width);
        lemma_marked_ordered(clusters, tab_width, k + 1, after, next, start, end);
    }
}

/// The characters before the cluster at `k`, and that cluster, are a prefix of the whole.
proof fn lemma_flatten_prefix(clusters: Seq<Seq<char>>, k: int)
    requires
        0 <= k < clusters.len(),
    ensures
        clusters.subrange(0, k + 1).flatten().len() == clusters.subrange(0, k).flatten().len()
            + clusters[k].len(),
        clusters.subrange(0, k + 1).flatten().len() <= clusters.flatten().len(),
{
    let front = clusters.subrange(0, k);
    assert(clusters.subrange(0, k + 1) == front.push(clusters[k]));
    front.lemma_flatten_push(clusters[k]);
    let rest = clusters.subrange(k + 1, clusters.len() as int);
    assert(clusters == clusters.subrange(0, k + 1) + rest);
    vstd::seq_lib::lemma_flatten_concat(clusters.subrange(0, k + 1), rest);
}

/// Where an offset lands never moves left as the offset moves right, and never past the line.
proof fn lemma_characters_before_monotone(cells: LineCells, earlier: int, later: int)
    requires
        earlier <= later,
    ensures
        cells.characters_before(earlier) <= cells.characters_before(later),
        cells.characters_before(later) <= cells.line_spec().text_spec().len(),
{
    let line = cells.line_spec();
    let b = cells.bytes_spec();
    line.lemma_bytes_valid();
    line.lemma_text_is_its_bytes();
    let start = line.start_spec() as int;
    let low = clamp_into(earlier, start, line.end_spec()) - start;
    let high = clamp_into(later, start, line.end_spec()) - start;
    lemma_prev_boundary_monotone(b, low, high);
    crate::source::laws::lemma_prev_boundary_is_greatest(b, low);
    crate::source::laws::lemma_prev_boundary_is_greatest(b, high);
    let r1 = cells.relative(earlier);
    let r2 = cells.relative(later);
    let prefix = b.subrange(0, r2);
    crate::text::lemma_boundary_of_subrange(b, 0, r2, r1);
    decode_utf8_split(prefix, r1);
    assert(prefix.subrange(0, r1) == b.subrange(0, r1));
    decode_utf8_split(b, r2);
}

/// An offset at or before the start of a line is in its first column.
///
/// Stated for clusters that split the sanitized line, as `unicode-segmentation`'s always do.
pub proof fn law_a_line_starts_in_column_one(cells: LineCells, offset: int)
    requires
        1 <= cells.tab_width_spec() <= 256,
        cells.bytes_spec().len() <= isize::MAX,
        splits(cells.texts_spec(), sanitized(cells.line_spec().text_spec())),
        offset <= cells.line_spec().start_spec(),
    ensures
        cells.column_at_spec(offset) == 1,
{
    let texts = cells.texts_spec();
    cells.line_spec().lemma_bytes_valid();
    cells.line_spec().lemma_text_fits_its_bytes();
    assert(cells.relative(offset) == 0);
    assert(cells.bytes_spec().subrange(0, 0) =~= Seq::<u8>::empty());
    if texts.len() > 0 {
        lemma_measured_counts(texts, 1);
        assert(texts[0].len() > 0);
    }
}

/// A column never goes backwards: a later offset is never in an earlier column, and no offset
/// is past the column after the line's last cell.
pub proof fn law_a_column_never_goes_backwards(cells: LineCells, earlier: int, later: int)
    requires
        1 <= cells.tab_width_spec() <= 256,
        earlier <= later,
    ensures
        cells.column_at_spec(earlier) <= cells.column_at_spec(later),
        cells.column_at_spec(later) <= cells.width_spec() + 1,
{
    let clusters = cells.clusters_spec();
    let tab = cells.tab_width_spec() as int;
    lemma_characters_before_monotone(cells, earlier, later);
    lemma_column_monotone(
        clusters,
        tab,
        0,
        0,
        1,
        cells.characters_before(earlier),
        cells.characters_before(later),
    );
    lemma_column_bounds(clusters, tab, 0, 0, 1, cells.characters_before(later));
}

/// A span is marked from the column of its start: an underline begins under the cluster the
/// span's first byte falls in, at the column [`column_at`](LineCells::column_at) reports.
pub proof fn law_a_span_is_marked_from_the_column_of_its_start(cells: LineCells, span: Span)
    ensures
        cells.columns_for_spec(span).0 == cells.column_at_spec(span.start_spec() as int),
{
    lemma_marked_from_the_column_of_its_start(
        cells.clusters_spec(),
        cells.tab_width_spec() as int,
        0,
        0,
        1,
        cells.characters_before(span.start_spec() as int),
        cells.characters_before(span.end_spec() as int),
    );
}

/// A column is one plus the cells before it, so the column at or past the end of a line's
/// content is one plus its width.
///
/// Stated for clusters that split the sanitized line, as `unicode-segmentation`'s always do.
pub proof fn law_the_column_past_the_end_is_the_width_plus_one(cells: LineCells, offset: int)
    requires
        1 <= cells.tab_width_spec() <= 256,
        cells.bytes_spec().len() <= isize::MAX,
        splits(cells.texts_spec(), sanitized(cells.line_spec().text_spec())),
        offset >= cells.line_spec().end_spec(),
    ensures
        cells.column_at_spec(offset) == cells.width_spec() + 1,
{
    let texts = cells.texts_spec();
    let clusters = cells.clusters_spec();
    let line = cells.line_spec();
    line.lemma_bytes_valid();
    line.lemma_text_is_its_bytes();
    line.lemma_text_fits_its_bytes();
    assert(cells.relative(offset) == cells.bytes_spec().len());
    assert(cells.bytes_spec().subrange(0, cells.bytes_spec().len() as int) == cells.bytes_spec());
    assert(texts.subrange(0, texts.len() as int) == texts);
    lemma_measured_counts(texts, texts.len() as int);
    lemma_column_past_the_end(
        clusters,
        cells.tab_width_spec() as int,
        0,
        1,
        cells.characters_before(offset),
    );
}

/// Whether a cluster is one character in one cell, and not a tab.
pub open spec fn is_unit(cluster: Cluster) -> bool {
    cluster.characters == 1 && cluster.cells == 1 && !cluster.tab
}

/// Over clusters that are each one character in one cell, the column of a character is its
/// index plus one.
proof fn lemma_unit_columns(clusters: Seq<Cluster>, tab_width: int, k: int, target: int)
    requires
        0 <= k <= target <= clusters.len() < u64::MAX,
        forall|i: int| 0 <= i < clusters.len() ==> is_unit(#[trigger] clusters[i]),
    ensures
        column_of(clusters, tab_width, k, k, k + 1, target) == target + 1,
    decreases clusters.len() - k,
{
    if k < clusters.len() && target >= k + 1 {
        assert(is_unit(clusters[k]));
        lemma_unit_columns(clusters, tab_width, k + 1, target);
    }
}

/// A display column is a character column exactly where every cluster is one character in one
/// cell: then the column of an offset is one plus the characters before it.
///
/// Stated for clusters that split the sanitized line, as `unicode-segmentation`'s always do.
pub proof fn law_one_cell_characters_are_counted_as_character_columns(cells: LineCells, offset: int)
    requires
        cells.bytes_spec().len() <= isize::MAX,
        splits(cells.texts_spec(), sanitized(cells.line_spec().text_spec())),
        forall|i: int|
            0 <= i < cells.clusters_spec().len() ==> is_unit(#[trigger] cells.clusters_spec()[i]),
    ensures
        cells.column_at_spec(offset) == cells.characters_before(offset) + 1,
{
    let texts = cells.texts_spec();
    let clusters = cells.clusters_spec();
    let line = cells.line_spec();
    line.lemma_text_fits_its_bytes();
    lemma_measured_counts(texts, texts.len() as int);
    assert(texts.subrange(0, texts.len() as int) == texts);
    lemma_characters_before_monotone(cells, offset, offset);
    assert forall|j: int| 0 <= j <= clusters.len() implies characters_until(clusters, j) == j by {
        lemma_unit_count(clusters, j);
    }
    lemma_unit_columns(
        clusters,
        cells.tab_width_spec() as int,
        0,
        cells.characters_before(offset),
    );
}

/// Clusters of one character each hold as many characters as there are clusters.
proof fn lemma_unit_count(clusters: Seq<Cluster>, k: int)
    requires
        0 <= k <= clusters.len(),
        forall|i: int| 0 <= i < clusters.len() ==> is_unit(#[trigger] clusters[i]),
    ensures
        characters_until(clusters, k) == k,
    decreases k,
{
    if k > 0 {
        assert(is_unit(clusters[k - 1]));
        lemma_unit_count(clusters, k - 1);
    }
}

/// Whether a character is a control: C0, DEL, or C1.
pub open spec fn is_control(character: char) -> bool {
    ||| (character as u32) < 0x20
    ||| (character as u32) == 0x7f
    ||| 0x80 <= (character as u32) && (character as u32) <= 0x9f
}

/// Whether a character is unable to steer a terminal, or is a tab, which only moves the cursor
/// to the next stop.
pub open spec fn harmless(character: char) -> bool {
    !is_control(character) || character == '\t'
}

/// Sanitizing leaves no control character in a text but the tab: every other one has been
/// replaced by a stand-in that is not a control itself.
pub proof fn law_sanitizing_leaves_no_control_character_but_the_tab(text: Seq<char>)
    ensures
        forall|i: int| 0 <= i < sanitized(text).len() ==> harmless(#[trigger] sanitized(text)[i]),
{
    assert forall|i: int| 0 <= i < sanitized(text).len() implies harmless(
        #[trigger] sanitized(text)[i],
    ) by {
        let character = text[i];
        if (character as u32) < 0x20 && character != '\t' {
            let code = character as u32;
            assert(((0x2400 + code) as char) as u32 == 0x2400 + code);
        }
    }
}

/// Every character of every part is harmless when every character of the whole is.
pub(crate) proof fn lemma_harmless_parts(texts: Seq<Seq<char>>)
    requires
        forall|i: int| 0 <= i < texts.flatten().len() ==> harmless(#[trigger] texts.flatten()[i]),
    ensures
        forall|j: int, i: int|
            0 <= j < texts.len() && 0 <= i < texts[j].len() ==> harmless(#[trigger] texts[j][i]),
    decreases texts.len(),
{
    if texts.len() > 0 {
        let rest = texts.drop_first();
        assert(texts.flatten() == texts.first() + rest.flatten());
        assert forall|i: int| 0 <= i < rest.flatten().len() implies harmless(
            #[trigger] rest.flatten()[i],
        ) by {
            assert(texts.flatten()[texts.first().len() + i] == rest.flatten()[i]);
        }
        lemma_harmless_parts(rest);
        assert forall|j: int, i: int| 0 <= j < texts.len() && 0 <= i < texts[j].len() implies harmless(
            #[trigger] texts[j][i],
        ) by {
            if j == 0 {
                assert(texts.flatten()[i] == texts[0][i]);
            } else {
                assert(texts[j] == rest[j - 1]);
            }
        }
    }
}

/// An expansion writes only spaces and the characters of its clusters' texts.
pub(crate) proof fn lemma_expansion_is_harmless(
    texts: Seq<Seq<char>>,
    clusters: Seq<Cluster>,
    tab_width: int,
    k: int,
    column: int,
)
    requires
        0 <= k,
        texts.len() == clusters.len(),
        forall|j: int, i: int|
            0 <= j < texts.len() && 0 <= i < texts[j].len() ==> harmless(#[trigger] texts[j][i]),
    ensures
        forall|i: int|
            0 <= i < expanded(texts, clusters, tab_width, k, column).len() ==> harmless(
                #[trigger] expanded(texts, clusters, tab_width, k, column)[i],
            ),
    decreases clusters.len() - k,
{
    if k < clusters.len() {
        let next = advance(clusters[k], column, tab_width);
        lemma_expansion_is_harmless(texts, clusters, tab_width, k + 1, next);
        let piece = if clusters[k].tab {
            spaces(next - column)
        } else {
            texts[k]
        };
        let rest = expanded(texts, clusters, tab_width, k + 1, next);
        assert(expanded(texts, clusters, tab_width, k, column) == piece + rest);
        assert forall|i: int| 0 <= i < (piece + rest).len() implies harmless(
            #[trigger] (piece + rest)[i],
        ) by {
            if i < piece.len() {
                if !clusters[k].tab {
                    assert(harmless(texts[k][i]));
                }
            } else {
                assert((piece + rest)[i] == rest[i - piece.len()]);
            }
        }
    }
}

/// A cluster that is not measured as a tab holds no tab, where tabs stand alone.
proof fn lemma_no_tab_in_other_clusters(texts: Seq<Seq<char>>, k: int, i: int)
    requires
        tabs_stand_alone(texts),
        0 <= k < texts.len(),
        0 <= i < texts[k].len(),
        !measure(texts[k]).tab,
    ensures
        texts[k][i] != '\t',
{
    if texts[k][i] == '\t' {
        assert(texts[k].contains('\t'));
        assert(texts[k] == seq!['\t']);
    }
}

/// An expansion of clusters whose tabs stand alone holds no control character at all: each tab
/// has become spaces.
pub(crate) proof fn lemma_expansion_holds_no_control(
    texts: Seq<Seq<char>>,
    tab_width: int,
    k: int,
    column: int,
)
    requires
        0 <= k,
        tabs_stand_alone(texts),
        forall|j: int, i: int|
            0 <= j < texts.len() && 0 <= i < texts[j].len() ==> harmless(#[trigger] texts[j][i]),
    ensures
        forall|i: int|
            0 <= i < expanded(texts, measured(texts), tab_width, k, column).len() ==> !is_control(
                #[trigger] expanded(texts, measured(texts), tab_width, k, column)[i],
            ),
    decreases texts.len() - k,
{
    let clusters = measured(texts);
    if k < clusters.len() {
        let next = advance(clusters[k], column, tab_width);
        lemma_expansion_holds_no_control(texts, tab_width, k + 1, next);
        let piece = if clusters[k].tab {
            spaces(next - column)
        } else {
            texts[k]
        };
        let rest = expanded(texts, clusters, tab_width, k + 1, next);
        assert(expanded(texts, clusters, tab_width, k, column) == piece + rest);
        assert forall|i: int| 0 <= i < (piece + rest).len() implies !is_control(
            #[trigger] (piece + rest)[i],
        ) by {
            if i < piece.len() {
                if !clusters[k].tab {
                    assert(harmless(texts[k][i]));
                    lemma_no_tab_in_other_clusters(texts, k, i);
                }
            } else {
                assert((piece + rest)[i] == rest[i - piece.len()]);
            }
        }
    }
}

/// The same of an expansion cut at a display column, which adds only its ellipsis.
pub(crate) proof fn lemma_expansion_within_holds_no_control(
    texts: Seq<Seq<char>>,
    tab_width: int,
    k: int,
    column: int,
    limit: int,
)
    requires
        0 <= k,
        tabs_stand_alone(texts),
        forall|j: int, i: int|
            0 <= j < texts.len() && 0 <= i < texts[j].len() ==> harmless(#[trigger] texts[j][i]),
    ensures
        forall|i: int|
            0 <= i < expanded_within(texts, measured(texts), tab_width, k, column, limit).len()
                ==> !is_control(
                #[trigger] expanded_within(texts, measured(texts), tab_width, k, column, limit)[i],
            ),
    decreases texts.len() - k,
{
    let clusters = measured(texts);
    if k < clusters.len() {
        let next = advance(clusters[k], column, tab_width);
        if next <= limit + 1 {
            lemma_expansion_within_holds_no_control(texts, tab_width, k + 1, next, limit);
            let piece = if clusters[k].tab {
                spaces(next - column)
            } else {
                texts[k]
            };
            let rest = expanded_within(texts, clusters, tab_width, k + 1, next, limit);
            assert(expanded_within(texts, clusters, tab_width, k, column, limit) == piece + rest);
            assert forall|i: int| 0 <= i < (piece + rest).len() implies !is_control(
                #[trigger] (piece + rest)[i],
            ) by {
                if i < piece.len() {
                    if !clusters[k].tab {
                        assert(harmless(texts[k][i]));
                        lemma_no_tab_in_other_clusters(texts, k, i);
                    }
                } else {
                    assert((piece + rest)[i] == rest[i - piece.len()]);
                }
            }
        }
    }
}

/// A line whose tabs are clusters of their own, as `unicode-segmentation` makes every tab,
/// expands to text holding no control character at all: each tab has become the spaces that
/// reach its stop, and every other character is the sanitized line's.
pub proof fn law_an_expanded_line_carries_no_control_character(cells: LineCells)
    requires
        splits(cells.texts_spec(), sanitized(cells.line_spec().text_spec())),
        tabs_stand_alone(cells.texts_spec()),
    ensures
        forall|i: int|
            0 <= i < expanded(
                cells.texts_spec(),
                cells.clusters_spec(),
                cells.tab_width_spec() as int,
                0,
                1,
            ).len() ==> !is_control(
                #[trigger] expanded(
                    cells.texts_spec(),
                    cells.clusters_spec(),
                    cells.tab_width_spec() as int,
                    0,
                    1,
                )[i],
            ),
{
    let texts = cells.texts_spec();
    law_sanitizing_leaves_no_control_character_but_the_tab(cells.line_spec().text_spec());
    lemma_harmless_parts(texts);
    lemma_expansion_holds_no_control(texts, cells.tab_width_spec() as int, 0, 1);
}

/// Caller text never steers the terminal: a line written out by
/// [`write_expanded`](LineCells::write_expanded) carries no control character but the tab, since
/// it holds only spaces and characters of the sanitized line.
///
/// Stated for clusters that split the sanitized line, as `unicode-segmentation`'s always do.
pub proof fn law_an_expanded_line_carries_no_control_character_but_the_tab(cells: LineCells)
    requires
        splits(cells.texts_spec(), sanitized(cells.line_spec().text_spec())),
    ensures
        forall|i: int|
            0 <= i < expanded(
                cells.texts_spec(),
                cells.clusters_spec(),
                cells.tab_width_spec() as int,
                0,
                1,
            ).len() ==> harmless(
                #[trigger] expanded(
                    cells.texts_spec(),
                    cells.clusters_spec(),
                    cells.tab_width_spec() as int,
                    0,
                    1,
                )[i],
            ),
{
    let texts = cells.texts_spec();
    law_sanitizing_leaves_no_control_character_but_the_tab(cells.line_spec().text_spec());
    lemma_harmless_parts(texts);
    lemma_expansion_is_harmless(texts, cells.clusters_spec(), cells.tab_width_spec() as int, 0, 1);
}

/// Replaces every control character but the tab by its stand-in.
fn sanitize(text: &str) -> (clean: String)
    ensures
        clean@ == sanitized(text@),
{
    let mut clean = String::new();
    for character in it: text.chars()
        invariant
            it.seq() == text@,
            clean@ == sanitized(it.seq().take(it.index() as int)),
    {
        let code = character as u32;
        let shown = if code < 0x20 && character != '\t' {
            match char_from_u32(0x2400 + code) {
                Some(picture) => picture,
                None => character,
            }
        } else if code == 0x7f {
            '\u{2421}'
        } else if 0x80 <= code && code <= 0x9f {
            '\u{fffd}'
        } else {
            character
        };
        push_char(&mut clean, shown);
        proof {
            assert(sanitized(it.seq().take(it.index() + 1)) =~= sanitized(
                it.seq().take(it.index() as int),
            ).push(picture(character)));
        }
    }
    proof {
        assert(text@.take(text@.len() as int) == text@);
    }
    clean
}

/// The next tab stop after `column`, counting from zero, saturating.
fn next_stop_saturating(column: u64, tab_width: u64) -> (stop: u64)
    requires
        1 <= tab_width,
    ensures
        stop == sat(next_stop(column as int, tab_width as int)),
{
    column.saturating_add(tab_width - column % tab_width)
}

} // verus!
