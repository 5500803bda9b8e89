//! The terminal renderer, in the idiom of `rustc`, `codespan`, `ariadne` or `miette`: a header,
//! then one block per input with a pointer to where the diagnostic is, a gutter of line numbers,
//! and each position's source rows with its marks: markers under a span on one line, and a
//! bracket down the margin for a span reaching across lines. A source row stops at
//! [`Terminal::max_rendered_width`] cells, with `…` in place of the rest.
//!
//! Everything a caller wrote (the message, the code, an origin, a label, the help) is written
//! with every control character replaced by a visible stand-in, a tab among them; the source is
//! written by [`LineCells::write_expanded`], whose tabs reach their stops. Colour is the
//! palette's, brought down to what the capability carries, and with no capability nothing but the
//! text is written: no escape of any kind.
//!
//! Which lines of a span reaching across many are shown is the rule every output shares
//! ([`shown_between`]), decided over the anchors of the span's input.

use vstd::prelude::*;
use vstd::utf8::*;

use super::detect::ColorCapability;
use super::width::{
    char_from_u32, columns_of, expanded_within, grapheme_clusters, is_control,
    law_a_span_is_marked_from_the_column_of_its_start,
    law_sanitizing_leaves_no_control_character_but_the_tab,
    lemma_expansion_within_holds_no_control, tabs_stand_alone,
    lemma_harmless_parts, measured, picture, sanitized, spaces, splits, LineCells,
};
use crate::diagnostic::{Diagnostic, Severity, Span};
use crate::elide::{
    law_the_lines_shown_after_an_anchor_do_not_grow_with_the_distance, shown_between,
    shown_between_spec, CONTEXT,
};
use crate::html::{
    clipped_from, clipped_to, drawable, drawable_at, earliest, earliest_from, first_in_input,
    first_in_its_input, first_line_of, has_next_line, key_of, key_view, last_line_of, lemma_clipped_row,
    lemma_earliest_is_pending, lemma_next_anchor_bounds, lemma_pending_drops, line_after_start,
    next_anchor, next_anchor_exec,
    opens_on, opens_on_exec, pending_count, span_lines, Drawable,
};
use crate::input::Input;
use crate::source::laws::{break_len, lemma_closing_line_follows_opening_line};
use crate::source::line::{clamp_into, prev_boundary};
use crate::source::model::{
    drawn_end, is_atom_boundary, lemma_count_breaks_bound, lemma_line_end, lemma_line_start_of,
    line_end, line_number_at, line_start_of,
};
use crate::source::{clip, resolved_end, resolved_start, Line, Opening, RegionLine, Source, Walk};
use crate::style::{sgr, sgr_closing, sgr_opening, Palette, Role, Style, Theme};
use crate::text::{decimal, push_char, push_chars, push_decimal};

verus! {

broadcast use vstd::utf8::group_utf8_lib;

/// A style brought down to what `capability` can carry: nothing at all without colour, every
/// colour narrowed to the sixteen or to the palette, or the style as it is.
pub open spec fn narrowed_for(style: Style, capability: ColorCapability) -> Style {
    match capability {
        ColorCapability::NoColor => Style::of(None, None, false, false, false),
        ColorCapability::Ansi16 => Style::of(
            Style::narrowed(style.foreground_spec(), true),
            Style::narrowed(style.background_spec(), true),
            style.bold_spec(),
            style.italic_spec(),
            style.underline_spec(),
        ),
        ColorCapability::Ansi256 => Style::of(
            Style::narrowed(style.foreground_spec(), false),
            Style::narrowed(style.background_spec(), false),
            style.bold_spec(),
            style.italic_spec(),
            style.underline_spec(),
        ),
        ColorCapability::TrueColor => style,
    }
}

/// `body` written in `style`: as it is when the style asks for nothing, and otherwise between the
/// sequences that switch the style on and off.
pub open spec fn painted(style: Style, body: Seq<char>) -> Seq<char> {
    if style.is_plain_spec() {
        body
    } else {
        sgr_opening(style) + body + sgr_closing(style)
    }
}

/// The stand-in a caller's character is written as: a tab by `␉`, any other control by its
/// picture, and anything else by itself.
pub open spec fn shown_char(character: char) -> char {
    if character == '\t' {
        '\u{2409}'
    } else {
        picture(character)
    }
}

/// A caller's text, as it is written.
pub open spec fn shown_text(text: Seq<char>) -> Seq<char> {
    text.map_values(|character: char| shown_char(character))
}

/// `count` copies of `character`.
pub open spec fn repeated(character: char, count: int) -> Seq<char> {
    Seq::new(if count > 0 { count as nat } else { 0 }, |i: int| character)
}

/// The marker a position's cells are underlined with.
pub open spec fn marker(primary: bool) -> char {
    if primary {
        '^'
    } else {
        '-'
    }
}

/// The role a position's marks and phrase are written in.
pub open spec fn label_role(primary: bool) -> Role {
    if primary {
        Role::PrimaryLabel
    } else {
        Role::SecondaryLabel
    }
}

/// The tab width a line is measured with: zero raised to one, and anything past 256 lowered to it.
pub open spec fn measured_tab(tab_width: u64) -> u64 {
    if tab_width == 0 {
        1
    } else if tab_width > 256 {
        256
    } else {
        tab_width
    }
}

/// The content of the line of `bytes` that begins at `line_start`.
pub open spec fn line_bytes(bytes: Seq<u8>, line_start: int) -> Seq<u8> {
    bytes.subrange(line_start, line_end(bytes, line_start))
}

/// The clusters of that line, after sanitization.
pub open spec fn texts_at(bytes: Seq<u8>, line_start: int) -> Seq<Seq<char>> {
    grapheme_clusters(sanitized(decode_utf8(line_bytes(bytes, line_start))))
}

/// That line, with each tab expanded to its stop, as [`LineCells::write_expanded`] writes it.
pub open spec fn expanded_at(bytes: Seq<u8>, line_start: int, tab_width: u64) -> Seq<char> {
    expanded_within(
        texts_at(bytes, line_start),
        measured(texts_at(bytes, line_start)),
        tab_width as int,
        0,
        1,
        rendered_width(),
    )
}

/// The widest an excerpt is drawn, in cells: past it a row stops and says so with an ellipsis,
/// and a row of markers is confined to the same window.
pub open spec fn rendered_width() -> int {
    4096
}

/// Marker columns confined to the drawn window: a mark reaching past it ends on the ellipsis,
/// and one that begins past it is drawn on the ellipsis alone.
pub open spec fn windowed(columns: (int, int)) -> (int, int) {
    let start = if columns.0 > rendered_width() + 1 {
        rendered_width() + 1
    } else {
        columns.0
    };
    let end = if columns.1 > rendered_width() + 2 {
        rendered_width() + 2
    } else {
        columns.1
    };
    (start, if end > start {
        end
    } else {
        start + 1
    })
}

/// How many characters of that line come before where `offset` lands on it.
pub open spec fn characters_to(bytes: Seq<u8>, line_start: int, offset: int) -> int {
    let content = line_bytes(bytes, line_start);
    let relative = prev_boundary(
        content,
        clamp_into(offset, line_start, line_end(bytes, line_start)) - line_start,
    );
    decode_utf8(content.subrange(0, relative)).len() as int
}

/// The display columns the bytes `from..to` of that line are marked at, widened to whole
/// clusters and never empty: a range that covers no cell is given the one cell at its start.
pub open spec fn marker_columns(
    bytes: Seq<u8>,
    line_start: int,
    tab_width: u64,
    from: int,
    to: int,
) -> (int, int) {
    let columns = columns_of(
        measured(texts_at(bytes, line_start)),
        tab_width as int,
        characters_to(bytes, line_start, from),
        characters_to(bytes, line_start, to),
    );
    windowed(
        (
            columns.0,
            if columns.1 > columns.0 {
                columns.1
            } else if columns.0 < u64::MAX {
                columns.0 + 1
            } else {
                columns.0
            },
        ),
    )
}

/// Confines marker columns to the drawn window.
fn window(start: u64, end: u64) -> (columns: (u64, u64))
    ensures
        (columns.0 as int, columns.1 as int) == windowed((start as int, end as int)),
        columns.0 <= columns.1,
{
    let first = if start > 4097 {
        4097
    } else {
        start
    };
    let last = if end > 4098 {
        4098
    } else {
        end
    };
    (first, if last > first {
        last
    } else {
        first + 1
    })
}

/// Whether a character is white space, as Unicode's `White_Space` property (and
/// `char::is_whitespace`) says.
pub open spec fn white_space(character: char) -> bool {
    ||| character == ' '
    ||| '\t' <= character <= '\r'
    ||| character == '\u{85}'
    ||| character == '\u{a0}'
    ||| character == '\u{1680}'
    ||| '\u{2000}' <= character <= '\u{200a}'
    ||| character == '\u{2028}'
    ||| character == '\u{2029}'
    ||| character == '\u{202f}'
    ||| character == '\u{205f}'
    ||| character == '\u{3000}'
}

/// Whether the character at `count` of `text` is its first that is not white space.
pub open spec fn first_nonblank_at(text: Seq<char>, count: int) -> bool {
    &&& 0 <= count < text.len()
    &&& !white_space(text[count])
    &&& forall|i: int| 0 <= i < count ==> white_space(#[trigger] text[i])
}

/// Whether a span of `bytes` beginning at `start` begins at the first non-blank of its line: the
/// one cell a row with no marker under it can name, so the bracket may open in the margin.
pub open spec fn opens_at_first_nonblank(bytes: Seq<u8>, start: int) -> bool {
    first_nonblank_at(
        decode_utf8(line_bytes(bytes, line_start_of(bytes, start))),
        crate::source::model::column_at(bytes, start) - 1,
    )
}

/// Whether a character is white space.
fn is_white_space(character: char) -> (white: bool)
    ensures
        white == white_space(character),
{
    character == ' ' || ('\t' <= character && character <= '\r') || character == '\u{85}'
        || character == '\u{a0}' || character == '\u{1680}' || ('\u{2000}' <= character
        && character <= '\u{200a}') || character == '\u{2028}' || character == '\u{2029}'
        || character == '\u{202f}' || character == '\u{205f}' || character == '\u{3000}'
}

/// Whether the character at `count` of `text` is its first that is not white space.
fn is_first_nonblank(text: &str, count: u64) -> (found: bool)
    ensures
        found == first_nonblank_at(text@, count as int),
{
    let mut index: u64 = 0;
    for character in it: text.chars()
        invariant
            it.seq() == text@,
            index == it.index(),
            index <= count,
            forall|i: int| 0 <= i < index ==> white_space(#[trigger] text@[i]),
    {
        if index == count {
            return !is_white_space(character);
        }
        if !is_white_space(character) {
            return false;
        }
        index += 1;
    }
    false
}

/// The glyph a severity is announced by in the shape `miette` draws.
pub open spec fn severity_glyph(severity: Severity) -> Seq<char> {
    match severity {
        Severity::Error => "\u{d7}"@,
        Severity::Warning => "\u{26a0}"@,
        Severity::Advice => "\u{261e}"@,
    }
}

/// The word a severity is announced by in the shape `ariadne` draws.
pub open spec fn kind_word(severity: Severity) -> Seq<char> {
    match severity {
        Severity::Error => "Error"@,
        Severity::Warning => "Warning"@,
        Severity::Advice => "Advice"@,
    }
}

/// A rule `width` cells long, with a tee in its middle cell when `teed`, drawn heavy when
/// `heavy`.
pub open spec fn teed_rule(width: int, teed: bool, heavy: bool) -> Seq<char> {
    Seq::new(
        if width > 0 {
            width as nat
        } else {
            0
        },
        |i: int|
            rule_cell(teed && i == width / 2, heavy),
    )
}

/// One cell of a rule: a tee or the rule itself, heavy or light.
pub open spec fn rule_cell(tee: bool, heavy: bool) -> char {
    if tee {
        if heavy {
            '\u{2533}'
        } else {
            '\u{252c}'
        }
    } else if heavy {
        '\u{2501}'
    } else {
        '\u{2500}'
    }
}

/// What a row shows in a bracket's column.
#[derive(Debug, Clone, Copy, PartialEq, Eq, Structural)]
pub enum Slot {
    /// Nothing: the bracket is not open there.
    Blank,
    /// The bracket running past.
    Running,
    /// The bracket opening in its column.
    Opening,
    /// The bracket ending in its column.
    Closing,
}

/// The shape a render is drawn in.
///
/// They differ in glyphs, in the rows that open and close a block, in where a phrase stands (beside
/// its marks, or hanging from a row of its own) and in how a bracket meets its line. Which lines
/// are drawn, and which cells of a line on its own are marked, are the same in all four.
#[derive(Debug, Clone, Copy, PartialEq, Eq, Structural)]
pub enum Presentation {
    /// The shape `rustc` draws.
    Rustc,
    /// The shape `codespan-reporting` draws.
    Codespan,
    /// The shape `ariadne` draws: a frame around the whole render, labels hanging from their
    /// own rows, and brackets that point into the line they open and close on.
    Ariadne,
    /// The shape `miette` draws: a boxed location line, labels hanging from their own rows, and
    /// brackets down the margin, heavy for the primary position.
    Miette,
}

/// Renders a diagnostic and its source to a fixed-width terminal, in the shape `rustc` draws
/// unless asked for another [`Presentation`].
///
/// One excerpt per position, in source order within each input. A span on one line is that line
/// and a row of markers under it with the position's phrase; `^` marks the primary position and
/// `-` a secondary one. A span reaching across lines is bracketed: the line it opens on, a corner
/// from the bracket's column to the cell it opens at (or, when it opens at the line's first
/// non-blank, the bracket opening in the margin of that row), the lines after it up to the one it
/// closes on with the bracket running beside them (lines left out by the shared elision rule
/// standing as one row), and a corner to the cell it closes at, which carries the phrase.
#[derive(Debug, Clone, Copy)]
pub struct Terminal<P> {
    palette: P,
    capability: ColorCapability,
    tab_width: u64,
    presentation: Presentation,
}

impl<P: Palette> Terminal<P> {
    /// The palette roles are styled by.
    pub closed spec fn palette_spec(self) -> P {
        self.palette
    }

    /// How much colour the output can carry.
    pub closed spec fn capability_spec(self) -> ColorCapability {
        self.capability
    }

    /// The distance between tab stops the renderer was asked for.
    pub closed spec fn tab_width_spec(self) -> u64 {
        self.tab_width
    }

    /// The shape the render is drawn in.
    pub closed spec fn presentation_spec(self) -> Presentation {
        self.presentation
    }

    /// The wall between the line numbers and the text.
    pub open spec fn bar(self) -> Seq<char> {
        match self.presentation_spec() {
            Presentation::Rustc => "|"@,
            Presentation::Codespan => "\u{2502}"@,
            _ => "\u{2502}"@,
        }
    }

    /// What stands in the wall's column of a row that says something about the line above it.
    pub open spec fn post(self) -> Seq<char> {
        match self.presentation_spec() {
            Presentation::Miette => "\u{b7}"@,
            _ => self.bar(),
        }
    }

    /// Whether a position's rules and brackets are drawn heavy: the primary's, in the shape
    /// `miette` draws.
    pub open spec fn heavy(self, primary: bool) -> bool {
        primary && self.presentation_spec() == Presentation::Miette
    }

    /// What a bracket runs down.
    pub open spec fn runs_glyph(self, primary: bool) -> Seq<char> {
        if self.heavy(primary) {
            "\u{2503}"@
        } else {
            self.bar()
        }
    }

    /// How far a row's fields stand in from the left edge, past the gutter.
    pub open spec fn indent(self) -> int {
        match self.presentation_spec() {
            Presentation::Ariadne => 1,
            Presentation::Miette => 1,
            _ => 0,
        }
    }

    /// The style `role` is written in.
    pub open spec fn role_style(self, role: Role) -> Style {
        narrowed_for(self.palette_spec().palette_style(role), self.capability_spec())
    }

    /// `body` written in the style of `role`.
    pub open spec fn styled(self, role: Role, body: Seq<char>) -> Seq<char> {
        painted(self.role_style(role), body)
    }

    /// The line-number field of a row: the number right-aligned in `gutter` cells.
    pub open spec fn number_field(self, gutter: nat, number: nat) -> Seq<char> {
        spaces(gutter + self.indent() - decimal(number).len()) + self.styled(
            Role::LineNumber,
            decimal(number),
        )
    }

    /// What stands before a row of markers: the gutter, its bar, and a blank.
    pub open spec fn annotation(self, gutter: nat) -> Seq<char> {
        spaces(gutter + 1 + self.indent()) + self.styled(Role::Gutter, self.post()) + " "@
    }

    /// The bar that opens and closes a block.
    pub open spec fn bar_row(self, gutter: nat) -> Seq<char> {
        spaces(gutter + 1 + self.indent()) + self.styled(Role::Gutter, self.bar()) + "\n"@
    }

    /// The source row for the line of `bytes` that begins at `line_start`.
    pub open spec fn source_row(self, gutter: nat, bytes: Seq<u8>, line_start: int) -> Seq<char> {
        self.number_field(gutter, line_number_at(bytes, line_start)) + " "@ + self.styled(
            Role::Gutter,
            self.bar(),
        ) + " "@ + self.styled(
            Role::SourceText,
            expanded_at(bytes, line_start, measured_tab(self.tab_width_spec())),
        ) + "\n"@
    }

    /// The row of markers under that line, over the bytes `from..to`, with the phrase when there
    /// is one.
    pub open spec fn marker_row(
        self,
        gutter: nat,
        bytes: Seq<u8>,
        line_start: int,
        from: int,
        to: int,
        primary: bool,
        text: Option<Seq<char>>,
    ) -> Seq<char> {
        let columns = marker_columns(
            bytes,
            line_start,
            measured_tab(self.tab_width_spec()),
            from,
            to,
        );
        match self.presentation_spec() {
            Presentation::Ariadne => self.hanging_rows(gutter, columns, primary, text, Seq::empty()),
            Presentation::Miette => self.hanging_rows(gutter, columns, primary, text, Seq::empty()),
            _ => self.annotation(gutter) + self.marks_run(columns, primary) + self.label_part(
                primary,
                text,
            ) + "\n"@,
        }
    }

    /// The row of markers under a line of an input with a bracket: the marker row with the blank
    /// of the bracket's column after its wall.
    pub open spec fn margined_marker_row(
        self,
        gutter: nat,
        bytes: Seq<u8>,
        line_start: int,
        from: int,
        to: int,
        primary: bool,
        text: Option<Seq<char>>,
    ) -> Seq<char> {
        let columns = marker_columns(
            bytes,
            line_start,
            measured_tab(self.tab_width_spec()),
            from,
            to,
        );
        match self.presentation_spec() {
            Presentation::Ariadne => self.hanging_rows(gutter, columns, primary, text, "    "@),
            Presentation::Miette => self.hanging_rows(gutter, columns, primary, text, "  "@),
            _ => self.annotation(gutter) + "  "@ + self.marks_run(columns, primary)
                + self.label_part(primary, text) + "\n"@,
        }
    }

    /// What a phrase hangs from its tee by.
    pub open spec fn hang(self, primary: bool) -> Seq<char> {
        if self.heavy(primary) {
            "\u{2517}\u{2501}\u{2501}"@
        } else {
            "\u{2570}\u{2500}\u{2500}"@
        }
    }

    /// The rows under a span on one line in the shapes `ariadne` and `miette` draw: a rule under its cells,
    /// with a tee in the middle when there is a phrase, and the phrase hanging from the tee on a
    /// row of its own; `margin` stands between the wall and the cells.
    pub open spec fn hanging_rows(
        self,
        gutter: nat,
        columns: (int, int),
        primary: bool,
        text: Option<Seq<char>>,
        margin: Seq<char>,
    ) -> Seq<char> {
        let width = columns.1 - columns.0;
        let role = label_role(primary);
        self.annotation(gutter) + margin + spaces(columns.0 - 1) + self.styled(
            role,
            teed_rule(width, text is Some, self.heavy(primary)),
        ) + "\n"@ + match text {
            Some(phrase) => self.annotation(gutter) + margin + spaces(columns.0 - 1 + width / 2)
                + self.styled(role, self.hang(primary)) + " "@ + self.styled(
                role,
                shown_text(phrase),
            ) + "\n"@,
            None => Seq::empty(),
        }
    }

    /// The markers over `columns`, after the blanks that reach them.
    pub open spec fn marks_run(self, columns: (int, int), primary: bool) -> Seq<char> {
        spaces(columns.0 - 1) + self.styled(
            label_role(primary),
            repeated(marker(primary), columns.1 - columns.0),
        )
    }

    /// The phrase after the markers, when there is one.
    pub open spec fn label_part(self, primary: bool, text: Option<Seq<char>>) -> Seq<char> {
        match text {
            Some(phrase) => " "@ + self.styled(label_role(primary), shown_text(phrase)),
            None => Seq::empty(),
        }
    }

    /// What stands in a bracket's column on a row: the bar of a span running there, styled as its
    /// markers are, or a blank; and the blank that parts it from the text.
    pub open spec fn slot(self, running: bool, primary: bool) -> Seq<char> {
        if running {
            self.styled(label_role(primary), self.runs_glyph(primary)) + self.approach()
        } else {
            self.blank_slot()
        }
    }

    /// What parts a bracket's column from the text: a blank, or in the shape `ariadne` draws the
    /// three cells an arrow into the line takes.
    pub open spec fn approach(self) -> Seq<char> {
        match self.presentation_spec() {
            Presentation::Ariadne => "   "@,
            _ => " "@,
        }
    }

    /// A bracket's column with nothing in it, and what parts it from the text.
    pub open spec fn blank_slot(self) -> Seq<char> {
        match self.presentation_spec() {
            Presentation::Ariadne => "    "@,
            _ => "  "@,
        }
    }

    /// What stands in a bracket's column on the row it closes on.
    pub open spec fn closing_slot(self, primary: bool) -> Seq<char> {
        match self.presentation_spec() {
            Presentation::Ariadne => self.pointing_slot("\u{251c}"@, primary),
            Presentation::Miette => self.styled(
                label_role(primary),
                if primary {
                    "\u{2523}"@
                } else {
                    "\u{251c}"@
                },
            ) + " "@,
            _ => self.slot(true, primary),
        }
    }

    /// What stands in a bracket's column on the row of line `number` after the one it opens on:
    /// the bar running, or its end on the line `last` it closes on.
    pub open spec fn row_slot(self, number: int, last: int, primary: bool) -> Seq<char> {
        if number == last {
            self.closing_slot(primary)
        } else {
            self.slot(true, primary)
        }
    }

    /// What stands in a bracket's column for each kind of row.
    pub open spec fn slot_of(self, kind: Slot, primary: bool) -> Seq<char> {
        match kind {
            Slot::Blank => self.slot(false, primary),
            Slot::Running => self.slot(true, primary),
            Slot::Opening => self.opening_slot(primary),
            Slot::Closing => self.closing_slot(primary),
        }
    }

    /// A bracket's end in its column, turning into an arrow that points into the line.
    pub open spec fn pointing_slot(self, end: Seq<char>, primary: bool) -> Seq<char> {
        self.styled(label_role(primary), end) + self.styled(
            label_role(primary),
            "\u{2500}\u{25b6}"@,
        ) + " "@
    }

    /// The source row for a line of a bracketed span, with `slot` between the wall and the text.
    pub open spec fn bracketed_row(
        self,
        gutter: nat,
        bytes: Seq<u8>,
        line_start: int,
        slot: Seq<char>,
    ) -> Seq<char> {
        self.number_field(gutter, line_number_at(bytes, line_start)) + " "@ + self.styled(
            Role::Gutter,
            self.bar(),
        ) + " "@ + slot + self.styled(
            Role::SourceText,
            expanded_at(bytes, line_start, measured_tab(self.tab_width_spec())),
        ) + "\n"@
    }

    /// The row standing for lines left out, inside a bracket, which runs on through it.
    pub open spec fn running_gap_row(self, gutter: nat, primary: bool) -> Seq<char> {
        self.gap_head(gutter) + self.styled(label_role(primary), self.gap_glyph(primary)) + "\n"@
    }

    /// What a row standing for lines left out begins with, up to the bracket's column.
    pub open spec fn gap_head(self, gutter: nat) -> Seq<char> {
        match self.presentation_spec() {
            Presentation::Rustc => self.styled(Role::LineNumber, "..."@) + spaces(gutter as int),
            Presentation::Codespan => spaces(gutter + 1int) + self.styled(Role::Gutter, "\u{b7}"@)
                + " "@,
            Presentation::Ariadne => spaces(gutter + 2int) + self.styled(Role::Gutter, "\u{2506}"@)
                + " "@,
            Presentation::Miette => spaces(gutter + 2int) + self.styled(
                Role::LineNumber,
                "\u{22ee}"@,
            ) + " "@,
        }
    }

    /// What a bracket shows in its column on a row standing for lines left out.
    pub open spec fn gap_glyph(self, primary: bool) -> Seq<char> {
        match self.presentation_spec() {
            Presentation::Ariadne => "\u{2506}"@,
            _ => self.runs_glyph(primary),
        }
    }

    /// What stands in a bracket's column on the row it opens on in the margin, and the blank
    /// after it.
    pub open spec fn opening_slot(self, primary: bool) -> Seq<char> {
        match self.presentation_spec() {
            Presentation::Ariadne => self.pointing_slot("\u{256d}"@, primary),
            Presentation::Miette => self.styled(
                label_role(primary),
                if primary {
                    "\u{250f}"@
                } else {
                    "\u{256d}"@
                },
            ) + " "@,
            _ => self.styled(label_role(primary), self.margin_opening()) + " "@,
        }
    }

    /// What stands in a bracket's column on the row it opens on, when it opens in the margin.
    pub open spec fn margin_opening(self) -> Seq<char> {
        match self.presentation_spec() {
            Presentation::Rustc => "/"@,
            _ => "\u{256d}"@,
        }
    }

    /// Where a bracket turns from its column towards the cell it marks.
    pub open spec fn bend(self, closing: bool) -> Seq<char> {
        match self.presentation_spec() {
            Presentation::Rustc => if closing {
                "|"@
            } else {
                " "@
            },
            _ => if closing {
                "\u{2570}"@
            } else {
                "\u{256d}"@
            },
        }
    }

    /// What a bracket's corner runs along.
    pub open spec fn rule(self) -> char {
        match self.presentation_spec() {
            Presentation::Rustc => '_',
            _ => '\u{2500}',
        }
    }

    /// What a bracket's corner ends in, under the cell it marks.
    pub open spec fn tip(self, primary: bool) -> char {
        match self.presentation_spec() {
            Presentation::Rustc => marker(primary),
            _ => if primary {
                '^'
            } else {
                '\''
            },
        }
    }

    /// A corner of a bracket: from its column along the row to the display column `column`,
    /// which it marks; a closing corner carries the phrase.
    pub open spec fn corner_row(
        self,
        gutter: nat,
        column: int,
        primary: bool,
        closing: bool,
        text: Option<Seq<char>>,
    ) -> Seq<char> {
        self.annotation(gutter) + self.styled(
            label_role(primary),
            self.bend(closing) + repeated(self.rule(), column) + seq![self.tip(primary)],
        ) + self.label_part(primary, text) + "\n"@
    }

    /// The rows that close a bracket under the line it closes on: a corner to the display column
    /// `column`, or in the shape `ariadne` draws the bracket running one row further and turning
    /// along a rule; the phrase goes at the end.
    pub open spec fn closing_rows(
        self,
        gutter: nat,
        column: int,
        primary: bool,
        text: Option<Seq<char>>,
    ) -> Seq<char> {
        match self.presentation_spec() {
            Presentation::Ariadne => self.annotation(gutter) + self.styled(
                label_role(primary),
                self.bar(),
            ) + "\n"@ + self.annotation(gutter) + self.styled(
                label_role(primary),
                "\u{2570}\u{2500}\u{2500}\u{2500}\u{2500}"@,
            ) + self.label_part(primary, text) + "\n"@,
            Presentation::Miette => self.annotation(gutter) + self.styled(
                label_role(primary),
                if primary {
                    "\u{2517}\u{2501}\u{2501}\u{2501}\u{2501}"@
                } else {
                    "\u{2570}\u{2500}\u{2500}\u{2500}\u{2500}"@
                },
            ) + self.label_part(primary, text) + "\n"@,
            _ => self.corner_row(gutter, column, primary, true, text),
        }
    }

    /// Whether a bracket opens in its column on the row of the line it opens on, with no corner
    /// under it.
    pub open spec fn opens_in_margin(self, bytes: Seq<u8>, start: int) -> bool {
        self.presentation_spec() == Presentation::Ariadne || self.presentation_spec()
            == Presentation::Miette || opens_at_first_nonblank(bytes, start)
    }

    /// The header: the severity's word, the code in brackets, and the message.
    pub open spec fn header_spec(self, diagnostic: Diagnostic) -> Seq<char> {
        let severity = diagnostic.severity_spec();
        match self.presentation_spec() {
            Presentation::Ariadne => self.styled(Role::Code, "["@) + self.styled(
                Role::Code,
                shown_text(diagnostic.code_spec()@),
            ) + self.styled(Role::Code, "]"@) + " "@ + self.styled(
                Role::Severity(severity),
                kind_word(severity),
            ) + ": "@ + shown_text(diagnostic.message_spec()@) + "\n"@,
            Presentation::Miette => self.styled(Role::Code, shown_text(diagnostic.code_spec()@))
                + "\n\n  "@ + self.styled(Role::Severity(severity), severity_glyph(severity)) + " "@
                + shown_text(diagnostic.message_spec()@) + "\n"@,
            _ => self.styled(Role::Severity(severity), severity.name_spec()) + self.styled(
            Role::Code,
            "["@,
        ) + self.styled(Role::Code, shown_text(diagnostic.code_spec()@)) + self.styled(
            Role::Code,
            "]"@,
            ) + ": "@ + shown_text(diagnostic.message_spec()@) + "\n"@,
        }
    }

    /// The help, aligned under the gutter; `drawn` is whether any block was drawn above it.
    pub open spec fn help_spec(self, gutter: nat, help: Seq<char>, drawn: bool) -> Seq<char> {
        match self.presentation_spec() {
            Presentation::Rustc => spaces(gutter + 1int) + "= "@ + self.styled(Role::Help, "help"@)
                + ": "@ + self.styled(Role::Help, shown_text(help)) + "\n"@,
            Presentation::Codespan => spaces(gutter + 1int) + "= "@ + self.styled(
                Role::Help,
                shown_text(help),
            ) + "\n"@,
            Presentation::Ariadne => (if drawn {
                self.bar_row(gutter) + self.annotation(gutter)
            } else {
                "  "@
            }) + self.styled(Role::Help, "Help"@) + ": "@ + self.styled(
                Role::Help,
                shown_text(help),
            ) + "\n"@,
            Presentation::Miette => "  "@ + self.styled(Role::Help, "help"@) + ": "@ + self.styled(
                Role::Help,
                shown_text(help),
            ) + "\n"@,
        }
    }

    /// What ends the render: in the shape `ariadne` draws, the foot of its frame when a block
    /// was drawn.
    pub open spec fn close_render(self, gutter: nat, drawn: bool) -> Seq<char> {
        if self.presentation_spec() == Presentation::Ariadne && drawn {
            self.styled(Role::Gutter, repeated('\u{2500}', gutter + 2int) + "\u{256f}"@)
                + "\n"@
        } else {
            Seq::empty()
        }
    }

    /// What closes a block: the bar under it, or nothing in the shape `ariadne` draws, whose frame
    /// runs on.
    pub open spec fn block_close(self, gutter: nat) -> Seq<char> {
        match self.presentation_spec() {
            Presentation::Ariadne => Seq::empty(),
            Presentation::Miette => spaces(gutter + 2int) + self.styled(
                Role::Gutter,
                "\u{2570}\u{2500}\u{2500}\u{2500}\u{2500}"@,
            ) + "\n"@,
            _ => self.bar_row(gutter),
        }
    }

    /// What points at where a block is.
    pub open spec fn arrow(self, gutter: nat) -> Seq<char> {
        match self.presentation_spec() {
            Presentation::Rustc => spaces(gutter as int) + "--> "@,
            _ => spaces(gutter + 1int) + self.styled(
                Role::Gutter,
                "\u{250c}\u{2500}"@,
            ) + " "@,
        }
    }

    /// Where a block begins: an arrow, the caller's name for the input when it gave one, and the
    /// line and character column of its earliest position. In the shape `ariadne` draws, the
    /// location is boxed into the frame, which `first` says it opens.
    pub open spec fn origin_spec(
        self,
        gutter: nat,
        origin: Option<Seq<char>>,
        line: nat,
        column: nat,
        first: bool,
    ) -> Seq<char> {
        let location = match origin {
            Some(name) => shown_text(name) + ":"@,
            None => Seq::empty(),
        } + decimal(line) + ":"@ + decimal(column);
        match self.presentation_spec() {
            Presentation::Ariadne => (if first {
                Seq::empty()
            } else {
                self.bar_row(gutter)
            }) + spaces(gutter + 2int) + self.styled(
                Role::Gutter,
                if first {
                    "\u{256d}\u{2500}[ "@
                } else {
                    "\u{251c}\u{2500}[ "@
                },
            ) + location + self.styled(Role::Gutter, " ]"@) + "\n"@ + self.bar_row(gutter),
            Presentation::Miette => spaces(gutter + 2int) + self.styled(Role::Gutter, "\u{256d}\u{2500}["@)
                + location + self.styled(Role::Gutter, "]"@) + "\n"@,
            _ => self.arrow(gutter) + location + "\n"@ + self.bar_row(gutter),
        }
    }
}


/// Writes a caller's text with every control character replaced by its stand-in.
fn shown(out: &mut String, text: &str)
    ensures
        final(out)@ == old(out)@ + shown_text(text@),
{
    let ghost start = out@;
    for character in it: text.chars()
        invariant
            it.seq() == text@,
            out@ == start + shown_text(it.seq().take(it.index() as int)),
    {
        let code = character as u32;
        let pictured = if character == '\t' {
            '\u{2409}'
        } else if code < 0x20 {
            match char_from_u32(0x2400 + code) {
                Some(found) => found,
                None => character,
            }
        } else if code == 0x7f {
            '\u{2421}'
        } else if 0x80 <= code && code <= 0x9f {
            '\u{fffd}'
        } else {
            character
        };
        push_char(out, pictured);
        proof {
            assert(shown_text(it.seq().take(it.index() + 1)) =~= shown_text(
                it.seq().take(it.index() as int),
            ).push(shown_char(character)));
        }
    }
    proof {
        assert(text@.take(text@.len() as int) == text@);
    }
}

/// Writes `count` spaces.
fn pad(out: &mut String, count: u64)
    ensures
        final(out)@ == old(out)@ + spaces(count as int),
{
    let ghost start = out@;
    let mut written: u64 = 0;
    while written < count
        invariant
            written <= count,
            out@ == start + spaces(written as int),
        decreases count - written,
    {
        push_char(out, ' ');
        proof {
            assert(spaces(written as int).push(' ') =~= spaces(written + 1));
        }
        written += 1;
    }
}

/// Writes `count` copies of `character`.
fn repeat(out: &mut String, character: char, count: u64)
    ensures
        final(out)@ == old(out)@ + repeated(character, count as int),
{
    let ghost start = out@;
    let mut written: u64 = 0;
    while written < count
        invariant
            written <= count,
            out@ == start + repeated(character, written as int),
        decreases count - written,
    {
        push_char(out, character);
        proof {
            assert(repeated(character, written as int).push(character) =~= repeated(
                character,
                written + 1,
            ));
        }
        written += 1;
    }
}

/// Switches the terminal into `style`, unless it asks for nothing.
fn open_style(out: &mut String, style: Style)
    ensures
        final(out)@ == old(out)@ + if style.is_plain_spec() {
            Seq::empty()
        } else {
            sgr_opening(style)
        },
{
    if !style.is_plain() {
        let (opening, _) = sgr(style);
        push_chars(out, opening.as_str());
    } else {
        assert(old(out)@ + Seq::<char>::empty() =~= old(out)@);
    }
}

/// Switches `style` off again, unless it asked for nothing.
fn close_style(out: &mut String, style: Style)
    ensures
        final(out)@ == old(out)@ + if style.is_plain_spec() {
            Seq::empty()
        } else {
            sgr_closing(style)
        },
{
    if !style.is_plain() {
        let (_, closing) = sgr(style);
        push_chars(out, closing.as_str());
    } else {
        assert(old(out)@ + Seq::<char>::empty() =~= old(out)@);
    }
}

impl Terminal<Theme> {
    /// The built-in theme, with no colour until a caller asks for some.
    pub fn plain() -> (terminal: Self)
        ensures
            terminal.palette_spec() == Theme::new_spec(),
            terminal.capability_spec() == ColorCapability::NoColor,
            terminal.tab_width_spec() == 4,
            terminal.presentation_spec() == Presentation::Rustc,
    {
        Terminal {
            palette: Theme::new(),
            capability: ColorCapability::NoColor,
            tab_width: LineCells::default_tab_width(),
            presentation: Presentation::Rustc,
        }
    }
}

impl<P: Palette> Terminal<P> {
    /// A renderer over any palette, with no colour until a caller asks for some.
    pub fn with_palette(palette: P) -> (terminal: Self)
        ensures
            terminal.palette_spec() == palette,
            terminal.capability_spec() == ColorCapability::NoColor,
            terminal.tab_width_spec() == 4,
            terminal.presentation_spec() == Presentation::Rustc,
    {
        Terminal {
            palette,
            capability: ColorCapability::NoColor,
            tab_width: LineCells::default_tab_width(),
            presentation: Presentation::Rustc,
        }
    }

    /// Draws in the shape `rustc` does: the default.
    pub fn like_rustc(self) -> (terminal: Self)
        ensures
            terminal.palette_spec() == self.palette_spec(),
            terminal.capability_spec() == self.capability_spec(),
            terminal.tab_width_spec() == self.tab_width_spec(),
            terminal.presentation_spec() == Presentation::Rustc,
    {
        Terminal { presentation: Presentation::Rustc, ..self }
    }

    /// Draws in the shape `codespan-reporting` does.
    pub fn like_codespan(self) -> (terminal: Self)
        ensures
            terminal.palette_spec() == self.palette_spec(),
            terminal.capability_spec() == self.capability_spec(),
            terminal.tab_width_spec() == self.tab_width_spec(),
            terminal.presentation_spec() == Presentation::Codespan,
    {
        Terminal { presentation: Presentation::Codespan, ..self }
    }

    /// The widest an excerpt is drawn, in cells. Past it a row stops and says so with an
    /// ellipsis rather than cutting in silence, and its markers are confined to the same window,
    /// so a row cannot grow with the tabs or the length of the line it shows. It bounds the
    /// source, not the caller's own words: a message, a label or a help is written whole.
    pub fn max_rendered_width() -> (cells: u64)
        ensures
            cells == rendered_width(),
    {
        4096
    }

    /// Draws in the shape `miette` does: the code on a line of its own, the message after the
    /// severity's glyph, a boxed location line, labels hanging from their own rows, and brackets
    /// down the margin, heavy for the primary position.
    pub fn like_miette(self) -> (terminal: Self)
        ensures
            terminal.palette_spec() == self.palette_spec(),
            terminal.capability_spec() == self.capability_spec(),
            terminal.tab_width_spec() == self.tab_width_spec(),
            terminal.presentation_spec() == Presentation::Miette,
    {
        Terminal { presentation: Presentation::Miette, ..self }
    }

    /// Draws in the shape `ariadne` does: a frame around the whole render, the location boxed into
    /// it, labels hanging from their own rows, and brackets that point into the lines they open
    /// and close on.
    pub fn like_ariadne(self) -> (terminal: Self)
        ensures
            terminal.palette_spec() == self.palette_spec(),
            terminal.capability_spec() == self.capability_spec(),
            terminal.tab_width_spec() == self.tab_width_spec(),
            terminal.presentation_spec() == Presentation::Ariadne,
    {
        Terminal { presentation: Presentation::Ariadne, ..self }
    }

    /// Sets how much colour the output can carry.
    pub fn with_capability(self, capability: ColorCapability) -> (terminal: Self)
        ensures
            terminal.palette_spec() == self.palette_spec(),
            terminal.capability_spec() == capability,
            terminal.tab_width_spec() == self.tab_width_spec(),
            terminal.presentation_spec() == self.presentation_spec(),
    {
        Terminal { capability, ..self }
    }

    /// Sets the distance between tab stops.
    pub fn with_tab_width(self, tab_width: u64) -> (terminal: Self)
        ensures
            terminal.palette_spec() == self.palette_spec(),
            terminal.capability_spec() == self.capability_spec(),
            terminal.tab_width_spec() == tab_width,
            terminal.presentation_spec() == self.presentation_spec(),
    {
        Terminal { tab_width, ..self }
    }

    /// The style `role` is written in.
    fn style_of(&self, role: Role) -> (style: Style)
        ensures
            style == self.role_style(role),
    {
        let asked = self.palette.style(role);
        match self.capability {
            ColorCapability::NoColor => Style::plain(),
            ColorCapability::Ansi16 => asked.to_ansi16(),
            ColorCapability::Ansi256 => asked.to_ansi256(),
            ColorCapability::TrueColor => asked,
        }
    }

    /// The wall between the line numbers and the text.
    fn bar_text(&self) -> (text: &'static str)
        ensures
            text@ == self.bar(),
    {
        match self.presentation {
            Presentation::Rustc => "|",
            _ => "\u{2502}",
        }
    }

    /// How far a row's fields stand in from the left edge, past the gutter.
    fn indent_exec(&self) -> (indent: u64)
        ensures
            indent == self.indent(),
    {
        match self.presentation {
            Presentation::Ariadne => 1,
            Presentation::Miette => 1,
            _ => 0,
        }
    }

    /// What stands in the wall's column of a row that says something about the line above it.
    fn post_text(&self) -> (text: &'static str)
        ensures
            text@ == self.post(),
    {
        match self.presentation {
            Presentation::Miette => "\u{b7}",
            _ => self.bar_text(),
        }
    }

    /// A bracket's column with nothing in it, and what parts it from the text.
    fn blank_slot_text(&self) -> (text: &'static str)
        ensures
            text@ == self.blank_slot(),
    {
        match self.presentation {
            Presentation::Ariadne => "    ",
            _ => "  ",
        }
    }

    /// What a bracket runs down.
    fn runs_text(&self, primary: bool) -> (text: &'static str)
        ensures
            text@ == self.runs_glyph(primary),
    {
        match self.presentation {
            Presentation::Miette => if primary {
                "\u{2503}"
            } else {
                "\u{2502}"
            },
            _ => self.bar_text(),
        }
    }

    /// Writes `text` in the style of `role`.
    #[verifier::spinoff_prover]
    #[verifier::rlimit(60)]
    fn styled_str(&self, out: &mut String, role: Role, text: &str)
        ensures
            final(out)@ == old(out)@ + self.styled(role, text@),
    {
        let style = self.style_of(role);
        open_style(out, style);
        push_chars(out, text);
        close_style(out, style);
    }

    /// Writes a caller's text, shown, in the style of `role`.
    #[verifier::spinoff_prover]
    #[verifier::rlimit(60)]
    fn styled_shown(&self, out: &mut String, role: Role, text: &str)
        ensures
            final(out)@ == old(out)@ + self.styled(role, shown_text(text@)),
    {
        let style = self.style_of(role);
        open_style(out, style);
        shown(out, text);
        close_style(out, style);
    }

    /// Writes the line-number field of a row.
    #[verifier::spinoff_prover]
    #[verifier::rlimit(60)]
    fn number_field_exec(&self, out: &mut String, gutter: u64, number: u64)
        requires
            gutter <= 1 + u64::MAX / 10,
        ensures
            final(out)@ == old(out)@ + self.number_field(gutter as nat, number as nat),
    {
        let mut digits = String::new();
        push_decimal(&mut digits, number);
        let count = digits.as_str().unicode_len() as u64;
        proof {
            assert(digits@ =~= decimal(number as nat));
        }
        let reach = gutter + self.indent_exec();
        pad(out, if reach > count { reach - count } else { 0 });
        self.styled_str(out, Role::LineNumber, digits.as_str());
    }

    /// Writes what stands before a row of markers.
    #[verifier::spinoff_prover]
    #[verifier::rlimit(60)]
    fn annotation_exec(&self, out: &mut String, gutter: u64)
        requires
            gutter <= 1 + u64::MAX / 10,
        ensures
            final(out)@ == old(out)@ + self.annotation(gutter as nat),
    {
        pad(out, gutter + 1 + self.indent_exec());
        self.styled_str(out, Role::Gutter, self.post_text());
        push_chars(out, " ");
    }

    /// Writes the bar that opens and closes a block.
    #[verifier::spinoff_prover]
    #[verifier::rlimit(60)]
    fn bar_row_exec(&self, out: &mut String, gutter: u64)
        requires
            gutter <= 1 + u64::MAX / 10,
        ensures
            final(out)@ == old(out)@ + self.bar_row(gutter as nat),
    {
        pad(out, gutter + 1 + self.indent_exec());
        self.styled_str(out, Role::Gutter, self.bar_text());
        push_chars(out, "\n");
    }

    /// Writes the source row for `line`.
    #[verifier::spinoff_prover]
    #[verifier::rlimit(60)]
    fn source_row_exec(&self, out: &mut String, gutter: u64, line: Line, Ghost(bytes): Ghost<Seq<u8>>)
        requires
            line.is_line_of(bytes),
            gutter <= 1 + u64::MAX / 10,
        ensures
            final(out)@ == old(out)@ + self.source_row(gutter as nat, bytes, line.start_spec() as int),
    {
        self.number_field_exec(out, gutter, line.number());
        push_chars(out, " ");
        self.styled_str(out, Role::Gutter, self.bar_text());
        push_chars(out, " ");
        let style = self.style_of(Role::SourceText);
        open_style(out, style);
        let cells = LineCells::new(line, self.tab_width);
        proof {
            line.lemma_text_is_its_bytes();
        }
        cells.write_expanded_within(out, Terminal::<P>::max_rendered_width());
        close_style(out, style);
        push_chars(out, "\n");
    }

    /// Writes what stands in a bracket's column on a row, and the blank after it.
    #[verifier::spinoff_prover]
    #[verifier::rlimit(60)]
    fn slot_exec(&self, out: &mut String, kind: Slot, primary: bool)
        ensures
            final(out)@ == old(out)@ + self.slot_of(kind, primary),
    {
        let role = if primary {
            Role::PrimaryLabel
        } else {
            Role::SecondaryLabel
        };
        match kind {
            Slot::Blank => {
                push_chars(out, self.blank_slot_text());
            },
            Slot::Running => {
                self.styled_str(out, role, self.runs_text(primary));
                push_chars(out, match self.presentation {
                    Presentation::Ariadne => "   ",
                    _ => " ",
                });
            },
            Slot::Opening => {
                match self.presentation {
                    Presentation::Ariadne => {
                        self.styled_str(out, role, "\u{256d}");
                        self.styled_str(out, role, "\u{2500}\u{25b6}");
                    },
                    Presentation::Miette => {
                        self.styled_str(out, role, if primary { "\u{250f}" } else { "\u{256d}" });
                    },
                    Presentation::Rustc => {
                        self.styled_str(out, role, "/");
                    },
                    Presentation::Codespan => {
                        self.styled_str(out, role, "\u{256d}");
                    },
                }
                push_chars(out, " ");
            },
            Slot::Closing => {
                match self.presentation {
                    Presentation::Ariadne => {
                        self.styled_str(out, role, "\u{251c}");
                        self.styled_str(out, role, "\u{2500}\u{25b6}");
                    },
                    Presentation::Miette => {
                        self.styled_str(out, role, if primary { "\u{2523}" } else { "\u{251c}" });
                    },
                    _ => {
                        self.styled_str(out, role, self.runs_text(primary));
                    },
                }
                push_chars(out, " ");
            },
        }
    }

    /// Writes the source row for a line of a bracketed span.
    #[verifier::spinoff_prover]
    #[verifier::rlimit(60)]
    fn bracketed_row_exec(
        &self,
        out: &mut String,
        gutter: u64,
        line: Line,
        kind: Slot,
        primary: bool,
        Ghost(bytes): Ghost<Seq<u8>>,
    )
        requires
            line.is_line_of(bytes),
            gutter <= 1 + u64::MAX / 10,
        ensures
            final(out)@ == old(out)@ + self.bracketed_row(
                gutter as nat,
                bytes,
                line.start_spec() as int,
                self.slot_of(kind, primary),
            ),
    {
        self.number_field_exec(out, gutter, line.number());
        push_chars(out, " ");
        self.styled_str(out, Role::Gutter, self.bar_text());
        push_chars(out, " ");
        self.slot_exec(out, kind, primary);
        let style = self.style_of(Role::SourceText);
        open_style(out, style);
        let cells = LineCells::new(line, self.tab_width);
        proof {
            line.lemma_text_is_its_bytes();
        }
        cells.write_expanded_within(out, Terminal::<P>::max_rendered_width());
        close_style(out, style);
        push_chars(out, "\n");
    }

    /// Writes the row standing for lines left out inside a bracket.
    #[verifier::spinoff_prover]
    #[verifier::rlimit(60)]
    fn running_gap_row_exec(&self, out: &mut String, gutter: u64, primary: bool)
        requires
            gutter <= 1 + u64::MAX / 10,
        ensures
            final(out)@ == old(out)@ + self.running_gap_row(gutter as nat, primary),
    {
        let role = if primary {
            Role::PrimaryLabel
        } else {
            Role::SecondaryLabel
        };
        self.gap_head_exec(out, gutter);
        let glyph = match self.presentation {
            Presentation::Ariadne => "\u{2506}",
            _ => self.runs_text(primary),
        };
        self.styled_str(out, role, glyph);
        push_chars(out, "\n");
    }

    /// Writes what a row standing for lines left out begins with.
    #[verifier::spinoff_prover]
    #[verifier::rlimit(60)]
    fn gap_head_exec(&self, out: &mut String, gutter: u64)
        requires
            gutter <= 1 + u64::MAX / 10,
        ensures
            final(out)@ == old(out)@ + self.gap_head(gutter as nat),
    {
        match self.presentation {
            Presentation::Rustc => {
                self.styled_str(out, Role::LineNumber, "...");
                pad(out, gutter);
            },
            Presentation::Codespan => {
                pad(out, gutter);
                push_char(out, ' ');
                proof {
                    assert(spaces(gutter as int).push(' ') =~= spaces(gutter + 1int));
                }
                self.styled_str(out, Role::Gutter, "\u{b7}");
                push_chars(out, " ");
            },
            Presentation::Ariadne => {
                pad(out, gutter + 2);
                self.styled_str(out, Role::Gutter, "\u{2506}");
                push_chars(out, " ");
            },
            Presentation::Miette => {
                pad(out, gutter + 2);
                self.styled_str(out, Role::LineNumber, "\u{22ee}");
                push_chars(out, " ");
            },
        }
    }

    /// The glyphs of a corner: where it bends, what it runs along, and what it ends in.
    fn corner_glyphs(&self, primary: bool, closing: bool) -> (glyphs: (&'static str, char, char))
        ensures
            glyphs.0@ == self.bend(closing),
            glyphs.1 == self.rule(),
            glyphs.2 == self.tip(primary),
    {
        match self.presentation {
            Presentation::Rustc => (
                if closing {
                    "|"
                } else {
                    " "
                },
                '_',
                if primary {
                    '^'
                } else {
                    '-'
                },
            ),
            _ => (
                if closing {
                    "\u{2570}"
                } else {
                    "\u{256d}"
                },
                '\u{2500}',
                if primary {
                    '^'
                } else {
                    '\''
                },
            ),
        }
    }

    /// Writes the run of a corner: its bend, its rule to the display column `column`, and its tip.
    #[verifier::spinoff_prover]
    #[verifier::rlimit(60)]
    fn corner_run_exec(&self, out: &mut String, column: u64, primary: bool, closing: bool)
        ensures
            final(out)@ == old(out)@ + self.styled(
                label_role(primary),
                self.bend(closing) + repeated(self.rule(), column as int) + seq![self.tip(primary)],
            ),
    {
        let role = if primary {
            Role::PrimaryLabel
        } else {
            Role::SecondaryLabel
        };
        let style = self.style_of(role);
        let (bend, rule, tip) = self.corner_glyphs(primary, closing);
        open_style(out, style);
        let ghost before = out@;
        push_chars(out, bend);
        repeat(out, rule, column);
        push_char(out, tip);
        proof {
            assert(out@ =~= before + (self.bend(closing) + repeated(self.rule(), column as int)
                + seq![self.tip(primary)]));
        }
        close_style(out, style);
    }

    /// Writes a corner of a bracket, to the display column `column`.
    #[verifier::spinoff_prover]
    #[verifier::rlimit(60)]
    fn corner_exec(
        &self,
        out: &mut String,
        gutter: u64,
        column: u64,
        primary: bool,
        closing: bool,
        text: Option<&str>,
    )
        requires
            gutter <= 1 + u64::MAX / 10,
        ensures
            final(out)@ == old(out)@ + self.corner_row(
                gutter as nat,
                column as int,
                primary,
                closing,
                match text {
                    Some(phrase) => Some(phrase@),
                    None => None,
                },
            ),
    {
        self.annotation_exec(out, gutter);
        self.corner_run_exec(out, column, primary, closing);
        self.label_part_exec(out, primary, text);
        push_chars(out, "\n");
    }

    /// Writes the rows that close a bracket under the line it closes on.
    #[verifier::spinoff_prover]
    #[verifier::rlimit(60)]
    fn closing_rows_exec(
        &self,
        out: &mut String,
        gutter: u64,
        column: u64,
        primary: bool,
        text: Option<&str>,
    )
        requires
            gutter <= 1 + u64::MAX / 10,
        ensures
            final(out)@ == old(out)@ + self.closing_rows(
                gutter as nat,
                column as int,
                primary,
                match text {
                    Some(phrase) => Some(phrase@),
                    None => None,
                },
            ),
    {
        match self.presentation {
            Presentation::Ariadne => {
                let role = if primary {
                    Role::PrimaryLabel
                } else {
                    Role::SecondaryLabel
                };
                self.annotation_exec(out, gutter);
                self.styled_str(out, role, self.bar_text());
                push_chars(out, "\n");
                self.annotation_exec(out, gutter);
                self.styled_str(out, role, "\u{2570}\u{2500}\u{2500}\u{2500}\u{2500}");
                self.label_part_exec(out, primary, text);
                push_chars(out, "\n");
            },
            Presentation::Miette => {
                let role = if primary {
                    Role::PrimaryLabel
                } else {
                    Role::SecondaryLabel
                };
                self.annotation_exec(out, gutter);
                self.styled_str(
                    out,
                    role,
                    if primary {
                        "\u{2517}\u{2501}\u{2501}\u{2501}\u{2501}"
                    } else {
                        "\u{2570}\u{2500}\u{2500}\u{2500}\u{2500}"
                    },
                );
                self.label_part_exec(out, primary, text);
                push_chars(out, "\n");
            },
            _ => {
                self.corner_exec(out, gutter, column, primary, true, text);
            },
        }
    }

    /// The display columns the covered part of `line` is marked at.
    fn marker_span(&self, line: RegionLine, Ghost(bytes): Ghost<Seq<u8>>) -> (columns: (u64, u64))
        requires
            line.line_spec().is_line_of(bytes),
        ensures
            (columns.0 as int, columns.1 as int) == marker_columns(
                bytes,
                line.line_spec().start_spec() as int,
                measured_tab(self.tab_width_spec()),
                line.covered_spec().start_spec() as int,
                line.covered_spec().end_spec() as int,
            ),
            columns.0 <= columns.1,
    {
        let cells = LineCells::new(line.line(), self.tab_width);
        proof {
            line.line_spec().lemma_text_is_its_bytes();
        }
        let columns = cells.columns_for(line.covered());
        let end = if columns.end > columns.start {
            columns.end
        } else {
            columns.start.saturating_add(1)
        };
        window(columns.start, end)
    }

    /// Writes the row of markers under `line`, over the part of it that is covered.
    #[verifier::spinoff_prover]
    #[verifier::rlimit(60)]
    fn marker_row_exec(
        &self,
        out: &mut String,
        gutter: u64,
        line: RegionLine,
        primary: bool,
        text: Option<&str>,
        Ghost(bytes): Ghost<Seq<u8>>,
    )
        requires
            gutter <= 1 + u64::MAX / 10,
            line.line_spec().is_line_of(bytes),
        ensures
            final(out)@ == old(out)@ + self.marker_row(
                gutter as nat,
                bytes,
                line.line_spec().start_spec() as int,
                line.covered_spec().start_spec() as int,
                line.covered_spec().end_spec() as int,
                primary,
                match text {
                    Some(phrase) => Some(phrase@),
                    None => None,
                },
            ),
    {
        let (start, end) = self.marker_span(line, Ghost(bytes));
        match self.presentation {
            Presentation::Ariadne | Presentation::Miette => {
                self.hanging_rows_exec(out, gutter, start, end, primary, text, false);
            },
            _ => {
                self.annotation_exec(out, gutter);
                self.marks_run_exec(out, start, end, primary);
                self.label_part_exec(out, primary, text);
                push_chars(out, "\n");
            },
        }
    }

    /// Writes the row of markers under a line of an input with a bracket.
    #[verifier::spinoff_prover]
    #[verifier::rlimit(60)]
    fn margined_marker_row_exec(
        &self,
        out: &mut String,
        gutter: u64,
        line: RegionLine,
        primary: bool,
        text: Option<&str>,
        Ghost(bytes): Ghost<Seq<u8>>,
    )
        requires
            gutter <= 1 + u64::MAX / 10,
            line.line_spec().is_line_of(bytes),
        ensures
            final(out)@ == old(out)@ + self.margined_marker_row(
                gutter as nat,
                bytes,
                line.line_spec().start_spec() as int,
                line.covered_spec().start_spec() as int,
                line.covered_spec().end_spec() as int,
                primary,
                match text {
                    Some(phrase) => Some(phrase@),
                    None => None,
                },
            ),
    {
        let (start, end) = self.marker_span(line, Ghost(bytes));
        match self.presentation {
            Presentation::Ariadne | Presentation::Miette => {
                self.hanging_rows_exec(out, gutter, start, end, primary, text, true);
            },
            _ => {
                self.annotation_exec(out, gutter);
                push_chars(out, "  ");
                self.marks_run_exec(out, start, end, primary);
                self.label_part_exec(out, primary, text);
                push_chars(out, "\n");
            },
        }
    }

    /// Writes a rule `width` cells long, with a tee in its middle cell when `teed`.
    #[verifier::spinoff_prover]
    #[verifier::rlimit(60)]
    fn teed_rule_exec(&self, out: &mut String, width: u64, teed: bool, heavy: bool)
        ensures
            final(out)@ == old(out)@ + teed_rule(width as int, teed, heavy),
    {
        let ghost before = out@;
        let mut written: u64 = 0;
        while written < width
            invariant
                written <= width,
                out@ == before + teed_rule(width as int, teed, heavy).take(written as int),
            decreases width - written,
        {
            let tee = teed && written == width / 2;
            let cell = if tee {
                if heavy {
                    '\u{2533}'
                } else {
                    '\u{252c}'
                }
            } else if heavy {
                '\u{2501}'
            } else {
                '\u{2500}'
            };
            push_char(out, cell);
            proof {
                assert(teed_rule(width as int, teed, heavy).take(written + 1) =~= teed_rule(
                    width as int,
                    teed,
                    heavy,
                ).take(written as int).push(rule_cell(tee, heavy)));
            }
            written += 1;
        }
        proof {
            assert(teed_rule(width as int, teed, heavy).take(width as int) =~= teed_rule(width as int, teed, heavy));
        }
    }

    /// Writes the rule under a span on one line in the shape `ariadne` draws.
    #[verifier::spinoff_prover]
    #[verifier::rlimit(60)]
    fn hanging_rule_exec(
        &self,
        out: &mut String,
        gutter: u64,
        start: u64,
        end: u64,
        primary: bool,
        teed: bool,
        margined: bool,
    )
        requires
            gutter <= 1 + u64::MAX / 10,
            start <= end,
        ensures
            final(out)@ == old(out)@ + (self.annotation(gutter as nat) + (if margined {
                self.blank_slot()
            } else {
                Seq::<char>::empty()
            }) + spaces(start - 1) + self.styled(
                label_role(primary),
                teed_rule(end - start, teed, self.heavy(primary)),
            ) + "\n"@),
    {
        let ghost begin = out@;
        let role = if primary {
            Role::PrimaryLabel
        } else {
            Role::SecondaryLabel
        };
        self.annotation_exec(out, gutter);
        let ghost a = out@;
        if margined {
            push_chars(out, self.blank_slot_text());
        }
        let ghost m = out@;
        pad(out, if start >= 1 { start - 1 } else { 0 });
        let ghost p = out@;
        let style = self.style_of(role);
        open_style(out, style);
        let heavy = match self.presentation {
            Presentation::Miette => primary,
            _ => false,
        };
        self.teed_rule_exec(out, end - start, teed, heavy);
        close_style(out, style);
        let ghost r = out@;
        push_chars(out, "\n");
        proof {
            assert(a == begin + self.annotation(gutter as nat));
            assert(m =~= a + (if margined {
                self.blank_slot()
            } else {
                Seq::<char>::empty()
            }));
            assert(p =~= m + spaces(start - 1));
            assert(r == p + self.styled(
                label_role(primary),
                teed_rule(end - start, teed, self.heavy(primary)),
            ));
        }
    }

    /// Writes the phrase hanging from a rule's tee in the shape `ariadne` draws.
    #[verifier::spinoff_prover]
    #[verifier::rlimit(60)]
    fn hanging_phrase_exec(
        &self,
        out: &mut String,
        gutter: u64,
        start: u64,
        end: u64,
        primary: bool,
        phrase: &str,
        margined: bool,
    )
        requires
            gutter <= 1 + u64::MAX / 10,
            start <= end,
        ensures
            final(out)@ == old(out)@ + (self.annotation(gutter as nat) + (if margined {
                self.blank_slot()
            } else {
                Seq::<char>::empty()
            }) + spaces(start - 1 + (end - start) / 2) + self.styled(
                label_role(primary),
                self.hang(primary),
            ) + " "@ + self.styled(label_role(primary), shown_text(phrase@)) + "\n"@),
    {
        let ghost begin = out@;
        let role = if primary {
            Role::PrimaryLabel
        } else {
            Role::SecondaryLabel
        };
        let width = end - start;
        self.annotation_exec(out, gutter);
        let ghost a = out@;
        if margined {
            push_chars(out, self.blank_slot_text());
        }
        let ghost m = out@;
        let lead: u64 = if start >= 1 {
            start - 1 + width / 2
        } else if width / 2 >= 1 {
            width / 2 - 1
        } else {
            0
        };
        pad(out, lead);
        let ghost p = out@;
        let hang = match self.presentation {
            Presentation::Miette => if primary {
                "\u{2517}\u{2501}\u{2501}"
            } else {
                "\u{2570}\u{2500}\u{2500}"
            },
            _ => "\u{2570}\u{2500}\u{2500}",
        };
        self.styled_str(out, role, hang);
        push_chars(out, " ");
        self.styled_shown(out, role, phrase);
        push_chars(out, "\n");
        proof {
            assert(m =~= a + (if margined {
                self.blank_slot()
            } else {
                Seq::<char>::empty()
            }));
            assert(p =~= m + spaces(start - 1 + (end - start) / 2));
        }
    }

    /// Writes the rows under a span on one line in the shape `ariadne` draws.
    #[verifier::spinoff_prover]
    #[verifier::rlimit(60)]
    fn hanging_rows_exec(
        &self,
        out: &mut String,
        gutter: u64,
        start: u64,
        end: u64,
        primary: bool,
        text: Option<&str>,
        margined: bool,
    )
        requires
            gutter <= 1 + u64::MAX / 10,
            start <= end,
        ensures
            final(out)@ == old(out)@ + self.hanging_rows(
                gutter as nat,
                (start as int, end as int),
                primary,
                match text {
                    Some(phrase) => Some(phrase@),
                    None => None,
                },
                if margined {
                    self.blank_slot()
                } else {
                    Seq::empty()
                },
            ),
    {
        let ghost begin = out@;
        self.hanging_rule_exec(out, gutter, start, end, primary, text.is_some(), margined);
        let ghost ruled = out@;
        match text {
            Some(phrase) => {
                self.hanging_phrase_exec(out, gutter, start, end, primary, phrase, margined);
            },
            None => {},
        }
        proof {
            let margin = if margined {
                self.blank_slot()
            } else {
                Seq::<char>::empty()
            };
            let text_view = match text {
                Some(phrase) => Some(phrase@),
                None => None,
            };
            assert(out@ =~= begin + self.hanging_rows(
                gutter as nat,
                (start as int, end as int),
                primary,
                text_view,
                margin,
            ));
        }
    }

    /// Writes the markers over `start..end`, after the blanks that reach them.
    #[verifier::spinoff_prover]
    #[verifier::rlimit(60)]
    fn marks_run_exec(&self, out: &mut String, start: u64, end: u64, primary: bool)
        requires
            start <= end,
        ensures
            final(out)@ == old(out)@ + self.marks_run((start as int, end as int), primary),
    {
        pad(out, start.saturating_sub(1));
        let role = if primary {
            Role::PrimaryLabel
        } else {
            Role::SecondaryLabel
        };
        let style = self.style_of(role);
        open_style(out, style);
        repeat(out, if primary { '^' } else { '-' }, end - start);
        close_style(out, style);
    }

    /// Writes the phrase after the markers, when there is one.
    #[verifier::spinoff_prover]
    #[verifier::rlimit(60)]
    fn label_part_exec(&self, out: &mut String, primary: bool, text: Option<&str>)
        ensures
            final(out)@ == old(out)@ + self.label_part(
                primary,
                match text {
                    Some(phrase) => Some(phrase@),
                    None => None,
                },
            ),
    {
        match text {
            Some(phrase) => {
                push_chars(out, " ");
                let role = if primary {
                    Role::PrimaryLabel
                } else {
                    Role::SecondaryLabel
                };
                self.styled_shown(out, role, phrase);
            },
            None => {},
        }
    }
}

impl<P: Palette> Terminal<P> {
    /// The source rows drawn after the line beginning at `line_start`, of a span that closes on
    /// line `last`: walked a line at a time, with `previous` the last anchor of the input walked
    /// past, `next` the anchor after it, and `gap` whether a gap row already stands for lines left
    /// out since `previous`. A line is drawn when it is the next anchor or when the shared elision
    /// rule shows it after `previous`; the first line left out is drawn as a gap row.
    pub closed spec fn rows_after(
        self,
        gutter: nat,
        primary: bool,
        diagnostic: Diagnostic,
        supplied: int,
        input: int,
        bytes: Seq<u8>,
        line_start: int,
        last: int,
        previous: int,
        next: int,
        gap: bool,
    ) -> Seq<char>
        decreases bytes.len() - line_start,
    {
        let current = line_number_at(bytes, line_start) as int;
        if current < last && has_next_line(bytes, line_start) {
            let following = line_after_start(bytes, line_start);
            let number = current + 1;
            if number == next {
                self.bracketed_row(gutter, bytes, following, self.row_slot(number, last, primary)) + self.rows_after(
                    gutter,
                    primary,
                    diagnostic,
                    supplied,
                    input,
                    bytes,
                    following,
                    last,
                    next,
                    next_anchor(diagnostic, supplied, input, bytes, next, last),
                    false,
                )
            } else if number <= shown_between_spec(
                previous,
                next,
                opens_on(diagnostic, supplied, input, bytes, previous),
            ) {
                self.bracketed_row(gutter, bytes, following, self.row_slot(number, last, primary)) + self.rows_after(
                    gutter,
                    primary,
                    diagnostic,
                    supplied,
                    input,
                    bytes,
                    following,
                    last,
                    previous,
                    next,
                    false,
                )
            } else if !gap {
                self.running_gap_row(gutter, primary) + self.rows_after(
                    gutter,
                    primary,
                    diagnostic,
                    supplied,
                    input,
                    bytes,
                    following,
                    last,
                    previous,
                    next,
                    true,
                )
            } else {
                self.rows_after(
                    gutter,
                    primary,
                    diagnostic,
                    supplied,
                    input,
                    bytes,
                    following,
                    last,
                    previous,
                    next,
                    true,
                )
            }
        } else {
            Seq::empty()
        }
    }

    /// One position of the input `input` of `diagnostic`, in `bytes`. A span on one line is that
    /// line and the markers under it, with the phrase. A span reaching another line is bracketed:
    /// the line it opens on, a corner from the bracket's column to the cell it opens at, the rows
    /// after it up to the one it closes on with the bracket running down beside them, and a
    /// corner to the cell it closes at, which carries the phrase.
    #[verifier::opaque]
    pub closed spec fn mark_spec(
        self,
        gutter: nat,
        diagnostic: Diagnostic,
        supplied: int,
        input: int,
        bytes: Seq<u8>,
        span: Span,
        text: Option<Seq<char>>,
        primary: bool,
        bracketed: bool,
    ) -> Seq<char> {
        let start = resolved_start(bytes, span);
        let end = resolved_end(bytes, span);
        let first_start = line_start_of(bytes, start);
        let first_end = line_end(bytes, first_start);
        let opening = self.source_row(gutter, bytes, first_start);
        if end > first_end + break_len(bytes, first_end) {
            self.bracket_spec(gutter, primary, diagnostic, supplied, input, bytes, start, end, text)
        } else if bracketed {
            self.bracketed_row(gutter, bytes, first_start, self.slot(false, primary))
                + self.margined_marker_row(
                gutter,
                bytes,
                first_start,
                clipped_from(first_start, first_end, start),
                clipped_to(first_start, first_end, start, end),
                primary,
                text,
            )
        } else {
            opening + self.marker_row(
                gutter,
                bytes,
                first_start,
                clipped_from(first_start, first_end, start),
                clipped_to(first_start, first_end, start, end),
                primary,
                text,
            )
        }
    }

    /// The row a bracketed span opens on: in the margin when it opens at the first non-blank of
    /// its line, and otherwise with a corner under it to the cell it opens at.
    #[verifier::opaque]
    pub(crate) closed spec fn bracket_opening(
        self,
        gutter: nat,
        bytes: Seq<u8>,
        start: int,
        end: int,
        primary: bool,
    ) -> Seq<char> {
        let first_start = line_start_of(bytes, start);
        let first_end = line_end(bytes, first_start);
        if self.opens_in_margin(bytes, start) {
            self.bracketed_row(gutter, bytes, first_start, self.opening_slot(primary))
        } else {
            self.bracketed_row(gutter, bytes, first_start, self.slot(false, primary))
                + self.corner_row(
                gutter,
                marker_columns(
                    bytes,
                    first_start,
                    measured_tab(self.tab_width_spec()),
                    clipped_from(first_start, first_end, start),
                    clipped_to(first_start, first_end, start, end),
                ).0,
                primary,
                false,
                None,
            )
        }
    }

    /// A span of `bytes` from `start` to `end` that reaches another line, bracketed: the line it
    /// opens on, a corner from the bracket's column to the cell it opens at, the rows after it up
    /// to the one it closes on with the bracket running down beside them, and a corner to the cell
    /// it closes at, which carries the phrase. A span that opens at the first non-blank of its line
    /// opens in the margin instead, on the row itself, with no corner under it.
    #[verifier::opaque]
    pub(crate) closed spec fn bracket_spec(
        self,
        gutter: nat,
        primary: bool,
        diagnostic: Diagnostic,
        supplied: int,
        input: int,
        bytes: Seq<u8>,
        start: int,
        end: int,
        text: Option<Seq<char>>,
    ) -> Seq<char> {
        let first_start = line_start_of(bytes, start);
        let last_start = line_start_of(bytes, drawn_end(bytes, start, end));
        let last_end = line_end(bytes, last_start);
        let first = line_number_at(bytes, first_start) as int;
        let last = line_number_at(bytes, last_start) as int;
        let tab = measured_tab(self.tab_width_spec());
        let closes_at = marker_columns(
            bytes,
            last_start,
            tab,
            clipped_from(last_start, last_end, start),
            clipped_to(last_start, last_end, start, end),
        );
        self.bracket_opening(gutter, bytes, start, end, primary) + self.rows_after(
            gutter,
            primary,
            diagnostic,
            supplied,
            input,
            bytes,
            first_start,
            last,
            first,
            next_anchor(diagnostic, supplied, input, bytes, first, last),
            false,
        ) + self.closing_rows(gutter, closes_at.1 - 1, primary, text)
    }

    /// The marks of one input after `after`, in source order.
    pub(crate) closed spec fn marks_from(
        self,
        gutter: nat,
        diagnostic: Diagnostic,
        supplied: int,
        input: int,
        bytes: Seq<u8>,
        after: Option<(int, int)>,
        bracketed: bool,
    ) -> Seq<char>
        decreases pending_count(diagnostic, supplied, input, after, 0),
    {
        match earliest_from(diagnostic, supplied, input, after, 0, None) {
            None => Seq::empty(),
            Some(position) => if pending_count(diagnostic, supplied, input, key_of(position), 0)
                < pending_count(diagnostic, supplied, input, after, 0) {
                self.mark_spec(
                    gutter,
                    diagnostic,
                    supplied,
                    input,
                    bytes,
                    position.span,
                    match position.text {
                        Some(phrase) => Some(phrase@),
                        None => None,
                    },
                    position.primary,
                    bracketed,
                ) + self.marks_from(
                    gutter,
                    diagnostic,
                    supplied,
                    input,
                    bytes,
                    key_of(position),
                    bracketed,
                )
            } else {
                Seq::empty()
            },
        }
    }

    /// Everything drawn for the input the position `first` is the first of.
    #[verifier::opaque]
    pub(crate) closed spec fn block_spec(
        self,
        gutter: nat,
        diagnostic: Diagnostic,
        inputs: Seq<Input>,
        first: Drawable,
        opening: bool,
    ) -> Seq<char> {
        let input = inputs[first.input as int];
        let bytes = input.source_spec().bytes_spec();
        let start = resolved_start(bytes, first.span);
        self.origin_spec(
            gutter,
            match input.origin_spec() {
                Some(name) => Some(name@),
                None => None,
            },
            line_number_at(bytes, start),
            crate::source::model::column_at(bytes, start),
            opening,
        ) + self.marks_from(
            gutter,
            diagnostic,
            inputs.len() as int,
            first.input as int,
            bytes,
            None,
            bracketed_from(diagnostic, inputs.len() as int, first.input as int, bytes, 0),
        ) + self.block_close(gutter)
    }

    /// The blocks from the position at `at` on, one for each input, in the order the inputs
    /// first appear; `drawn` is whether a block was drawn before them.
    pub closed spec fn blocks_from(
        self,
        gutter: nat,
        diagnostic: Diagnostic,
        inputs: Seq<Input>,
        at: int,
        drawn: bool,
    ) -> Seq<char>
        decreases diagnostic.labels_spec().len() + 1 - at,
    {
        if at < 0 || at > diagnostic.labels_spec().len() {
            Seq::empty()
        } else {
            let here = first_in_its_input(diagnostic, at, inputs.len() as int);
            (if here {
                self.block_spec(
                    gutter,
                    diagnostic,
                    inputs,
                    drawable_at(diagnostic, at, inputs.len() as int)->0,
                    !drawn,
                )
            } else {
                Seq::empty()
            }) + self.blocks_from(gutter, diagnostic, inputs, at + 1, drawn || here)
        }
    }

    /// Everything written for `diagnostic` against `inputs`: the header, one block per input the
    /// diagnostic draws in (in the order the inputs first appear among the primary and the
    /// labels), the help, and what ends the render. The gutter is as wide as the widest last line
    /// of any position.
    pub open spec fn document_spec(self, diagnostic: Diagnostic, inputs: Seq<Input>) -> Seq<char> {
        let gutter = gutter_of(diagnostic, inputs);
        let drawn = drew_from(diagnostic, inputs.len() as int, 0, false);
        self.header_spec(diagnostic) + self.blocks_from(gutter, diagnostic, inputs, 0, false)
            + match diagnostic.help_spec() {
            Some(help) => self.help_spec(gutter, help@, drawn),
            None => Seq::empty(),
        } + self.close_render(gutter, drawn)
    }
}

/// Whether a block is drawn from the position at `at` on, or `drawn` already.
pub closed spec fn drew_from(diagnostic: Diagnostic, supplied: int, at: int, drawn: bool) -> bool
    decreases diagnostic.labels_spec().len() + 1 - at,
{
    if at < 0 || at > diagnostic.labels_spec().len() {
        drawn
    } else {
        drew_from(diagnostic, supplied, at + 1, drawn || first_in_its_input(diagnostic, at, supplied))
    }
}

/// Whether a position from `at` on in the input `input` of `diagnostic`, in `bytes`, reaches
/// another line, so that the input's rows carry a bracket's column.
pub(crate) closed spec fn bracketed_from(
    diagnostic: Diagnostic,
    supplied: int,
    input: int,
    bytes: Seq<u8>,
    at: int,
) -> bool
    decreases diagnostic.labels_spec().len() + 1 - at,
{
    if at < 0 || at > diagnostic.labels_spec().len() {
        false
    } else {
        (match drawable_at(diagnostic, at, supplied) {
            Some(position) => position.input == input && last_line_of(bytes, position.span)
                > first_line_of(bytes, position.span),
            None => false,
        }) || bracketed_from(diagnostic, supplied, input, bytes, at + 1)
    }
}

/// Whether the position at `at` of `diagnostic` is in the input `input` and reaches another line.
fn reaches_another_line_at(
    diagnostic: &Diagnostic,
    at: usize,
    supplied: usize,
    input: usize,
    source: Source,
) -> (reaches: bool)
    requires
        at <= diagnostic.labels_spec().len(),
    ensures
        reaches == match drawable_at(*diagnostic, at as int, supplied as int) {
            Some(position) => position.input == input && last_line_of(
                source.bytes_spec(),
                position.span,
            ) > first_line_of(source.bytes_spec(), position.span),
            None => false,
        },
{
    match drawable(diagnostic, at, supplied) {
        Some(position) => {
            if position.input == input {
                let (first, last) = span_lines(source, position.span);
                last > first
            } else {
                false
            }
        },
        None => false,
    }
}

/// Whether a position of the input `input` of `diagnostic` reaches another line.
fn bracketed_exec(diagnostic: &Diagnostic, supplied: usize, input: usize, source: Source) -> (found: bool)
    ensures
        found == bracketed_from(*diagnostic, supplied as int, input as int, source.bytes_spec(), 0),
{
    let count = diagnostic.labels().len();
    let mut at: usize = count;
    let mut found = reaches_another_line_at(diagnostic, count, supplied, input, source);
    proof {
        reveal_with_fuel(bracketed_from, 2);
    }
    while at > 0
        invariant
            at <= count,
            count == diagnostic.labels_spec().len(),
            found == bracketed_from(*diagnostic, supplied as int, input as int, source.bytes_spec(), at as int),
        decreases at,
    {
        at = at - 1;
        let here = reaches_another_line_at(diagnostic, at, supplied, input, source);
        found = here || found;
    }
    found
}

/// The widest line number among the last lines of the positions from `at` on, as digits, and at
/// least `widest`.
pub closed spec fn gutter_from(diagnostic: Diagnostic, inputs: Seq<Input>, at: int, widest: nat) -> nat
    decreases diagnostic.labels_spec().len() + 1 - at,
{
    if at < 0 || at > diagnostic.labels_spec().len() {
        widest
    } else {
        let wider = match drawable_at(diagnostic, at, inputs.len() as int) {
            Some(position) => {
                let digits = decimal(
                    last_line_of(
                        inputs[position.input as int].source_spec().bytes_spec(),
                        position.span,
                    ) as nat,
                ).len();
                if digits > widest {
                    digits
                } else {
                    widest
                }
            },
            None => widest,
        };
        gutter_from(diagnostic, inputs, at + 1, wider)
    }
}

/// How many cells the line-number field takes in a render.
pub closed spec fn gutter_of(diagnostic: Diagnostic, inputs: Seq<Input>) -> nat {
    gutter_from(diagnostic, inputs, 0, 0)
}


impl<P: Palette> Terminal<P> {
    /// Writes the source rows after the first of a span that reaches another line, and returns
    /// the line it closes on.
    #[verifier::spinoff_prover]
    #[verifier::rlimit(100)]
    fn tail<'a>(
        &self,
        out: &mut String,
        walk: &mut Walk<'a>,
        source: Source<'a>,
        gutter: u64,
        primary: bool,
        diagnostic: &Diagnostic,
        supplied: usize,
        input: usize,
        opening: &Opening<'a>,
    ) -> (closing: RegionLine<'a>)
        requires
            gutter <= 1 + u64::MAX / 10,
            old(walk).wf(),
            old(walk).source_spec() == source,
            old(walk).offset_spec() == opening.span_spec().start_spec(),
            valid_utf8(source.bytes_spec()),
            opening.span_spec().start_spec() <= opening.span_spec().end_spec() <= source.bytes_spec().len(),
            is_atom_boundary(source.bytes_spec(), opening.span_spec().start_spec() as int),
            is_atom_boundary(source.bytes_spec(), opening.span_spec().end_spec() as int),
            opening.line_spec().line_spec().is_line_of(source.bytes_spec()),
            opening.line_spec().line_spec().start_spec() == line_start_of(
                source.bytes_spec(),
                opening.span_spec().start_spec() as int,
            ),
            opening.span_spec().end_spec() > line_end(
                source.bytes_spec(),
                line_start_of(source.bytes_spec(), opening.span_spec().start_spec() as int),
            ) + break_len(
                source.bytes_spec(),
                line_end(
                    source.bytes_spec(),
                    line_start_of(source.bytes_spec(), opening.span_spec().start_spec() as int),
                ),
            ),
        ensures
            final(walk).wf(),
            final(walk).source_spec() == source,
            closing.line_spec().is_line_of(source.bytes_spec()),
            closing.line_spec().start_spec() == line_start_of(
                source.bytes_spec(),
                drawn_end(
                    source.bytes_spec(),
                    opening.span_spec().start_spec() as int,
                    opening.span_spec().end_spec() as int,
                ),
            ),
            closing.covered_spec().start_spec() == crate::source::clip_start(
                closing.line_spec(),
                opening.span_spec(),
            ),
            closing.covered_spec().end_spec() == crate::source::clip_end(
                closing.line_spec(),
                opening.span_spec(),
            ),
            final(out)@ == old(out)@ + self.rows_after(
                gutter as nat,
                primary,
                *diagnostic,
                supplied as int,
                input as int,
                source.bytes_spec(),
                line_start_of(
                    source.bytes_spec(),
                    opening.span_spec().start_spec() as int,
                ),
                line_number_at(
                    source.bytes_spec(),
                    line_start_of(
                        source.bytes_spec(),
                        drawn_end(
                            source.bytes_spec(),
                            opening.span_spec().start_spec() as int,
                            opening.span_spec().end_spec() as int,
                        ),
                    ),
                ) as int,
                line_number_at(
                    source.bytes_spec(),
                    line_start_of(
                        source.bytes_spec(),
                        opening.span_spec().start_spec() as int,
                    ),
                ) as int,
                next_anchor(
                    *diagnostic,
                    supplied as int,
                    input as int,
                    source.bytes_spec(),
                    line_number_at(
                        source.bytes_spec(),
                        line_start_of(
                            source.bytes_spec(),
                            opening.span_spec().start_spec() as int,
                        ),
                    ) as int,
                    line_number_at(
                        source.bytes_spec(),
                        line_start_of(
                            source.bytes_spec(),
                            drawn_end(
                                source.bytes_spec(),
                                opening.span_spec().start_spec() as int,
                                opening.span_spec().end_spec() as int,
                            ),
                        ),
                    ) as int,
                ),
                false,
            ),
    {
        let clamped = opening.span();
        let first_row = opening.line();
        let text = source.text();
        let ghost b = source.bytes_spec();
        let ghost s = clamped.start_spec() as int;
        let ghost e = clamped.end_spec() as int;
        let ghost ls = line_start_of(b, s);
        proof {
            lemma_closing_line_follows_opening_line(b, s, e);
            lemma_count_breaks_bound(b, s);
            lemma_line_start_of(b, s);
        }
        let closing = walk.close(opening);
        let first = first_row.line().number();
        let last = closing.line().number();
        proof {
            lemma_line_start_of(b, drawn_end(b, s, e));
            lemma_count_breaks_bound(b, drawn_end(b, s, e));
        }
        let mut previous = first;
        let mut next = next_anchor_exec(diagnostic, supplied, input, source, first, last);
        let mut opens = opens_on_exec(diagnostic, supplied, input, source, previous);
        let mut gap = false;
        let mut line = first_row.line();
        let ghost rows_start = out@;
        let ghost whole = self.rows_after(
            gutter as nat,
            primary,
            *diagnostic,
            supplied as int,
            input as int,
            b,
            ls,
            last as int,
            first as int,
            next as int,
            false,
        );
        let mut going = true;
        while going && line.number() < last
            invariant
                gutter <= 1 + u64::MAX / 10,
                line.is_line_of(b),
                valid_utf8(b),
                b == source.bytes_spec(),
                b.len() <= isize::MAX,
                last <= b.len() + 1,
                previous <= line.number_spec(),
                line.number_spec() < last ==> line.number_spec() < next <= last,
                opens == opens_on(*diagnostic, supplied as int, input as int, b, previous as int),
                rows_start + whole == out@ + self.rows_after(
                    gutter as nat,
                    primary,
                    *diagnostic,
                    supplied as int,
                    input as int,
                    b,
                    line.start_spec() as int,
                    last as int,
                    previous as int,
                    next as int,
                    gap,
                ),
                !going ==> line.break_spec() is None,
            decreases b.len() - line.start_spec() + if going { 1int } else { 0int },
        {
            proof {
                lemma_line_end(b, line.start_spec() as int);
            }
            match source.line_after(line) {
                None => {
                    going = false;
                },
                Some(following) => {
                    let number = line.number() + 1;
                    let kind = if number == last {
                        Slot::Closing
                    } else {
                        Slot::Running
                    };
                    if number == next {
                        self.bracketed_row_exec(out, gutter, following, kind, primary, Ghost(b));
                        previous = next;
                        if previous < last {
                            next = next_anchor_exec(diagnostic, supplied, input, source, previous, last);
                        } else {
                            proof {
                                lemma_next_anchor_bounds(
                                    *diagnostic,
                                    supplied as int,
                                    input as int,
                                    b,
                                    previous as int,
                                    0,
                                    last as int,
                                );
                            }
                        }
                        opens = opens_on_exec(diagnostic, supplied, input, source, previous);
                        gap = false;
                    } else if number <= shown_between(previous, next, opens) {
                        self.bracketed_row_exec(out, gutter, following, kind, primary, Ghost(b));
                        gap = false;
                    } else if !gap {
                        self.running_gap_row_exec(out, gutter, primary);
                        gap = true;
                    }
                    line = following;
                },
            }
        }
        let _ = text;
        closing
    }
}


impl<P: Palette> Terminal<P> {
    /// Writes the row a bracketed span opens on, and the corner under it when it has one.
    #[verifier::spinoff_prover]
    #[verifier::rlimit(60)]
    fn bracket_opening_exec(
        &self,
        out: &mut String,
        gutter: u64,
        primary: bool,
        opening: &Opening,
        Ghost(b): Ghost<Seq<u8>>,
    )
        requires
            gutter <= 1 + u64::MAX / 10,
            valid_utf8(b),
            opening.span_spec().start_spec() <= opening.span_spec().end_spec() <= b.len(),
            is_atom_boundary(b, opening.span_spec().start_spec() as int),
            is_atom_boundary(b, opening.span_spec().end_spec() as int),
            opening.line_spec().line_spec().is_line_of(b),
            opening.line_spec().line_spec().start_spec() == line_start_of(
                b,
                opening.span_spec().start_spec() as int,
            ),
            opening.at_spec().is_at(b, opening.span_spec().start_spec() as int),
            opening.line_spec().covered_spec().start_spec() == crate::source::clip_start(
                opening.line_spec().line_spec(),
                opening.span_spec(),
            ),
            opening.line_spec().covered_spec().end_spec() == crate::source::clip_end(
                opening.line_spec().line_spec(),
                opening.span_spec(),
            ),
        ensures
            final(out)@ == old(out)@ + self.bracket_opening(
                gutter as nat,
                b,
                opening.span_spec().start_spec() as int,
                opening.span_spec().end_spec() as int,
                primary,
            ),
    {
        let clamped = opening.span();
        let first_row = opening.line();
        let line = first_row.line();
        let before = opening.at().column() - 1;
        proof {
            reveal(Terminal::bracket_opening);
            lemma_clipped_row(b, first_row.line_spec(), clamped);
            line.lemma_text_is_its_bytes();
            lemma_line_end(b, line.start_spec() as int);
            assert(line.bytes_spec() == line_bytes(b, line.start_spec() as int));
        }
        let in_margin = match self.presentation {
            Presentation::Ariadne | Presentation::Miette => true,
            _ => is_first_nonblank(line.text(), before),
        };
        if in_margin {
            self.bracketed_row_exec(out, gutter, line, Slot::Opening, primary, Ghost(b));
        } else {
            self.bracketed_row_exec(out, gutter, line, Slot::Blank, primary, Ghost(b));
            let (opens_at, _) = self.marker_span(first_row, Ghost(b));
            self.corner_exec(out, gutter, opens_at, primary, false, None);
        }
    }

    /// Writes a span that reaches another line, bracketed.
    #[verifier::spinoff_prover]
    #[verifier::rlimit(60)]
    fn bracket_exec<'a>(
        &self,
        out: &mut String,
        walk: &mut Walk<'a>,
        source: Source<'a>,
        gutter: u64,
        primary: bool,
        diagnostic: &Diagnostic,
        supplied: usize,
        input: usize,
        opening: &Opening<'a>,
        text: Option<&str>,
    )
        requires
            old(walk).wf(),
            old(walk).source_spec() == source,
            old(walk).offset_spec() == opening.span_spec().start_spec(),
            valid_utf8(source.bytes_spec()),
            opening.span_spec().start_spec() <= opening.span_spec().end_spec() <= source.bytes_spec().len(),
            is_atom_boundary(source.bytes_spec(), opening.span_spec().start_spec() as int),
            is_atom_boundary(source.bytes_spec(), opening.span_spec().end_spec() as int),
            opening.line_spec().line_spec().is_line_of(source.bytes_spec()),
            opening.line_spec().line_spec().start_spec() == line_start_of(
                source.bytes_spec(),
                opening.span_spec().start_spec() as int,
            ),
            opening.span_spec().end_spec() > line_end(
                source.bytes_spec(),
                line_start_of(source.bytes_spec(), opening.span_spec().start_spec() as int),
            ) + break_len(
                source.bytes_spec(),
                line_end(
                    source.bytes_spec(),
                    line_start_of(source.bytes_spec(), opening.span_spec().start_spec() as int),
                ),
            ),
            gutter <= 1 + u64::MAX / 10,
            opening.at_spec().is_at(source.bytes_spec(), opening.span_spec().start_spec() as int),
            opening.line_spec().covered_spec().start_spec() == crate::source::clip_start(
                opening.line_spec().line_spec(),
                opening.span_spec(),
            ),
            opening.line_spec().covered_spec().end_spec() == crate::source::clip_end(
                opening.line_spec().line_spec(),
                opening.span_spec(),
            ),
        ensures
            final(walk).wf(),
            final(walk).source_spec() == source,
            final(out)@ == old(out)@ + self.bracket_spec(
                gutter as nat,
                primary,
                *diagnostic,
                supplied as int,
                input as int,
                source.bytes_spec(),
                opening.span_spec().start_spec() as int,
                opening.span_spec().end_spec() as int,
                match text {
                    Some(phrase) => Some(phrase@),
                    None => None,
                },
            ),
    {
        let ghost b = source.bytes_spec();
        let clamped = opening.span();
        proof {
            reveal(Terminal::bracket_spec);
        }
        self.bracket_opening_exec(out, gutter, primary, opening, Ghost(b));
        let closing = self.tail(out, walk, source, gutter, primary, diagnostic, supplied, input, opening);
        proof {
            lemma_clipped_row(b, closing.line_spec(), clamped);
        }
        let (_, closes_after) = self.marker_span(closing, Ghost(b));
        self.closing_rows_exec(out, gutter, closes_after - 1, primary, text);
    }

    /// Writes one position: its rows and the markers under them.
    #[verifier::spinoff_prover]
    #[verifier::rlimit(60)]
    fn mark<'a>(
        &self,
        out: &mut String,
        walk: &mut Walk<'a>,
        source: Source<'a>,
        gutter: u64,
        diagnostic: &Diagnostic,
        supplied: usize,
        input: usize,
        span: Span,
        text: Option<&str>,
        primary: bool,
        bracketed: bool,
    )
        requires
            old(walk).wf(),
            old(walk).source_spec() == source,
            gutter <= 1 + u64::MAX / 10,
        ensures
            final(walk).wf(),
            final(walk).source_spec() == source,
            final(out)@ == old(out)@ + self.mark_spec(
                gutter as nat,
                *diagnostic,
                supplied as int,
                input as int,
                source.bytes_spec(),
                span,
                match text {
                    Some(phrase) => Some(phrase@),
                    None => None,
                },
                primary,
                bracketed,
            ),
    {
        let ghost b = source.bytes_spec();
        let _ = source.text();
        let opening = walk.open(span);
        let clamped = opening.span();
        let first_row = opening.line();
        proof {
            reveal(Terminal::mark_spec);
            lemma_clipped_row(b, first_row.line_spec(), clamped);
            lemma_line_start_of(b, clamped.start_spec() as int);
        }
        if opening.reaches_another_line() {
            self.bracket_exec(out, walk, source, gutter, primary, diagnostic, supplied, input, &opening, text);
        } else if bracketed {
            self.bracketed_row_exec(out, gutter, first_row.line(), Slot::Blank, primary, Ghost(b));
            self.margined_marker_row_exec(out, gutter, first_row, primary, text, Ghost(b));
        } else {
            self.source_row_exec(out, gutter, first_row.line(), Ghost(b));
            self.marker_row_exec(out, gutter, first_row, primary, text, Ghost(b));
        }
    }

    /// Writes where a block begins.
    #[verifier::spinoff_prover]
    #[verifier::rlimit(60)]
    fn origin_exec(
        &self,
        out: &mut String,
        gutter: u64,
        name: Option<&str>,
        line: u64,
        column: u64,
        first: bool,
    )
        requires
            gutter <= 1 + u64::MAX / 10,
        ensures
            final(out)@ == old(out)@ + self.origin_spec(
                gutter as nat,
                match name {
                    Some(text) => Some(text@),
                    None => None,
                },
                line as nat,
                column as nat,
                first,
            ),
    {
        let ghost start = out@;
        match self.presentation {
            Presentation::Ariadne => {
                if !first {
                    self.bar_row_exec(out, gutter);
                }
                pad(out, gutter + 2);
                self.styled_str(
                    out,
                    Role::Gutter,
                    if first {
                        "\u{256d}\u{2500}[ "
                    } else {
                        "\u{251c}\u{2500}[ "
                    },
                );
            },
            Presentation::Miette => {
                pad(out, gutter + 2);
                self.styled_str(out, Role::Gutter, "\u{256d}\u{2500}[");
            },
            _ => {
                self.arrow_exec(out, gutter);
            },
        }
        let ghost before_location = out@;
        match name {
            Some(text) => {
                shown(out, text);
                push_chars(out, ":");
            },
            None => {},
        }
        push_decimal(out, line);
        push_chars(out, ":");
        push_decimal(out, column);
        let ghost after_location = out@;
        match self.presentation {
            Presentation::Ariadne => {
                self.styled_str(out, Role::Gutter, " ]");
                push_chars(out, "\n");
                self.bar_row_exec(out, gutter);
            },
            Presentation::Miette => {
                self.styled_str(out, Role::Gutter, "]");
                push_chars(out, "\n");
            },
            _ => {
                push_chars(out, "\n");
                self.bar_row_exec(out, gutter);
            },
        }
        proof {
            let location = match name {
                Some(text) => shown_text(text@) + ":"@,
                None => Seq::<char>::empty(),
            } + decimal(line as nat) + ":"@ + decimal(column as nat);
            assert(after_location =~= before_location + location);
            assert(out@ =~= start + self.origin_spec(
                gutter as nat,
                match name {
                    Some(text) => Some(text@),
                    None => None,
                },
                line as nat,
                column as nat,
                first,
            ));
        }
    }

    /// Writes what points at where a block is.
    #[verifier::spinoff_prover]
    #[verifier::rlimit(60)]
    fn arrow_exec(&self, out: &mut String, gutter: u64)
        ensures
            final(out)@ == old(out)@ + self.arrow(gutter as nat),
    {
        match self.presentation {
            Presentation::Rustc => {
                pad(out, gutter);
                push_chars(out, "--> ");
            },
            _ => {
                let ghost start = out@;
                pad(out, gutter);
                push_char(out, ' ');
                proof {
                    assert(spaces(gutter as int).push(' ') =~= spaces(gutter + 1int));
                }
                self.styled_str(out, Role::Gutter, "\u{250c}\u{2500}");
                push_chars(out, " ");
            },
        }
    }

    /// Writes everything drawn for the input `first` is the first position of.
    #[verifier::spinoff_prover]
    #[verifier::rlimit(60)]
    fn block<'a>(
        &self,
        out: &mut String,
        gutter: u64,
        diagnostic: &Diagnostic<'a>,
        inputs: &[Input<'a>],
        first: Drawable<'a>,
        opening: bool,
    )
        requires
            first.input < inputs@.len(),
            gutter <= 1 + u64::MAX / 10,
        ensures
            final(out)@ == old(out)@ + self.block_spec(
                gutter as nat,
                *diagnostic,
                inputs@,
                first,
                opening,
            ),
    {
        proof {
            reveal(Terminal::block_spec);
        }
        let supplied = inputs.len();
        let input = inputs[first.input];
        let source = input.source();
        let ghost b = source.bytes_spec();
        let mut walk = Walk::new(source);
        let at = walk.open(first.span).at();
        self.origin_exec(out, gutter, input.origin(), at.line(), at.column(), opening);
        let bracketed = bracketed_exec(diagnostic, supplied, first.input, source);
        let ghost marks_start = out@;
        let mut previous: Option<(usize, usize)> = None;
        let mut going = true;
        while going
            invariant
                walk.wf(),
                walk.source_spec() == source,
                b == source.bytes_spec(),
                supplied == inputs@.len(),
                gutter <= 1 + u64::MAX / 10,
                bracketed == bracketed_from(
                    *diagnostic,
                    supplied as int,
                    first.input as int,
                    b,
                    0,
                ),
                marks_start + self.marks_from(
                    gutter as nat,
                    *diagnostic,
                    supplied as int,
                    first.input as int,
                    b,
                    None,
                    bracketed,
                ) == out@ + if going {
                    self.marks_from(
                        gutter as nat,
                        *diagnostic,
                        supplied as int,
                        first.input as int,
                        b,
                        key_view(previous),
                        bracketed,
                    )
                } else {
                    Seq::empty()
                },
            decreases pending_count(
                *diagnostic,
                supplied as int,
                first.input as int,
                key_view(previous),
                0,
            ) + if going { 1int } else { 0int },
        {
            let ghost key = key_view(previous);
            match earliest(diagnostic, supplied, first.input, previous) {
                None => {
                    going = false;
                },
                Some(position) => {
                    proof {
                        lemma_earliest_is_pending(
                            *diagnostic,
                            supplied as int,
                            first.input as int,
                            key,
                            0,
                            None,
                        );
                        lemma_pending_drops(
                            *diagnostic,
                            supplied as int,
                            first.input as int,
                            key,
                            position,
                            0,
                        );
                    }
                    self.mark(
                        out,
                        &mut walk,
                        source,
                        gutter,
                        diagnostic,
                        supplied,
                        first.input,
                        position.span,
                        position.text,
                        position.primary,
                        bracketed,
                    );
                    previous = Some((position.span.start(), position.at));
                },
            }
        }
        match self.presentation {
            Presentation::Ariadne => {
                assert(out@ + Seq::<char>::empty() =~= out@);
            },
            Presentation::Miette => {
                pad(out, gutter + 2);
                self.styled_str(out, Role::Gutter, "\u{2570}\u{2500}\u{2500}\u{2500}\u{2500}");
                push_chars(out, "\n");
            },
            _ => {
                self.bar_row_exec(out, gutter);
            },
        }
    }

    /// Writes the block for the position at `at`, if it is the first the caller names in its
    /// input.
    #[verifier::spinoff_prover]
    #[verifier::rlimit(60)]
    fn block_at<'a>(
        &self,
        out: &mut String,
        gutter: u64,
        diagnostic: &Diagnostic<'a>,
        inputs: &[Input<'a>],
        at: usize,
        drawn: bool,
    ) -> (here: bool)
        requires
            at <= diagnostic.labels_spec().len(),
            gutter <= 1 + u64::MAX / 10,
        ensures
            here == first_in_its_input(*diagnostic, at as int, inputs@.len() as int),
            final(out)@ == old(out)@ + if here {
                self.block_spec(
                    gutter as nat,
                    *diagnostic,
                    inputs@,
                    drawable_at(*diagnostic, at as int, inputs@.len() as int)->0,
                    !drawn,
                )
            } else {
                Seq::empty()
            },
    {
        let supplied = inputs.len();
        match drawable(diagnostic, at, supplied) {
            Some(position) => {
                if first_in_input(diagnostic, at, supplied, position.input) {
                    self.block(out, gutter, diagnostic, inputs, position, !drawn);
                    true
                } else {
                    false
                }
            },
            None => false,
        }
    }

    /// Writes the blocks, one for each input, in the order the inputs first appear, and returns
    /// whether it wrote any.
    #[verifier::spinoff_prover]
    #[verifier::rlimit(60)]
    fn blocks<'a>(
        &self,
        out: &mut String,
        gutter: u64,
        diagnostic: &Diagnostic<'a>,
        inputs: &[Input<'a>],
    ) -> (drawn: bool)
        requires
            gutter <= 1 + u64::MAX / 10,
        ensures
            final(out)@ == old(out)@ + self.blocks_from(gutter as nat, *diagnostic, inputs@, 0, false),
            drawn == drew_from(*diagnostic, inputs@.len() as int, 0, false),
    {
        let ghost blocks_start = out@;
        let n = diagnostic.labels().len();
        let mut drawn = self.block_at(out, gutter, diagnostic, inputs, 0, false);
        let mut at: usize = 0;
        while at < n
            invariant
                at <= n,
                n == diagnostic.labels_spec().len(),
                gutter <= 1 + u64::MAX / 10,
                blocks_start + self.blocks_from(gutter as nat, *diagnostic, inputs@, 0, false) == out@
                    + self.blocks_from(gutter as nat, *diagnostic, inputs@, at + 1, drawn),
                drew_from(*diagnostic, inputs@.len() as int, 0, false) == drew_from(
                    *diagnostic,
                    inputs@.len() as int,
                    at + 1,
                    drawn,
                ),
            decreases n - at,
        {
            let here = self.block_at(out, gutter, diagnostic, inputs, at + 1, drawn);
            drawn = drawn || here;
            at += 1;
        }
        proof {
            assert(self.blocks_from(gutter as nat, *diagnostic, inputs@, n + 1, drawn)
                == Seq::<char>::empty());
            assert(drew_from(*diagnostic, inputs@.len() as int, n + 1, drawn) == drawn);
        }
        drawn
    }

    /// Writes the header.
    #[verifier::spinoff_prover]
    #[verifier::rlimit(60)]
    fn header(&self, out: &mut String, diagnostic: &Diagnostic)
        ensures
            final(out)@ == old(out)@ + self.header_spec(*diagnostic),
    {
        let severity = diagnostic.severity();
        match self.presentation {
            Presentation::Ariadne => {
                self.styled_str(out, Role::Code, "[");
                self.styled_shown(out, Role::Code, diagnostic.code());
                self.styled_str(out, Role::Code, "]");
                push_chars(out, " ");
                let word = match severity {
                    Severity::Error => "Error",
                    Severity::Warning => "Warning",
                    Severity::Advice => "Advice",
                };
                self.styled_str(out, Role::Severity(severity), word);
            },
            Presentation::Miette => {
                self.styled_shown(out, Role::Code, diagnostic.code());
                push_chars(out, "\n\n  ");
                let glyph = match severity {
                    Severity::Error => "\u{d7}",
                    Severity::Warning => "\u{26a0}",
                    Severity::Advice => "\u{261e}",
                };
                self.styled_str(out, Role::Severity(severity), glyph);
                push_chars(out, " ");
                shown(out, diagnostic.message());
                push_chars(out, "\n");
                return;
            },
            _ => {
                self.styled_str(out, Role::Severity(severity), severity.as_str());
                self.styled_str(out, Role::Code, "[");
                self.styled_shown(out, Role::Code, diagnostic.code());
                self.styled_str(out, Role::Code, "]");
            },
        }
        push_chars(out, ": ");
        shown(out, diagnostic.message());
        push_chars(out, "\n");
    }

    /// Writes the help; `drawn` is whether any block was drawn above it.
    #[verifier::spinoff_prover]
    #[verifier::rlimit(60)]
    fn help(&self, out: &mut String, gutter: u64, help: &str, drawn: bool)
        requires
            gutter <= 1 + u64::MAX / 10,
        ensures
            final(out)@ == old(out)@ + self.help_spec(gutter as nat, help@, drawn),
    {
        let ghost start = out@;
        match self.presentation {
            Presentation::Ariadne => {
                if drawn {
                    self.bar_row_exec(out, gutter);
                    self.annotation_exec(out, gutter);
                } else {
                    push_chars(out, "  ");
                }
                self.styled_str(out, Role::Help, "Help");
                push_chars(out, ": ");
            },
            Presentation::Miette => {
                push_chars(out, "  ");
                self.styled_str(out, Role::Help, "help");
                push_chars(out, ": ");
            },
            _ => {
                pad(out, gutter);
                push_char(out, ' ');
                proof {
                    assert(spaces(gutter as int).push(' ') =~= spaces(gutter + 1int));
                }
                push_chars(out, "= ");
                match self.presentation {
                    Presentation::Rustc => {
                        self.styled_str(out, Role::Help, "help");
                        push_chars(out, ": ");
                    },
                    _ => {},
                }
            },
        }
        self.styled_shown(out, Role::Help, help);
        push_chars(out, "\n");
        proof {
            assert(out@ =~= start + self.help_spec(gutter as nat, help@, drawn));
        }
    }

    /// Writes what ends the render.
    #[verifier::spinoff_prover]
    #[verifier::rlimit(60)]
    fn close_render_exec(&self, out: &mut String, gutter: u64, drawn: bool)
        requires
            gutter <= 1 + u64::MAX / 10,
        ensures
            final(out)@ == old(out)@ + self.close_render(gutter as nat, drawn),
    {
        match self.presentation {
            Presentation::Ariadne => {
                if drawn {
                    let ghost start = out@;
                    let style = self.style_of(Role::Gutter);
                    open_style(out, style);
                    let ghost inner = out@;
                    repeat(out, '\u{2500}', gutter + 2);
                    push_chars(out, "\u{256f}");
                    proof {
                        assert(out@ =~= inner + (repeated('\u{2500}', gutter + 2int)
                            + "\u{256f}"@));
                    }
                    close_style(out, style);
                    push_chars(out, "\n");
                } else {
                    assert(out@ + Seq::<char>::empty() =~= out@);
                }
            },
            _ => {
                assert(out@ + Seq::<char>::empty() =~= out@);
            },
        }
    }
}

/// A number is written with at most one digit more than its tenth has units.
proof fn lemma_decimal_is_short(number: nat)
    ensures
        decimal(number).len() <= 1 + number / 10,
    decreases number,
{
    if number >= 10 {
        lemma_decimal_is_short(number / 10);
        let tenth = number / 10;
        assert(tenth / 10 + 1 <= tenth) by (nonlinear_arith)
            requires
                tenth >= 1,
        ;
    }
}

/// How many digits `number` is written with.
fn digits_of(number: u64) -> (count: u64)
    ensures
        count == decimal(number as nat).len(),
        count <= 1 + number / 10,
{
    proof {
        lemma_decimal_is_short(number as nat);
    }
    let mut digits = String::new();
    push_decimal(&mut digits, number);
    proof {
        assert(digits@ =~= decimal(number as nat));
    }
    digits.as_str().unicode_len() as u64
}

/// The gutter of a render: the digits of the widest last line of any position it draws.
fn gutter(diagnostic: &Diagnostic, inputs: &[Input]) -> (gutter: u64)
    ensures
        gutter == gutter_of(*diagnostic, inputs@),
        gutter <= 1 + u64::MAX / 10,
{
    let n = diagnostic.labels().len();
    let supplied = inputs.len();
    let mut widest: u64 = 0;
    let mut at: usize = 0;
    let mut done = false;
    while !done
        invariant
            n == diagnostic.labels_spec().len(),
            supplied == inputs@.len(),
            at <= n,
            widest <= 1 + u64::MAX / 10,
            gutter_of(*diagnostic, inputs@) == gutter_from(
                *diagnostic,
                inputs@,
                if done { n + 1 } else { at as int },
                widest as nat,
            ),
        decreases n - at + if done { 0int } else { 1int },
    {
        match drawable(diagnostic, at, supplied) {
            Some(position) => {
                let source = inputs[position.input].source();
                let (_, last) = span_lines(source, position.span);
                let count = digits_of(last);
                if count > widest {
                    widest = count;
                }
            },
            None => {},
        }
        if at == n {
            done = true;
        } else {
            at += 1;
        }
    }
    widest
}

impl<P: Palette> Terminal<P> {
    /// Writes `diagnostic` against the caller's inputs, appending to `out`.
    ///
    /// A location's `source` indexes `inputs`: out of range draws no block rather than a
    /// fabricated one, on the same terms as a location that names a whole input. What is
    /// appended is exactly [`document_spec`](Self::document_spec). Without colour, and with
    /// clusters that split the text they are asked about (as `unicode-segmentation`'s always do),
    /// nothing appended is a control character but the line breaks that end the rows and the tabs
    /// of the source.
    pub fn render(&self, diagnostic: &Diagnostic, inputs: &[Input], out: &mut String)
        ensures
            final(out)@ == old(out)@ + self.document_spec(*diagnostic, inputs@),
            self.capability_spec() == ColorCapability::NoColor && clusters_split() ==> forall|i: int|
                old(out)@.len() <= i < final(out)@.len() ==> fits(#[trigger] final(out)@[i]),
    {
        proof {
            if self.capability_spec() == ColorCapability::NoColor && clusters_split() {
                law_a_plain_render_carries_no_control_character_but_the_newline(
                    *self,
                    *diagnostic,
                    inputs@,
                );
            }
        }
        let ghost start = out@;
        let gutter = gutter(diagnostic, inputs);
        self.header(out, diagnostic);
        let drawn = self.blocks(out, gutter, diagnostic, inputs);
        match diagnostic.help() {
            Some(text) => self.help(out, gutter, text, drawn),
            None => {},
        }
        self.close_render_exec(out, gutter, drawn);
        proof {
            assert forall|i: int| start.len() <= i < out@.len() implies out@[i]
                == self.document_spec(*diagnostic, inputs@)[i - start.len()] by {}
        }
    }

    /// Returns the display columns the markers under one drawn line occupy: the cells its covered
    /// part occupies, widened to whole clusters, and never empty, since a caret a reader cannot
    /// see is not a caret. Confined to the window a row is drawn in
    /// ([`max_rendered_width`](Self::max_rendered_width)): a span reaching past the drawn text is
    /// marked over the ellipsis, which is where a reader should look for the rest of it. Inside
    /// the window it begins at the column [`LineCells::column_at`] gives the covered start.
    pub fn underline(&self, drawn: RegionLine) -> (marked: core::ops::Range<u64>)
        ensures
            (marked.start as int, marked.end as int) == windowed(
                ({
                    let columns = LineCells::new_spec(
                        drawn.line_spec(),
                        self.tab_width_spec(),
                    ).columns_for_spec(drawn.covered_spec());
                    (
                        columns.0,
                        if columns.1 > columns.0 {
                            columns.1
                        } else if columns.0 < u64::MAX {
                            columns.0 + 1
                        } else {
                            columns.0
                        },
                    )
                }),
            ),
            marked.start < marked.end,
            LineCells::new_spec(drawn.line_spec(), self.tab_width_spec()).column_at_spec(
                drawn.covered_spec().start_spec() as int,
            ) <= rendered_width() + 1 ==> marked.start == LineCells::new_spec(
                drawn.line_spec(),
                self.tab_width_spec(),
            ).column_at_spec(drawn.covered_spec().start_spec() as int),
    {
        let cells = LineCells::new(drawn.line(), self.tab_width);
        proof {
            law_a_span_is_marked_from_the_column_of_its_start(cells, drawn.covered_spec());
        }
        let columns = cells.columns_for(drawn.covered());
        let end = if columns.end > columns.start {
            columns.end
        } else {
            columns.start.saturating_add(1)
        };
        let (first, last) = window(columns.start, end);
        first..last
    }
}


/// Whether a character is no control character, or is a line break: what a render without
/// colour is made of.
pub open spec fn fits(character: char) -> bool {
    !is_control(character) || character == '\n'
}

/// Whether every character of `text` fits.
pub open spec fn clean(text: Seq<char>) -> bool {
    forall|i: int| 0 <= i < text.len() ==> fits(#[trigger] text[i])
}

/// Two clean texts join into a clean one.
proof fn lemma_clean_concat(a: Seq<char>, b: Seq<char>)
    requires
        clean(a),
        clean(b),
    ensures
        clean(a + b),
{
    assert forall|i: int| 0 <= i < (a + b).len() implies fits(#[trigger] (a + b)[i]) by {
        if i >= a.len() {
            assert((a + b)[i] == b[i - a.len()]);
        }
    }
}

/// Two clean texts join into a clean one, wherever a join is asked about.
broadcast proof fn lemma_clean_join(a: Seq<char>, b: Seq<char>)
    requires
        clean(a),
        clean(b),
    ensures
        #[trigger] clean(a + b),
{
    lemma_clean_concat(a, b);
}

/// The parts of a clean text are clean.
proof fn lemma_clean_parts(a: Seq<char>, b: Seq<char>)
    requires
        clean(a + b),
    ensures
        clean(a),
        clean(b),
{
    assert forall|i: int| 0 <= i < a.len() implies fits(#[trigger] a[i]) by {
        assert((a + b)[i] == a[i]);
    }
    assert forall|i: int| 0 <= i < b.len() implies fits(#[trigger] b[i]) by {
        assert((a + b)[a.len() + i] == b[i]);
    }
}

/// The literals a render writes are clean.
proof fn lemma_clean_literals()
    ensures
        clean("|"@),
        clean(" "@),
        clean("--> "@),
        clean(":"@),
        clean("= "@),
        clean("help"@),
        clean(": "@),
        clean("["@),
        clean("]"@),
        clean("..."@),
        clean("\n"@),
        clean("error"@),
        clean("warning"@),
        clean("advice"@),
        clean("\u{2502}"@),
        clean("\u{b7}"@),
        clean("\u{250c}\u{2500}"@),
        clean("  "@),
        clean("\u{2570}"@),
        clean("\u{256d}"@),
        clean("/"@),
        clean("   "@),
        clean("    "@),
        clean("\u{2500}\u{25b6}"@),
        clean("\u{251c}"@),
        clean("\u{2506}"@),
        clean("\u{2570}\u{2500}\u{2500}"@),
        clean("\u{2570}\u{2500}\u{2500}\u{2500}\u{2500}"@),
        clean("\u{256f}"@),
        clean("\u{256d}\u{2500}[ "@),
        clean("\u{251c}\u{2500}[ "@),
        clean(" ]"@),
        clean("Help"@),
        clean("Error"@),
        clean("Warning"@),
        clean("Advice"@),
        clean("\u{2503}"@),
        clean("\u{250f}"@),
        clean("\u{2523}"@),
        clean("\u{2517}\u{2501}\u{2501}"@),
        clean("\u{2517}\u{2501}\u{2501}\u{2501}\u{2501}"@),
        clean("\u{22ee}"@),
        clean("\u{256d}\u{2500}["@),
        clean("]"@),
        clean("\n\n  "@),
        clean("\u{d7}"@),
        clean("\u{26a0}"@),
        clean("\u{261e}"@),
{
    reveal_strlit("|");
    reveal_strlit(" ");
    reveal_strlit("--> ");
    reveal_strlit(":");
    reveal_strlit("= ");
    reveal_strlit("help");
    reveal_strlit(": ");
    reveal_strlit("[");
    reveal_strlit("]");
    reveal_strlit("...");
    reveal_strlit("\n");
    reveal_strlit("error");
    reveal_strlit("warning");
    reveal_strlit("advice");
    reveal_strlit("\u{2502}");
    reveal_strlit("\u{b7}");
    reveal_strlit("\u{250c}\u{2500}");
    reveal_strlit("  ");
    reveal_strlit("\u{2570}");
    reveal_strlit("\u{256d}");
    reveal_strlit("/");
    reveal_strlit("   ");
    reveal_strlit("    ");
    reveal_strlit("\u{2500}\u{25b6}");
    reveal_strlit("\u{251c}");
    reveal_strlit("\u{2506}");
    reveal_strlit("\u{2570}\u{2500}\u{2500}");
    reveal_strlit("\u{2570}\u{2500}\u{2500}\u{2500}\u{2500}");
    reveal_strlit("\u{256f}");
    reveal_strlit("\u{256d}\u{2500}[ ");
    reveal_strlit("\u{251c}\u{2500}[ ");
    reveal_strlit(" ]");
    reveal_strlit("Help");
    reveal_strlit("Error");
    reveal_strlit("Warning");
    reveal_strlit("Advice");
    reveal_strlit("\u{2503}");
    reveal_strlit("\u{250f}");
    reveal_strlit("\u{2523}");
    reveal_strlit("\u{2517}\u{2501}\u{2501}");
    reveal_strlit("\u{2517}\u{2501}\u{2501}\u{2501}\u{2501}");
    reveal_strlit("\u{22ee}");
    reveal_strlit("\u{256d}\u{2500}[");
    reveal_strlit("]");
    reveal_strlit("\n\n  ");
    reveal_strlit("\u{d7}");
    reveal_strlit("\u{26a0}");
    reveal_strlit("\u{261e}");
}

/// Blanks, repeated markers and decimal digits are clean.
proof fn lemma_clean_runs(count: int, primary: bool, number: nat)
    ensures
        clean(spaces(count)),
        clean(repeated(marker(primary), count)),
        clean(decimal(number)),
    decreases number,
{
    if number >= 10 {
        lemma_clean_runs(count, primary, number / 10);
        let rest = decimal(number / 10);
        assert forall|i: int| 0 <= i < decimal(number).len() implies fits(
            #[trigger] decimal(number)[i],
        ) by {
            if i < rest.len() {
                assert(decimal(number)[i] == rest[i]);
            }
        }
    }
}

/// A caller's text, shown, is clean: every control character in it has a stand-in.
proof fn lemma_clean_shown(text: Seq<char>)
    ensures
        clean(shown_text(text)),
{
    law_sanitizing_leaves_no_control_character_but_the_tab(text);
    assert forall|i: int| 0 <= i < shown_text(text).len() implies fits(#[trigger] shown_text(text)[i]) by {
        assert(sanitized(text)[i] == picture(text[i]));
    }
}

impl<P: Palette> Terminal<P> {
    /// Without colour, every styled text is the text itself.
    proof fn lemma_plain(self)
        requires
            self.capability_spec() == ColorCapability::NoColor,
        ensures
            forall|role: Role, body: Seq<char>| #[trigger] self.styled(role, body) == body,
    {
        assert forall|role: Role, body: Seq<char>| #[trigger] self.styled(role, body) == body by {
            self.lemma_plain_styled(role, body);
        }
    }

    /// Without colour, a styled text is the text itself.
    proof fn lemma_plain_styled(self, role: Role, body: Seq<char>)
        requires
            self.capability_spec() == ColorCapability::NoColor,
        ensures
            self.styled(role, body) == body,
    {
        Style::lemma_of(None, None, false, false, false);
    }

    /// Without colour, every row but a source row is clean, and a source row is clean when its
    /// expanded text is.
    proof fn lemma_clean_rows(
        self,
        gutter: nat,
        bytes: Seq<u8>,
        line_start: int,
        from: int,
        to: int,
        primary: bool,
        text: Option<Seq<char>>,
    )
        requires
            self.capability_spec() == ColorCapability::NoColor,
        ensures
            clean(self.bar()),
            clean(self.marker_row(gutter, bytes, line_start, from, to, primary, text)),
            clean(self.bar_row(gutter)),
            clean(expanded_at(bytes, line_start, measured_tab(self.tab_width_spec())))
                ==> clean(self.source_row(gutter, bytes, line_start)),
    {
        lemma_clean_literals();
        let bar = self.bar();
        let columns = marker_columns(bytes, line_start, measured_tab(self.tab_width_spec()), from, to);
        let role = label_role(primary);
        lemma_clean_runs(gutter + 1int, primary, line_number_at(bytes, line_start));
        lemma_clean_runs(columns.0 - 1, primary, 0);
        lemma_clean_runs(columns.1 - columns.0, primary, 0);
        lemma_clean_runs(gutter - decimal(line_number_at(bytes, line_start)).len(), primary, 0);
        self.lemma_plain_styled(Role::Gutter, bar);
        self.lemma_plain_styled(Role::LineNumber, decimal(line_number_at(bytes, line_start)));
        self.lemma_plain_styled(role, repeated(marker(primary), columns.1 - columns.0));
        self.lemma_plain_styled(
            Role::SourceText,
            expanded_at(bytes, line_start, measured_tab(self.tab_width_spec())),
        );
        lemma_clean_concat(spaces(gutter + 1int), bar);
        lemma_clean_concat(spaces(gutter + 1int) + bar, " "@);
        lemma_clean_concat(spaces(gutter + 1int) + bar, "\n"@);
        lemma_clean_concat(spaces(columns.0 - 1), repeated(marker(primary), columns.1 - columns.0));
        let label = self.label_part(primary, text);
        match text {
            Some(phrase) => {
                lemma_clean_shown(phrase);
                self.lemma_plain_styled(role, shown_text(phrase));
                lemma_clean_concat(" "@, shown_text(phrase));
            },
            None => {},
        }
        let annotation = self.annotation(gutter);
        let run = self.marks_run(columns, primary);
        lemma_clean_concat(annotation, run);
        lemma_clean_concat(annotation + run, label);
        lemma_clean_concat(annotation + run + label, "\n"@);
        let number = self.number_field(gutter, line_number_at(bytes, line_start));
        lemma_clean_concat(
            spaces(gutter - decimal(line_number_at(bytes, line_start)).len()),
            decimal(line_number_at(bytes, line_start)),
        );
        let expanded_text = expanded_at(bytes, line_start, measured_tab(self.tab_width_spec()));
        if clean(expanded_text) {
            lemma_clean_concat(number, " "@);
            lemma_clean_concat(number + " "@, bar);
            lemma_clean_concat(number + " "@ + bar, " "@);
            lemma_clean_concat(number + " "@ + bar + " "@, expanded_text);
            lemma_clean_concat(number + " "@ + bar + " "@ + expanded_text, "\n"@);
        }
    }
}


impl<P: Palette> Terminal<P> {
    /// Without colour, the rows of a bracket are clean, and one of its source rows is clean when
    /// its expanded text is.
    proof fn lemma_clean_bracket_rows(
        self,
        gutter: nat,
        bytes: Seq<u8>,
        line_start: int,
        column: int,
        primary: bool,
        closing: bool,
        slot: Seq<char>,
        text: Option<Seq<char>>,
    )
        requires
            self.capability_spec() == ColorCapability::NoColor,
        ensures
            clean(self.slot(true, primary)),
            clean(self.slot(false, primary)),
            clean(self.opening_slot(primary)),
            clean(self.running_gap_row(gutter, primary)),
            clean(self.corner_row(gutter, column, primary, closing, text)),
            clean(slot) && clean(expanded_at(bytes, line_start, measured_tab(self.tab_width_spec())))
                ==> clean(self.bracketed_row(gutter, bytes, line_start, slot)),
    {
        lemma_clean_literals();
        self.lemma_clean_rows(gutter, bytes, line_start, 0, 0, primary, text);
        let role = label_role(primary);
        let bar = self.bar();
        self.lemma_plain_styled(role, bar);
        self.lemma_plain_styled(Role::Gutter, bar);
        self.lemma_plain_styled(Role::Gutter, "\u{b7}"@);
        self.lemma_plain_styled(Role::LineNumber, "..."@);
        lemma_clean_concat(bar, " "@);
        self.lemma_plain_styled(role, self.margin_opening());
        lemma_clean_concat(self.margin_opening(), " "@);
        // The gap row.
        lemma_clean_runs(gutter as int, primary, 0);
        lemma_clean_runs(gutter + 1int, primary, 0);
        lemma_clean_concat("..."@, spaces(gutter as int));
        lemma_clean_concat("..."@ + spaces(gutter as int), bar);
        lemma_clean_concat("..."@ + spaces(gutter as int) + bar, "\n"@);
        lemma_clean_concat(spaces(gutter + 1int), "\u{b7}"@);
        lemma_clean_concat(spaces(gutter + 1int) + "\u{b7}"@, " "@);
        lemma_clean_concat(spaces(gutter + 1int) + "\u{b7}"@ + " "@, bar);
        lemma_clean_concat(spaces(gutter + 1int) + "\u{b7}"@ + " "@ + bar, "\n"@);
        // The corner.
        let run = self.bend(closing) + repeated(self.rule(), column) + seq![self.tip(primary)];
        self.lemma_plain_styled(role, run);
        assert(clean(repeated(self.rule(), column)));
        assert(clean(seq![self.tip(primary)]));
        lemma_clean_concat(self.bend(closing), repeated(self.rule(), column));
        lemma_clean_concat(
            self.bend(closing) + repeated(self.rule(), column),
            seq![self.tip(primary)],
        );
        let annotation = self.annotation(gutter);
        let label = self.label_part(primary, text);
        match text {
            Some(phrase) => {
                lemma_clean_shown(phrase);
                self.lemma_plain_styled(role, shown_text(phrase));
                lemma_clean_concat(" "@, shown_text(phrase));
            },
            None => {},
        }
        lemma_clean_concat(spaces(gutter + 1int), bar);
        lemma_clean_concat(spaces(gutter + 1int) + bar, " "@);
        lemma_clean_concat(annotation, run);
        lemma_clean_concat(annotation + run, label);
        lemma_clean_concat(annotation + run + label, "\n"@);
        // The source row.
        let number = self.number_field(gutter, line_number_at(bytes, line_start));
        let expanded_text = expanded_at(bytes, line_start, measured_tab(self.tab_width_spec()));
        self.lemma_plain_styled(Role::SourceText, expanded_text);
        self.lemma_plain_styled(Role::LineNumber, decimal(line_number_at(bytes, line_start)));
        lemma_clean_runs(gutter - decimal(line_number_at(bytes, line_start)).len(), primary, 0);
        lemma_clean_runs(0, primary, line_number_at(bytes, line_start));
        lemma_clean_concat(
            spaces(gutter - decimal(line_number_at(bytes, line_start)).len()),
            decimal(line_number_at(bytes, line_start)),
        );
        if clean(expanded_text) && clean(slot) {
            lemma_clean_concat(number, " "@);
            lemma_clean_concat(number + " "@, bar);
            lemma_clean_concat(number + " "@ + bar, " "@);
            lemma_clean_concat(number + " "@ + bar + " "@, slot);
            lemma_clean_concat(number + " "@ + bar + " "@ + slot, expanded_text);
            lemma_clean_concat(number + " "@ + bar + " "@ + slot + expanded_text, "\n"@);
        }
    }
}

impl<P: Palette> Terminal<P> {
    /// Without colour, every piece a bracket or a hanging phrase is drawn with is clean.
    proof fn lemma_clean_pieces(
        self,
        gutter: nat,
        column: int,
        columns: (int, int),
        primary: bool,
        text: Option<Seq<char>>,
    )
        requires
            self.capability_spec() == ColorCapability::NoColor,
        ensures
            clean(self.slot(true, primary)),
            clean(self.slot(false, primary)),
            clean(self.opening_slot(primary)),
            clean(self.closing_slot(primary)),
            clean(self.running_gap_row(gutter, primary)),
            clean(self.closing_rows(gutter, column, primary, text)),
            clean(self.annotation(gutter)),
            clean(self.label_part(primary, text)),
            clean(self.hanging_rows(gutter, columns, primary, text, Seq::empty())),
            clean(self.hanging_rows(gutter, columns, primary, text, "    "@)),
            clean(self.hanging_rows(gutter, columns, primary, text, "  "@)),
    {
        broadcast use lemma_clean_join;

        self.lemma_plain();
        lemma_clean_literals();
        lemma_clean_runs(gutter as int, primary, 0);
        lemma_clean_runs(gutter + 1int, primary, 0);
        lemma_clean_runs(gutter + 2int, primary, 0);
        lemma_clean_runs(gutter + 1 + self.indent(), primary, 0);
        lemma_clean_runs(columns.0 - 1, primary, 0);
        lemma_clean_runs(columns.0 - 1 + (columns.1 - columns.0) / 2, primary, 0);
        match text {
            Some(phrase) => lemma_clean_shown(phrase),
            None => {},
        }
        assert(clean(self.bar()));
        assert(clean(self.margin_opening()));
        assert(clean(self.bend(true)));
        assert(clean(repeated(self.rule(), column)));
        assert(clean(seq![self.tip(primary)]));
        assert(clean(teed_rule(columns.1 - columns.0, text is Some, self.heavy(primary))));
        assert(clean(self.runs_glyph(primary)));
        assert(clean(self.hang(primary)));
        assert(clean(self.post()));
        assert(clean(self.label_part(primary, text)));
        assert(clean(self.annotation(gutter)));
        assert(clean(self.corner_row(gutter, column, primary, true, text)));
        assert(clean(self.pointing_slot("\u{251c}"@, primary)));
        assert(clean(self.pointing_slot("\u{256d}"@, primary)));
    }
}

/// Whether `unicode-segmentation`'s clusters split every text they are asked about, as its
/// slices always do: each non-empty, joined in order the text, and each tab a cluster of its own.
pub open spec fn clusters_split() -> bool {
    forall|text: Seq<char>|
        splits(#[trigger] grapheme_clusters(text), text) && tabs_stand_alone(grapheme_clusters(text))
}

/// A source line, expanded, is clean.
proof fn lemma_clean_expanded(bytes: Seq<u8>, line_start: int, tab_width: u64)
    requires
        clusters_split(),
    ensures
        clean(expanded_at(bytes, line_start, tab_width)),
{
    let text = sanitized(decode_utf8(line_bytes(bytes, line_start)));
    let texts = texts_at(bytes, line_start);
    assert(splits(grapheme_clusters(text), text));
    law_sanitizing_leaves_no_control_character_but_the_tab(
        decode_utf8(line_bytes(bytes, line_start)),
    );
    lemma_harmless_parts(texts);
    lemma_expansion_within_holds_no_control(texts, tab_width as int, 0, 1, rendered_width());
}

impl<P: Palette> Terminal<P> {
    /// Without colour, the rows after a line are clean.
    proof fn lemma_clean_rows_after(
        self,
        gutter: nat,
        primary: bool,
        diagnostic: Diagnostic,
        supplied: int,
        input: int,
        bytes: Seq<u8>,
        line_start: int,
        last: int,
        previous: int,
        next: int,
        gap: bool,
    )
        requires
            self.capability_spec() == ColorCapability::NoColor,
            clusters_split(),
        ensures
            clean(
                self.rows_after(
                    gutter,
                    primary,
                    diagnostic,
                    supplied,
                    input,
                    bytes,
                    line_start,
                    last,
                    previous,
                    next,
                    gap,
                ),
            ),
        decreases bytes.len() - line_start,
    {
        let current = line_number_at(bytes, line_start) as int;
        if current < last && has_next_line(bytes, line_start) {
            let following = line_after_start(bytes, line_start);
            let number = current + 1;
            lemma_clean_expanded(bytes, following, measured_tab(self.tab_width_spec()));
            self.lemma_clean_pieces(gutter, 0, (0, 0), primary, None);
            self.lemma_clean_bracket_rows(
                gutter,
                bytes,
                following,
                0,
                primary,
                false,
                self.row_slot(number, last, primary),
                None,
            );
            let row = self.bracketed_row(gutter, bytes, following, self.row_slot(number, last, primary));
            if number == next {
                let anchor = next_anchor(diagnostic, supplied, input, bytes, next, last);
                self.lemma_clean_rows_after(
                    gutter,
                    primary,
                    diagnostic,
                    supplied,
                    input,
                    bytes,
                    following,
                    last,
                    next,
                    anchor,
                    false,
                );
                lemma_clean_concat(
                    row,
                    self.rows_after(
                        gutter,
                        primary,
                        diagnostic,
                        supplied,
                        input,
                        bytes,
                        following,
                        last,
                        next,
                        anchor,
                        false,
                    ),
                );
            } else {
                let shows = number <= shown_between_spec(
                    previous,
                    next,
                    opens_on(diagnostic, supplied, input, bytes, previous),
                );
                let leaves = if shows {
                    false
                } else {
                    true
                };
                self.lemma_clean_rows_after(
                    gutter,
                    primary,
                    diagnostic,
                    supplied,
                    input,
                    bytes,
                    following,
                    last,
                    previous,
                    next,
                    leaves,
                );
                let rest = self.rows_after(
                    gutter,
                    primary,
                    diagnostic,
                    supplied,
                    input,
                    bytes,
                    following,
                    last,
                    previous,
                    next,
                    leaves,
                );
                lemma_clean_concat(row, rest);
                lemma_clean_concat(self.running_gap_row(gutter, primary), rest);
            }
        }
    }

    /// Without colour, one position's rows are clean.
    proof fn lemma_clean_mark(
        self,
        gutter: nat,
        diagnostic: Diagnostic,
        supplied: int,
        input: int,
        bytes: Seq<u8>,
        span: Span,
        text: Option<Seq<char>>,
        primary: bool,
        bracketed: bool,
    )
        requires
            self.capability_spec() == ColorCapability::NoColor,
            clusters_split(),
        ensures
            clean(
                self.mark_spec(gutter, diagnostic, supplied, input, bytes, span, text, primary, bracketed),
            ),
    {
        reveal(Terminal::mark_spec);
        let start = resolved_start(bytes, span);
        let end = resolved_end(bytes, span);
        let first_start = line_start_of(bytes, start);
        let first_end = line_end(bytes, first_start);
        if end > first_end + break_len(bytes, first_end) {
            self.lemma_clean_bracket(gutter, primary, diagnostic, supplied, input, bytes, start, end, text);
        } else {
            broadcast use lemma_clean_join;

            self.lemma_plain();
            lemma_clean_literals();
            lemma_clean_expanded(bytes, first_start, measured_tab(self.tab_width_spec()));
            let from = clipped_from(first_start, first_end, start);
            let to = clipped_to(first_start, first_end, start, end);
            let columns = marker_columns(
                bytes,
                first_start,
                measured_tab(self.tab_width_spec()),
                from,
                to,
            );
            self.lemma_clean_rows(gutter, bytes, first_start, from, to, primary, text);
            self.lemma_clean_pieces(gutter, 0, columns, primary, text);
            self.lemma_clean_bracket_rows(
                gutter,
                bytes,
                first_start,
                0,
                primary,
                false,
                self.slot(false, primary),
                None,
            );
            lemma_clean_runs(columns.0 - 1, primary, 0);
            lemma_clean_runs(columns.1 - columns.0, primary, 0);
            assert(clean(self.marks_run(columns, primary)));
            assert(clean(self.marker_row(gutter, bytes, first_start, from, to, primary, text)));
            assert(clean(
                self.margined_marker_row(gutter, bytes, first_start, from, to, primary, text),
            ));
        }
    }

    /// Without colour, a bracketed span's rows are clean.
    proof fn lemma_clean_bracket(
        self,
        gutter: nat,
        primary: bool,
        diagnostic: Diagnostic,
        supplied: int,
        input: int,
        bytes: Seq<u8>,
        start: int,
        end: int,
        text: Option<Seq<char>>,
    )
        requires
            self.capability_spec() == ColorCapability::NoColor,
            clusters_split(),
        ensures
            clean(
                self.bracket_spec(gutter, primary, diagnostic, supplied, input, bytes, start, end, text),
            ),
    {
        reveal(Terminal::bracket_spec);
        let first_start = line_start_of(bytes, start);
        let first_end = line_end(bytes, first_start);
        let last_start = line_start_of(bytes, drawn_end(bytes, start, end));
        let last_end = line_end(bytes, last_start);
        let first = line_number_at(bytes, first_start) as int;
        let last = line_number_at(bytes, last_start) as int;
        let tab = measured_tab(self.tab_width_spec());
        let opens_at = marker_columns(
            bytes,
            first_start,
            tab,
            clipped_from(first_start, first_end, start),
            clipped_to(first_start, first_end, start, end),
        );
        let closes_at = marker_columns(
            bytes,
            last_start,
            tab,
            clipped_from(last_start, last_end, start),
            clipped_to(last_start, last_end, start, end),
        );
        lemma_clean_expanded(bytes, first_start, tab);
        reveal(Terminal::bracket_opening);
        self.lemma_clean_bracket_rows(
            gutter,
            bytes,
            first_start,
            opens_at.0,
            primary,
            false,
            self.opening_slot(primary),
            None,
        );
        self.lemma_clean_bracket_rows(
            gutter,
            bytes,
            first_start,
            opens_at.0,
            primary,
            false,
            self.slot(false, primary),
            None,
        );
        self.lemma_clean_bracket_rows(
            gutter,
            bytes,
            first_start,
            closes_at.1 - 1,
            primary,
            true,
            Seq::empty(),
            text,
        );
        self.lemma_clean_pieces(gutter, closes_at.1 - 1, (0, 0), primary, text);
        let opening_rows = self.bracket_opening(gutter, bytes, start, end, primary);
        if !self.opens_in_margin(bytes, start) {
            lemma_clean_concat(
                self.bracketed_row(gutter, bytes, first_start, self.slot(false, primary)),
                self.corner_row(gutter, opens_at.0, primary, false, None),
            );
        }
        assert(clean(opening_rows));
        let anchor = next_anchor(diagnostic, supplied, input, bytes, first, last);
        self.lemma_clean_rows_after(
            gutter,
            primary,
            diagnostic,
            supplied,
            input,
            bytes,
            first_start,
            last,
            first,
            anchor,
            false,
        );
        let c = self.rows_after(
            gutter,
            primary,
            diagnostic,
            supplied,
            input,
            bytes,
            first_start,
            last,
            first,
            anchor,
            false,
        );
        let d = self.closing_rows(gutter, closes_at.1 - 1, primary, text);
        lemma_clean_concat(opening_rows, c);
        lemma_clean_concat(opening_rows + c, d);
    }

    /// Without colour, the marks of an input are clean.
    proof fn lemma_clean_marks_from(
        self,
        gutter: nat,
        diagnostic: Diagnostic,
        supplied: int,
        input: int,
        bytes: Seq<u8>,
        after: Option<(int, int)>,
        bracketed: bool,
    )
        requires
            self.capability_spec() == ColorCapability::NoColor,
            clusters_split(),
        ensures
            clean(self.marks_from(gutter, diagnostic, supplied, input, bytes, after, bracketed)),
        decreases pending_count(diagnostic, supplied, input, after, 0),
    {
        match earliest_from(diagnostic, supplied, input, after, 0, None) {
            None => {},
            Some(position) => {
                if pending_count(diagnostic, supplied, input, key_of(position), 0) < pending_count(
                    diagnostic,
                    supplied,
                    input,
                    after,
                    0,
                ) {
                    let text = match position.text {
                        Some(phrase) => Some(phrase@),
                        None => None,
                    };
                    self.lemma_clean_mark(
                        gutter,
                        diagnostic,
                        supplied,
                        input,
                        bytes,
                        position.span,
                        text,
                        position.primary,
                        bracketed,
                    );
                    self.lemma_clean_marks_from(
                        gutter,
                        diagnostic,
                        supplied,
                        input,
                        bytes,
                        key_of(position),
                        bracketed,
                    );
                    lemma_clean_concat(
                        self.mark_spec(
                            gutter,
                            diagnostic,
                            supplied,
                            input,
                            bytes,
                            position.span,
                            text,
                            position.primary,
                            bracketed,
                        ),
                        self.marks_from(gutter, diagnostic, supplied, input, bytes, key_of(position), bracketed),
                    );
                }
            },
        }
    }

    /// Without colour, where a block begins is clean.
    proof fn lemma_clean_origin(
        self,
        gutter: nat,
        origin: Option<Seq<char>>,
        line: nat,
        column: nat,
        first: bool,
    )
        requires
            self.capability_spec() == ColorCapability::NoColor,
        ensures
            clean(self.origin_spec(gutter, origin, line, column, first)),
    {
        broadcast use lemma_clean_join;

        self.lemma_plain();
        lemma_clean_literals();
        lemma_clean_runs(gutter as int, true, line);
        lemma_clean_runs(0, true, column);
        lemma_clean_runs(gutter + 1int, true, 0);
        lemma_clean_runs(gutter + 2int, true, 0);
        lemma_clean_runs(gutter + 1 + self.indent(), true, 0);
        match origin {
            Some(text) => lemma_clean_shown(text),
            None => {},
        }
        assert(clean(self.bar()));
        assert(clean(self.bar_row(gutter)));
        assert(clean(self.arrow(gutter)));
        assert(clean(self.post()));
        let location = match origin {
            Some(name) => shown_text(name) + ":"@,
            None => Seq::empty(),
        } + decimal(line) + ":"@ + decimal(column);
        assert(clean(location));
    }

    /// Without colour, the blocks are clean.
    proof fn lemma_clean_blocks_from(
        self,
        gutter: nat,
        diagnostic: Diagnostic,
        inputs: Seq<Input>,
        at: int,
        drawn: bool,
    )
        requires
            self.capability_spec() == ColorCapability::NoColor,
            clusters_split(),
        ensures
            clean(self.blocks_from(gutter, diagnostic, inputs, at, drawn)),
        decreases diagnostic.labels_spec().len() + 1 - at,
    {
        broadcast use lemma_clean_join;

        if 0 <= at <= diagnostic.labels_spec().len() {
            let here = first_in_its_input(diagnostic, at, inputs.len() as int);
            self.lemma_clean_blocks_from(gutter, diagnostic, inputs, at + 1, drawn || here);
            let rest = self.blocks_from(gutter, diagnostic, inputs, at + 1, drawn || here);
            if here {
                let first = drawable_at(diagnostic, at, inputs.len() as int)->0;
                reveal(Terminal::block_spec);
                let input = inputs[first.input as int];
                let bytes = input.source_spec().bytes_spec();
                let start = resolved_start(bytes, first.span);
                let origin = match input.origin_spec() {
                    Some(name) => Some(name@),
                    None => None,
                };
                self.lemma_clean_origin(
                    gutter,
                    origin,
                    line_number_at(bytes, start),
                    crate::source::model::column_at(bytes, start),
                    !drawn,
                );
                self.lemma_clean_marks_from(
                    gutter,
                    diagnostic,
                    inputs.len() as int,
                    first.input as int,
                    bytes,
                    None,
                    bracketed_from(diagnostic, inputs.len() as int, first.input as int, bytes, 0),
                );
                self.lemma_clean_rows(gutter, bytes, 0, 0, 0, true, None);
                self.lemma_plain();
                lemma_clean_literals();
                lemma_clean_runs(gutter + 2int, true, 0);
                assert(clean(self.block_close(gutter)));
                assert(clean(self.block_spec(gutter, diagnostic, inputs, first, !drawn)));
            } else {
                assert(Seq::<char>::empty() + rest =~= rest);
            }
        }
    }
}

/// Caller text never steers the terminal: a render without colour holds no control character but
/// the line breaks that end its rows. The caller's own tabs are written as stand-ins, and the
/// source's are expanded to the spaces that reach their stops.
///
/// Stated for clusters that split the text they are asked about and stand each tab alone, as
/// `unicode-segmentation`'s always do.
pub proof fn law_a_plain_render_carries_no_control_character_but_the_newline<P: Palette>(
    terminal: Terminal<P>,
    diagnostic: Diagnostic,
    inputs: Seq<Input>,
)
    requires
        terminal.capability_spec() == ColorCapability::NoColor,
        clusters_split(),
    ensures
        forall|i: int|
            0 <= i < terminal.document_spec(diagnostic, inputs).len() ==> fits(
                #[trigger] terminal.document_spec(diagnostic, inputs)[i],
            ),
{
    broadcast use lemma_clean_join;

    let gutter = gutter_of(diagnostic, inputs);
    let drawn = drew_from(diagnostic, inputs.len() as int, 0, false);
    let severity = diagnostic.severity_spec();
    terminal.lemma_plain();
    lemma_clean_literals();
    lemma_clean_shown(diagnostic.code_spec()@);
    lemma_clean_shown(diagnostic.message_spec()@);
    assert(clean(severity.name_spec()));
    assert(clean(kind_word(severity)));
    assert(clean(severity_glyph(severity)));
    assert(clean(terminal.header_spec(diagnostic)));
    terminal.lemma_clean_blocks_from(gutter, diagnostic, inputs, 0, false);
    lemma_clean_runs(gutter + 1int, true, 0);
    lemma_clean_runs(gutter + 2int, true, 0);
    lemma_clean_runs(gutter + 1 + terminal.indent(), true, 0);
    assert(clean(terminal.bar()));
    assert(clean(terminal.bar_row(gutter)));
    assert(clean(terminal.annotation(gutter)));
    assert(clean(repeated('\u{2500}', gutter + 2int)));
    assert(clean(terminal.close_render(gutter, drawn)));
    match diagnostic.help_spec() {
        Some(help) => {
            lemma_clean_shown(help@);
            assert(clean(terminal.help_spec(gutter, help@, drawn)));
        },
        None => {},
    }
    assert(clean(terminal.document_spec(diagnostic, inputs)));
}

/// The line that begins `steps` lines after the one beginning at `line_start`.
pub open spec fn lines_on(bytes: Seq<u8>, line_start: int, steps: nat) -> int
    decreases steps,
{
    if steps == 0 {
        line_start
    } else {
        lines_on(bytes, line_after_start(bytes, line_start), (steps - 1) as nat)
    }
}

impl<P: Palette> Terminal<P> {
    /// Once a gap row stands for the lines a bracket leaves out past its context, those lines draw
    /// nothing more: walked from any of them, the rows still to come are the rows walked from the
    /// last of them, however many lie between.
    pub proof fn law_the_lines_a_gap_stands_for_draw_nothing_more(
        self,
        gutter: nat,
        primary: bool,
        diagnostic: Diagnostic,
        supplied: int,
        input: int,
        bytes: Seq<u8>,
        line_start: int,
        last: int,
        previous: int,
        next: int,
        steps: nat,
    )
        requires
            forall|k: nat|
                k < steps ==> {
                    let at = #[trigger] lines_on(bytes, line_start, k);
                    &&& has_next_line(bytes, at)
                    &&& line_number_at(bytes, at) < last
                    &&& line_number_at(bytes, at) + 1 < next
                    &&& line_number_at(bytes, at) > previous + CONTEXT
                },
        ensures
            self.rows_after(
                gutter,
                primary,
                diagnostic,
                supplied,
                input,
                bytes,
                line_start,
                last,
                previous,
                next,
                true,
            ) == self.rows_after(
                gutter,
                primary,
                diagnostic,
                supplied,
                input,
                bytes,
                lines_on(bytes, line_start, steps),
                last,
                previous,
                next,
                true,
            ),
        decreases steps,
    {
        if steps > 0 {
            let following = line_after_start(bytes, line_start);
            assert(has_next_line(bytes, lines_on(bytes, line_start, 0)));
            law_the_lines_shown_after_an_anchor_do_not_grow_with_the_distance(previous, next, next);
            assert(lines_on(bytes, line_start, 0) == line_start);
            assert forall|k: nat| k < (steps - 1) as nat implies {
                let at = #[trigger] lines_on(bytes, following, k);
                &&& has_next_line(bytes, at)
                &&& line_number_at(bytes, at) < last
                &&& line_number_at(bytes, at) + 1 < next
                &&& line_number_at(bytes, at) > previous + CONTEXT
            } by {
                assert(lines_on(bytes, line_start, k + 1) == lines_on(bytes, following, k));
            }
            self.law_the_lines_a_gap_stands_for_draw_nothing_more(
                gutter,
                primary,
                diagnostic,
                supplied,
                input,
                bytes,
                following,
                last,
                previous,
                next,
                (steps - 1) as nat,
            );
            assert(lines_on(bytes, line_start, steps) == lines_on(bytes, following, (steps - 1) as nat));
        }
    }
}

/// Where a render without colour in the shape `miette` draws announces the severity: after the
/// code, the blank line and the indent under it.
pub open spec fn miette_glyph_at(diagnostic: Diagnostic) -> int {
    shown_text(diagnostic.code_spec()@).len() + 4int
}

impl<P: Palette> Terminal<P> {
    /// In the shape `miette` draws, the glyph in the header tells every severity apart: two
    /// diagnostics with the same code and different severities are rendered with different
    /// characters where the severity is announced, whatever else they hold.
    pub proof fn law_the_miette_header_tells_every_severity_apart(
        self,
        first: Diagnostic,
        first_inputs: Seq<Input>,
        second: Diagnostic,
        second_inputs: Seq<Input>,
    )
        requires
            self.presentation_spec() == Presentation::Miette,
            self.capability_spec() == ColorCapability::NoColor,
            first.code_spec()@ == second.code_spec()@,
            first.severity_spec() != second.severity_spec(),
        ensures
            miette_glyph_at(first) < self.document_spec(first, first_inputs).len(),
            miette_glyph_at(second) < self.document_spec(second, second_inputs).len(),
            miette_glyph_at(first) == miette_glyph_at(second),
            self.document_spec(first, first_inputs)[miette_glyph_at(first)] != self.document_spec(
                second,
                second_inputs,
            )[miette_glyph_at(second)],
    {
        self.lemma_miette_glyph(first, first_inputs);
        self.lemma_miette_glyph(second, second_inputs);
    }

    /// In the shape `miette` draws, the header announces an error by `×`, a warning by `⚠` and
    /// advice by `☞`.
    pub proof fn law_the_miette_header_announces_the_severity_by_its_glyph(
        self,
        diagnostic: Diagnostic,
        inputs: Seq<Input>,
    )
        requires
            self.presentation_spec() == Presentation::Miette,
            self.capability_spec() == ColorCapability::NoColor,
        ensures
            miette_glyph_at(diagnostic) < self.document_spec(diagnostic, inputs).len(),
            self.document_spec(diagnostic, inputs)[miette_glyph_at(diagnostic)] == match diagnostic.severity_spec() {
                Severity::Error => '\u{d7}',
                Severity::Warning => '\u{26a0}',
                Severity::Advice => '\u{261e}',
            },
    {
        self.lemma_miette_glyph(diagnostic, inputs);
    }

    /// Where the severity's glyph stands in a render without colour in the shape `miette` draws.
    proof fn lemma_miette_glyph(self, diagnostic: Diagnostic, inputs: Seq<Input>)
        requires
            self.presentation_spec() == Presentation::Miette,
            self.capability_spec() == ColorCapability::NoColor,
        ensures
            miette_glyph_at(diagnostic) < self.document_spec(diagnostic, inputs).len(),
            self.document_spec(diagnostic, inputs)[miette_glyph_at(diagnostic)] == severity_glyph(
                diagnostic.severity_spec(),
            )[0],
            severity_glyph(diagnostic.severity_spec()).len() == 1,
            severity_glyph(Severity::Error)[0] == '\u{d7}',
            severity_glyph(Severity::Warning)[0] == '\u{26a0}',
            severity_glyph(Severity::Advice)[0] == '\u{261e}',
    {
        reveal_strlit("\n\n  ");
        reveal_strlit("\u{d7}");
        reveal_strlit("\u{26a0}");
        reveal_strlit("\u{261e}");
        reveal_strlit(" ");
        reveal_strlit("\n");
        self.lemma_plain();
        let severity = diagnostic.severity_spec();
        let code = shown_text(diagnostic.code_spec()@);
        let glyph = severity_glyph(severity);
        let header = self.header_spec(diagnostic);
        assert(self.styled(Role::Code, code) == code);
        assert(self.styled(Role::Severity(severity), glyph) == glyph);
        assert(header == code + "\n\n  "@ + glyph + " "@ + shown_text(diagnostic.message_spec()@)
            + "\n"@);
        assert(header[code.len() + 4int] == glyph[0]);
        let document = self.document_spec(diagnostic, inputs);
        let gutter = gutter_of(diagnostic, inputs);
        let drawn = drew_from(diagnostic, inputs.len() as int, 0, false);
        let rest = self.blocks_from(gutter, diagnostic, inputs, 0, false) + match diagnostic.help_spec() {
            Some(help) => self.help_spec(gutter, help@, drawn),
            None => Seq::empty(),
        } + self.close_render(gutter, drawn);
        assert(document == header + rest);
        assert(document[code.len() + 4int] == header[code.len() + 4int]);
    }
}

/// Where a render without colour announces the severity: first thing in the shapes `rustc` and
/// `codespan` draw, after the bracketed code and a blank in the one `ariadne` draws, and after
/// the code, the blank line and the indent under it in the one `miette` draws.
pub open spec fn severity_at(presentation: Presentation, diagnostic: Diagnostic) -> int {
    match presentation {
        Presentation::Ariadne => shown_text(diagnostic.code_spec()@).len() + 3int,
        Presentation::Miette => miette_glyph_at(diagnostic),
        _ => 0,
    }
}

impl<P: Palette> Terminal<P> {
    /// In every shape, a render tells every severity apart: two diagnostics with the same code and
    /// different severities are rendered differently where the severity is announced, whatever
    /// else they hold.
    pub proof fn law_every_shape_tells_every_severity_apart(
        self,
        first: Diagnostic,
        first_inputs: Seq<Input>,
        second: Diagnostic,
        second_inputs: Seq<Input>,
    )
        requires
            self.capability_spec() == ColorCapability::NoColor,
            first.code_spec()@ == second.code_spec()@,
            first.severity_spec() != second.severity_spec(),
        ensures
            severity_at(self.presentation_spec(), first) < self.document_spec(first, first_inputs).len(),
            severity_at(self.presentation_spec(), second) < self.document_spec(second, second_inputs).len(),
            severity_at(self.presentation_spec(), first) == severity_at(self.presentation_spec(), second),
            self.document_spec(first, first_inputs)[severity_at(self.presentation_spec(), first)]
                != self.document_spec(second, second_inputs)[severity_at(self.presentation_spec(), second)],
    {
        reveal_strlit("error");
        reveal_strlit("warning");
        reveal_strlit("advice");
        reveal_strlit("Error");
        reveal_strlit("Warning");
        reveal_strlit("Advice");
        self.lemma_severity_announced(first, first_inputs);
        self.lemma_severity_announced(second, second_inputs);
        if self.presentation_spec() == Presentation::Miette {
            self.lemma_miette_glyph(first, first_inputs);
        }
    }

    /// The character a render without colour announces the severity by: the first of its name,
    /// of its word in the shape `ariadne` draws, or its glyph in the one `miette` draws.
    proof fn lemma_severity_announced(self, diagnostic: Diagnostic, inputs: Seq<Input>)
        requires
            self.capability_spec() == ColorCapability::NoColor,
        ensures
            severity_at(self.presentation_spec(), diagnostic) < self.document_spec(diagnostic, inputs).len(),
            self.document_spec(diagnostic, inputs)[severity_at(self.presentation_spec(), diagnostic)]
                == match self.presentation_spec() {
                Presentation::Ariadne => kind_word(diagnostic.severity_spec())[0],
                Presentation::Miette => severity_glyph(diagnostic.severity_spec())[0],
                _ => diagnostic.severity_spec().name_spec()[0],
            },
    {
        reveal_strlit("error");
        reveal_strlit("warning");
        reveal_strlit("advice");
        reveal_strlit("Error");
        reveal_strlit("Warning");
        reveal_strlit("Advice");
        reveal_strlit("[");
        reveal_strlit("] ");
        reveal_strlit("]");
        reveal_strlit(" ");
        if self.presentation_spec() == Presentation::Miette {
            self.lemma_miette_glyph(diagnostic, inputs);
        } else {
            self.lemma_plain();
            let severity = diagnostic.severity_spec();
            let code = shown_text(diagnostic.code_spec()@);
            let header = self.header_spec(diagnostic);
            let at = severity_at(self.presentation_spec(), diagnostic);
            if self.presentation_spec() == Presentation::Ariadne {
                let word = kind_word(severity);
                assert(self.styled(Role::Code, "["@) == "["@);
                assert(self.styled(Role::Code, code) == code);
                assert(self.styled(Role::Code, "]"@) == "]"@);
                assert(self.styled(Role::Severity(severity), word) == word);
                let front = "["@ + code + "]"@ + " "@;
                assert(front.len() == at);
                assert(header == front + word + (": "@ + shown_text(diagnostic.message_spec()@)
                    + "\n"@)) by {
                    assert(header =~= front + word + (": "@ + shown_text(
                        diagnostic.message_spec()@,
                    ) + "\n"@));
                }
                assert(header[at] == word[0]);
            } else {
                let name = severity.name_spec();
                assert(self.styled(Role::Severity(severity), name) == name);
                assert(header[0] == name[0]);
            }
            let document = self.document_spec(diagnostic, inputs);
            let gutter = gutter_of(diagnostic, inputs);
            let drawn = drew_from(diagnostic, inputs.len() as int, 0, false);
            let rest = self.blocks_from(gutter, diagnostic, inputs, 0, false) + match diagnostic.help_spec() {
                Some(help) => self.help_spec(gutter, help@, drawn),
                None => Seq::empty(),
            } + self.close_render(gutter, drawn);
            assert(document == header + rest);
            assert(document[at] == header[at]);
        }
    }
}

} // verus!
