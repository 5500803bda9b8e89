use painty::terminal::{Input, LineCells, Terminal};
use painty::{Diagnostic, Label, Location, RegionLine, Severity, Source, Span, Theme};

/// A multi-line case: a source, the spans drawn over it (the first is the primary), and what the
/// case is here to break.
struct Bracketed {
  text: &'static str,
  spans: Vec<Span>,
  why: &'static str,
}

fn case(text: &'static str, spans: &[Span], why: &'static str) -> Bracketed {
  Bracketed {
    text,
    spans: spans.to_vec(),
    why,
  }
}

fn bracketed() -> Vec<Bracketed> {
  vec![
    case(
      "query Hero {\n  hero {\n    name\n    friends\n  }\n}\n",
      &[Span::new(15, 44)],
      "a block whose opening line holds nothing before it, which is the compact form",
    ),
    case(
      "let x = if a {\n  1\n} else {\n  2\n};\n",
      &[Span::new(8, 33)],
      "an opening with text before it, which needs a corner row of its own",
    ),
    case(
      "let \u{65e5}\u{672c}\u{8a9e} =\n\tvalue;\n",
      &[Span::new(6, 25)],
      "opens inside a CJK run and closes after a tab: two cells one end, a tab stop the other",
    ),
    case(
      "alpha\r\nbeta\r\ngamma\r\n",
      &[Span::new(2, 15)],
      "crosses CRLF boundaries, where a line break is two bytes and no column",
    ),
    case(
      "a\u{301}bc\ndef\n",
      &[Span::new(1, 8)],
      "opens inside a combining sequence, so the opening widens back to its base",
    ),
    case(
      "alpha\nbeta",
      &[Span::new(3, 10)],
      "closes on the final byte of a source with no trailing newline",
    ),
    case(
      "aaa\nbbb\nccc\n",
      &[Span::new(0, 8)],
      "swallows its own trailing newline, so it ends on a line it is not drawn on",
    ),
    case(
      "aaa\n\nccc\n",
      &[Span::new(0, 5)],
      "closes on an empty line, where the covered range is empty and the caret is still a caret",
    ),
    case(
      "outer (\n  inner (\n    x\n  )\n)\n",
      &[Span::new(6, 29), Span::new(10, 26)],
      "two multi-line spans open at once",
    ),
    case(
      "a (\n b\n)\nc (\n d\n)\n",
      &[Span::new(2, 8), Span::new(11, 17)],
      "two multi-line spans that do not overlap",
    ),
    case(
      "start {\n a\n b\n c\n d\n e\n f\n g\n h\n i\n j\n}\nend\n",
      &[Span::new(6, 39)],
      "long enough that the middle is elided, which is what bounds the rows",
    ),
    case(
      "q {\n  a\n  b\n  c\n}\n",
      &[Span::new(2, 17), Span::new(10, 11)],
      "a single-line label inside a multi-line span",
    ),
    case(
      "one\ntwo\nthree\nfour\nfive\n",
      &[Span::new(4, 18), Span::new(0, 3)],
      "a single-line label above one, so the caller's order and the source order disagree",
    ),
    case(
      "a {\n\tb\n\tc\n}\n",
      &[Span::new(2, 11)],
      "tabs inside the bracketed lines, where a cell is not a character",
    ),
    case(
      "  identifier(\n    body\n  )\n",
      &[Span::new(2, 26), Span::new(2, 12)],
      "a multi-line span sharing its opening line with a ten-cell label",
    ),
    case(
      "  (\n  a\n  )\n  b\n",
      &[Span::new(2, 11), Span::new(2, 7)],
      "two multi-line spans opening at the same offset",
    ),
    case(
      "  identifier(\n    body\n  )\n",
      &[Span::new(2, 26), Span::new(23, 26)],
      "a multi-line span sharing its closing line with a label",
    ),
    case(
      "  identifier(\n    body\n  )\n",
      &[Span::new(2, 26), Span::new(0, 26)],
      "two multi-line spans opening at different columns of one indented line",
    ),
  ]
}

/// The tab width every multi-line case is measured at.
const BRACKETED_TAB: u64 = 4;

/// A presentation, and how its own output is read back.
#[derive(Debug, Clone, Copy, PartialEq, Eq)]
enum Style {
  /// An arrow, an indented gutter, carets under the cells.
  Rustc,
  /// A boxed location line, a box-drawing wall, brackets down the margin.
  Miette,
}

const STYLES: [Style; 2] = [Style::Rustc, Style::Miette];

impl Style {
  fn terminal(self) -> Terminal<Theme> {
    let terminal = Terminal::plain().with_tab_width(BRACKETED_TAB);
    match self {
      Style::Rustc => terminal.like_rustc(),
      Style::Miette => terminal.like_miette(),
    }
  }

  /// What stands between the line-number field and the source on a source row.
  fn wall(self) -> char {
    match self {
      Style::Rustc => '|',
      Style::Miette => '\u{2502}',
    }
  }

  /// The same field on a row that says something about the line above it.
  fn post(self) -> char {
    match self {
      Style::Rustc => '|',
      Style::Miette => '\u{b7}',
    }
  }

  /// The glyphs a mark is drawn with.
  fn marks(self) -> &'static [char] {
    match self {
      Style::Rustc => &['^', '-'],
      Style::Miette => &['\u{2501}', '\u{2533}', '\u{2500}', '\u{252c}'],
    }
  }

  /// Glyphs whose presence makes a row a connector rather than an underline.
  fn connectors(self) -> &'static [char] {
    match self {
      Style::Rustc => &[],
      Style::Miette => &['\u{2570}', '\u{2517}'],
    }
  }

  /// Whether this style marks the ends of a multi-line span on cells at all.
  fn marks_multiline_ends(self) -> bool {
    matches!(self, Style::Rustc)
  }
}

fn diagnose<'a>(primary: Location, labels: &'a [Label<'a>], message: &'a str) -> Diagnostic<'a> {
  Diagnostic::new("mylang::test::rule", Severity::Error, message, primary)
    .with_primary_label("here")
    .with_labels(labels)
}

fn render_spans(style: Style, text: &str, spans: &[Span]) -> String {
  let labels: Vec<Label<'_>> = spans[1..]
    .iter()
    .map(|span| Label::new(Location::new(0, *span), "there"))
    .collect();
  let diagnostic = diagnose(Location::new(0, spans[0]), &labels, "a message");
  let mut out = String::new();
  style
    .terminal()
    .render(&diagnostic, &[Input::new(Source::new(text))], &mut out);
  out
}

/// Every ordering of `count` positions.
fn orderings(count: usize) -> Vec<Vec<usize>> {
  let mut all = vec![Vec::new()];
  for _ in 0..count {
    let mut next = Vec::new();
    for order in &all {
      for candidate in 0..count {
        if !order.contains(&candidate) {
          let mut grown = order.clone();
          grown.push(candidate);
          next.push(grown);
        }
      }
    }
    all = next;
  }
  all
}

/// The line a rendered row is about, and where the source text starts in it.
fn source_row(style: Style, row: &str, source: Source<'_>) -> Option<(u64, usize, usize)> {
  let characters: Vec<char> = row.chars().collect();
  let indent = characters.iter().take_while(|c| **c == ' ').count();
  let digits: String = characters[indent..]
    .iter()
    .take_while(|c| c.is_ascii_digit())
    .copied()
    .collect();
  if digits.is_empty() {
    return None;
  }
  let after: Vec<char> = characters[indent + digits.len()..]
    .iter()
    .take(3)
    .copied()
    .collect();
  if after != [' ', style.wall(), ' '] {
    return None;
  }
  let number: u64 = digits.parse().expect("a rendered line number is a number");
  let line = source
    .line(number)
    .expect("a rendered line number names a line of the input");
  let mut expanded = String::new();
  LineCells::new(line, BRACKETED_TAB).write_expanded(&mut expanded);
  assert!(
    row.ends_with(&expanded),
    "the row for line {number} does not end with the line it claims to show:\n{row:?}\n{expanded:?}"
  );
  Some((
    number,
    indent + digits.len() + 1,
    characters.len() - expanded.chars().count(),
  ))
}

/// The lines a render actually shows, in the order it shows them.
fn shown(style: Style, rendered: &str, source: Source<'_>) -> Vec<u64> {
  rendered
    .lines()
    .filter_map(|row| source_row(style, row, source))
    .map(|(number, _, _)| number)
    .collect()
}

/// Every cell the rendered output marks, as `(line, display column)`.
fn marked(style: Style, rendered: &str, source: Source<'_>) -> Vec<(u64, u64)> {
  let mut cells = Vec::new();
  let mut about = None;
  for row in rendered.lines() {
    if let Some(found) = source_row(style, row, source) {
      about = Some(found);
      continue;
    }
    let Some((number, bar, code)) = about else {
      continue;
    };
    let characters: Vec<char> = row.chars().collect();
    if characters.get(bar) != Some(&style.post()) || characters[..bar].iter().any(|c| *c != ' ') {
      continue;
    }
    if characters.iter().any(|c| style.connectors().contains(c)) {
      continue;
    }
    let Some(start) = characters
      .iter()
      .skip(code)
      .position(|c| style.marks().contains(c))
    else {
      continue;
    };
    let from = code + start;
    let run = characters[from..]
      .iter()
      .take_while(|c| style.marks().contains(c))
      .count();
    for step in 0..run {
      cells.push((
        number,
        u64::try_from(from + step - code + 1).expect("a column"),
      ));
    }
  }
  cells.sort_unstable();
  cells
}

/// The lines a span is drawn on, as its region gives them.
fn drawn_lines<'a>(source: Source<'a>, span: Span) -> Vec<RegionLine<'a>> {
  let mut lines = source.resolve(span).lines();
  let mut drawn = Vec::new();
  while let Some(line) = lines.next() {
    drawn.push(line);
  }
  drawn
}

/// How many rows a span is drawn on.
fn drawn_rows(source: Source<'_>, span: Span) -> usize {
  drawn_lines(source, span).len()
}

/// Whether a span's opening is announced in the margin instead of by a marker of its own: a
/// multi-line span that begins at its opening line's first non-blank.
fn opens_in_margin(source: Source<'_>, span: Span) -> bool {
  let drawn = drawn_lines(source, span);
  if drawn.len() < 2 {
    return false;
  }
  let first = drawn[0];
  let line = first.line();
  let text = line.text();
  let before = first.covered().start() - line.span().start();
  text[..before].chars().all(char::is_whitespace)
    && text[before..]
      .chars()
      .next()
      .is_some_and(|first| !first.is_whitespace())
}

/// The cells one span's ends occupy, whatever the style draws them with.
fn ends_of(source: Source<'_>, span: Span) -> Vec<(u64, u64)> {
  let terminal = Terminal::plain().with_tab_width(BRACKETED_TAB);
  let drawn = drawn_lines(source, span);
  let first = *drawn.first().expect("a region covers at least one line");
  let last = *drawn.last().expect("a region covers at least one line");
  if drawn.len() == 1 {
    return terminal
      .underline(first)
      .map(|column| (first.line().number(), column))
      .collect();
  }
  vec![
    (first.line().number(), terminal.underline(first).start),
    (last.line().number(), terminal.underline(last).end - 1),
  ]
}

/// Which of [`ends_of`] a style marks on a cell: a function of the span, the source and the style.
fn marks_of(style: Style, source: Source<'_>, span: Span) -> Vec<(u64, u64)> {
  if drawn_rows(source, span) < 2 {
    return ends_of(source, span);
  }
  if !style.marks_multiline_ends() {
    return Vec::new();
  }
  let ends = ends_of(source, span);
  if opens_in_margin(source, span) {
    return ends[1..].to_vec();
  }
  ends
}

/// Every cell a set of spans asks a style to mark: the union over the spans, one at a time.
fn asked_for(style: Style, source: Source<'_>, spans: &[Span]) -> Vec<(u64, u64)> {
  let mut cells: Vec<(u64, u64)> = spans
    .iter()
    .flat_map(|span| marks_of(style, source, *span))
    .collect();
  cells.sort_unstable();
  cells
}

/// `left` with one copy of each of `right`'s entries taken out of it.
fn without(left: &[(u64, u64)], right: &[(u64, u64)]) -> Vec<(u64, u64)> {
  let mut left = left.to_vec();
  for cell in right {
    if let Some(at) = left.iter().position(|found| found == cell) {
      left.remove(at);
    }
  }
  left
}

/// The lines whose source row opens a span with a `/`.
fn compact_rows(rendered: &str, source: Source<'_>) -> Vec<u64> {
  let mut found = Vec::new();
  for row in rendered.lines() {
    let Some((number, bar, code)) = source_row(Style::Rustc, row, source) else {
      continue;
    };
    let characters: Vec<char> = row.chars().collect();
    for _ in characters[bar + 2..code].iter().filter(|c| **c == '/') {
      found.push(number);
    }
  }
  found.sort_unstable();
  found
}

#[test]
fn which_cells_are_marked_is_a_function_of_the_span_alone() {
  for case in bracketed() {
    let source = Source::new(case.text);
    for order in orderings(case.spans.len()) {
      let spans: Vec<Span> = order.iter().map(|index| case.spans[*index]).collect();
      for style in STYLES {
        let rendered = render_spans(style, case.text, &spans);
        assert!(
          !rendered.contains('\u{2026}'),
          "{:?}: a case elided its source, so the parse below is not exact\n{rendered}",
          case.text
        );
        assert_eq!(
          marked(style, &rendered, source),
          asked_for(style, source, &spans),
          "{:?} as {style:?} in caller order {order:?}: {}\n{rendered}",
          case.text,
          case.why
        );
      }
      let rendered = render_spans(Style::Rustc, case.text, &spans);
      let mut expected: Vec<u64> = spans
        .iter()
        .filter(|span| opens_in_margin(source, **span))
        .map(|span| source.resolve(*span).start().line())
        .collect();
      expected.sort_unstable();
      assert_eq!(
        compact_rows(&rendered, source),
        expected,
        "{:?} in caller order {order:?}: {}\n{rendered}",
        case.text,
        case.why
      );
    }
  }
}

#[test]
fn a_style_changes_appearance_and_not_which_source_is_marked() {
  for case in bracketed() {
    let source = Source::new(case.text);
    for order in orderings(case.spans.len()) {
      let spans: Vec<Span> = order.iter().map(|index| case.spans[*index]).collect();
      let indented = render_spans(Style::Rustc, case.text, &spans);
      let boxed = render_spans(Style::Miette, case.text, &spans);

      assert_ne!(
        indented, boxed,
        "{:?}: the two styles drew the same bytes, so one of them is not a style",
        case.text
      );
      assert_eq!(
        shown(Style::Rustc, &indented, source),
        shown(Style::Miette, &boxed, source),
        "{:?} in caller order {order:?}: the styles disagree about which lines to show\n{indented}\n{boxed}",
        case.text
      );

      let bracketed_ends = asked_for(
        Style::Rustc,
        source,
        &spans
          .iter()
          .copied()
          .filter(|span| drawn_rows(source, *span) > 1)
          .collect::<Vec<_>>(),
      );
      assert_eq!(
        without(&marked(Style::Rustc, &indented, source), &bracketed_ends),
        marked(Style::Miette, &boxed, source),
        "{:?} in caller order {order:?}: the two styles mark different source, and the difference \
         is not the multi-line ends the boxed style says in its margin\n{indented}\n{boxed}",
        case.text
      );
    }
  }
}
