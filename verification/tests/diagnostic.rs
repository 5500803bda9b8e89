use painty::{Diagnostic, Label, Location, PathSegment, Severity, Span};

#[test]
fn a_span_reports_what_it_covers() {
  let span = Span::new(4, 9);
  assert_eq!((span.start(), span.end(), span.len()), (4, 9, 5));
  assert!(!span.is_empty());
  assert!(span.contains(4));
  assert!(span.contains(8));
  assert!(!span.contains(9));

  let caret = Span::empty(4);
  assert!(caret.is_empty());
  assert_eq!(caret.len(), 0);
  // Half-open, so an empty span contains nothing at all — not even its own offset.
  assert!(!caret.contains(4));
}

#[test]
fn a_location_keeps_the_difference_between_a_range_and_a_whole_input() {
  let at = Location::new(3, Span::new(1, 2));
  assert_eq!(at.source(), 3);
  assert_eq!(at.span(), Some(Span::new(1, 2)));
  assert!(!at.is_entire());

  let whole = Location::entire(3);
  assert_eq!(whole.source(), 3);
  assert_eq!(whole.span(), None);
  assert!(whole.is_entire());
  assert_ne!(at, whole);
}

#[test]
fn ordering_puts_an_unpositioned_label_first_within_its_input() {
  let mut labels = [
    Label::new(Location::new(0, Span::new(1, 2)), "positioned"),
    Label::new(Location::entire(0), "whole input"),
  ];
  Label::order(&mut labels);

  assert_eq!(labels[0].text(), "whole input");
  assert_eq!(labels[1].text(), "positioned");
}

#[test]
fn ordering_is_by_input_before_offset() {
  let mut labels = [
    Label::new(
      Location::new(1, Span::new(0, 1)),
      "second input, first byte",
    ),
    Label::new(Location::new(0, Span::new(90, 99)), "first input, late"),
  ];
  Label::order(&mut labels);

  assert_eq!(labels[0].text(), "first input, late");
  assert_eq!(labels[1].text(), "second input, first byte");
}

#[test]
fn ordering_puts_an_enclosing_range_before_the_one_nested_in_it() {
  let mut labels = [
    Label::new(Location::new(0, Span::new(4, 8)), "nested"),
    Label::new(Location::new(0, Span::new(4, 20)), "encloses"),
    Label::new(
      Location::new(0, Span::new(4, 4)),
      "empty, at the same place",
    ),
  ];
  Label::order(&mut labels);

  assert_eq!(labels[0].text(), "encloses");
  assert_eq!(labels[1].text(), "nested");
  assert_eq!(labels[2].text(), "empty, at the same place");
}

#[test]
fn ordering_breaks_a_remaining_tie_on_the_text_so_it_is_deterministic() {
  let location = Location::new(0, Span::new(4, 8));
  let mut labels = [
    Label::new(location, "zebra"),
    Label::new(location, "alpha"),
    Label::new(location, "mango"),
  ];
  Label::order(&mut labels);

  assert_eq!(labels[0].text(), "alpha");
  assert_eq!(labels[1].text(), "mango");
  assert_eq!(labels[2].text(), "zebra");
}

#[test]
fn ordering_keeps_every_label_it_was_given() {
  let original = [
    Label::new(Location::new(0, Span::new(9, 12)), "c"),
    Label::new(Location::new(0, Span::new(1, 4)), "a"),
    Label::new(Location::entire(1), "d"),
    Label::new(Location::new(0, Span::new(5, 6)), "b"),
  ];
  let mut ordered = original;
  Label::order(&mut ordered);

  for label in &original {
    assert!(ordered.contains(label), "{label:?} was lost");
  }
  assert_eq!(ordered.len(), original.len());
}

#[test]
fn a_diagnostic_starts_with_only_what_every_diagnostic_has() {
  let message = "unbalanced braces";
  let diagnostic = Diagnostic::new(
    "mylang::parse::unbalanced",
    Severity::Warning,
    message,
    Location::new(0, Span::new(2, 3)),
  );

  assert_eq!(diagnostic.code(), "mylang::parse::unbalanced");
  assert_eq!(diagnostic.severity(), Severity::Warning);
  assert_eq!(diagnostic.primary(), Location::new(0, Span::new(2, 3)));
  assert_eq!(diagnostic.primary_label(), None);
  assert!(diagnostic.labels().is_empty());
  assert!(diagnostic.path().is_empty());
  assert_eq!(diagnostic.help(), None);
}

#[test]
fn the_optional_parts_are_the_ones_that_are_attached() {
  let message = "unbalanced braces";
  let labels = [Label::new(Location::new(0, Span::new(0, 1)), "opened here")];
  let path = [PathSegment::Field("hero"), PathSegment::Index(0)];

  let diagnostic = Diagnostic::new(
    "mylang::parse::unbalanced",
    Severity::Error,
    message,
    Location::new(0, Span::new(2, 3)),
  )
  .with_primary_label("expected `}`")
  .with_labels(&labels)
  .with_path(&path)
  .with_help("close the block");

  assert_eq!(diagnostic.primary_label(), Some("expected `}`"));
  assert_eq!(diagnostic.labels(), &labels);
  assert_eq!(diagnostic.path(), &path);
  assert_eq!(diagnostic.help(), Some("close the block"));
}

#[test]
fn ordering_follows_the_documented_example() {
  let mut labels = [
    Label::new(Location::new(0, Span::new(20, 24)), "third"),
    Label::new(Location::new(0, Span::new(4, 12)), "second, and it encloses"),
    Label::new(Location::new(0, Span::new(4, 8)), "the one nested inside it"),
    Label::new(Location::entire(0), "first, no position of its own"),
  ];
  Label::order(&mut labels);
  let texts: Vec<&str> = labels.iter().map(|label| label.text()).collect();
  assert_eq!(
    texts,
    [
      "first, no position of its own",
      "second, and it encloses",
      "the one nested inside it",
      "third",
    ]
  );
}

#[test]
fn ordering_compares_text_byte_by_byte_and_a_prefix_first() {
  let location = Location::new(0, Span::new(1, 2));
  let mut labels = [
    Label::new(location, "ab"),
    Label::new(location, "a"),
    Label::new(location, "B"),
    Label::new(location, "\u{e9}"),
  ];
  Label::order(&mut labels);
  let texts: Vec<&str> = labels.iter().map(|label| label.text()).collect();
  assert_eq!(texts, ["B", "a", "ab", "\u{e9}"]);

  let mut empty: [Label<'_>; 0] = [];
  Label::order(&mut empty);
}

#[test]
fn a_path_segment_writes_itself() {
  assert_eq!(PathSegment::Field("hero").to_string(), "hero");
  assert_eq!(PathSegment::Index(0).to_string(), "0");
  assert_eq!(PathSegment::Index(1234567).to_string(), "1234567");
  assert_eq!(Severity::Warning.as_str(), "warning");
}

#[test]
fn a_location_names_a_range_or_a_whole_input() {
  let at = Location::new(0, Span::new(12, 19));
  assert_eq!(at.source(), 0);
  assert_eq!(at.span(), Some(Span::new(12, 19)));
  assert!(!at.is_entire());

  let whole = Location::entire(1);
  assert_eq!(whole.span(), None);
  assert!(whole.is_entire());
}

#[test]
fn a_label_keeps_its_text_and_location() {
  let label = Label::new(Location::new(0, Span::new(3, 7)), "first defined here");
  assert_eq!(label.text(), "first defined here");
  assert_eq!(label.location().span(), Some(Span::new(3, 7)));
}

#[test]
fn a_diagnostic_is_built_up_and_read_back() {
  let message = format!("`{}` is defined twice", "width");
  let labels = [Label::new(Location::new(0, Span::new(8, 13)), "first defined here")];

  let diagnostic = Diagnostic::new(
    "mylang::resolve::redefined",
    Severity::Error,
    &message,
    Location::new(0, Span::new(40, 45)),
  )
  .with_primary_label("redefined here")
  .with_labels(&labels)
  .with_help("rename one of the two definitions");

  assert_eq!(diagnostic.code(), "mylang::resolve::redefined");
  assert_eq!(diagnostic.labels().len(), 1);
  assert_eq!(diagnostic.help(), Some("rename one of the two definitions"));
  assert_eq!(diagnostic.message().to_string(), "`width` is defined twice");
}

#[test]
fn a_result_path_reads_as_its_segments() {
  let path = [PathSegment::Field("heroes"), PathSegment::Index(2), PathSegment::Field("name")];
  let rendered: Vec<String> = path.iter().map(|segment| segment.to_string()).collect();
  assert_eq!(rendered, ["heroes", "2", "name"]);
}

#[test]
fn a_severity_is_named_in_lower_case() {
  assert_eq!(Severity::Error.as_str(), "error");
  assert_eq!(Severity::Warning.as_str(), "warning");
  assert_eq!(Severity::Advice.as_str(), "advice");
}
