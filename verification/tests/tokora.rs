use painty::tokora::adapt;
use painty::{Label, Location, PathSegment, Severity, Source, Span};

fn labels_of(count: usize) -> impl Fn(usize) -> Option<Label<'static>> {
  move |index| {
    if index < count {
      Some(Label::new(Location::new(0, Span::new(index, index + 1)), "label"))
    } else {
      None
    }
  }
}

fn no_path(_: usize) -> Option<PathSegment<'static>> {
  None
}

#[test]
fn a_diagnostic_that_fits_arrives_whole() {
  let mut labels = [Label::new(Location::entire(0), ""); 4];
  let mut path: [PathSegment<'_>; 0] = [];
  let adapted = adapt(
    "mylang::resolve::redefined",
    Severity::Error,
    "`width` is defined twice",
    Location::new(0, Span::new(29, 34)),
    Some("redefined here"),
    Some("rename one of the two definitions"),
    |index| {
      (index == 0).then(|| Label::new(Location::new(0, Span::new(16, 21)), "first defined here"))
    },
    no_path,
    &mut labels,
    &mut path,
  );
  assert!(adapted.is_complete());
  assert!(!adapted.labels_dropped());
  assert!(!adapted.path_segments_dropped());

  let diagnostic = adapted.diagnostic();
  assert_eq!(diagnostic.code(), "mylang::resolve::redefined");
  assert_eq!(diagnostic.severity(), Severity::Error);
  assert_eq!(diagnostic.message(), "`width` is defined twice");
  assert_eq!(diagnostic.labels().len(), 1);
  assert_eq!(diagnostic.labels()[0].text(), "first defined here");
  assert_eq!(diagnostic.primary_label(), Some("redefined here"));
  assert_eq!(diagnostic.help(), Some("rename one of the two definitions"));

  let source = Source::new("type Widget {\n  width: Int\n  width: Int\n}\n");
  let primary = source.resolve(diagnostic.primary().span().unwrap());
  assert_eq!((primary.start().line(), primary.start().column()), (3, 3));
  assert_eq!(primary.text(), "width");
}

#[test]
fn a_buffer_too_small_says_so_and_keeps_what_fitted() {
  let mut labels = [Label::new(Location::entire(0), ""); 2];
  let mut path = [PathSegment::Index(0); 1];
  let adapted = adapt(
    "c",
    Severity::Warning,
    "m",
    Location::entire(0),
    None,
    None,
    labels_of(5),
    |index| match index {
      0 => Some(PathSegment::Field("hero")),
      1 => Some(PathSegment::Index(3)),
      _ => None,
    },
    &mut labels,
    &mut path,
  );
  assert!(!adapted.is_complete());
  assert!(adapted.labels_dropped());
  assert!(adapted.path_segments_dropped());
  let diagnostic = adapted.diagnostic();
  assert_eq!(diagnostic.labels().len(), 2);
  assert_eq!(diagnostic.labels()[1].location(), Location::new(0, Span::new(1, 2)));
  assert_eq!(diagnostic.path(), &[PathSegment::Field("hero")]);
}

#[test]
fn a_buffer_filled_exactly_is_complete() {
  let mut labels = [Label::new(Location::entire(0), ""); 3];
  let mut path: [PathSegment<'_>; 0] = [];
  let adapted = adapt(
    "c",
    Severity::Advice,
    "m",
    Location::entire(0),
    None,
    None,
    labels_of(3),
    no_path,
    &mut labels,
    &mut path,
  );
  assert!(adapted.is_complete());
  assert_eq!(adapted.diagnostic().labels().len(), 3);
}

#[test]
fn the_walk_stops_at_the_first_missing_label() {
  let mut labels = [Label::new(Location::entire(0), ""); 4];
  let mut path: [PathSegment<'_>; 0] = [];
  let adapted = adapt(
    "c",
    Severity::Error,
    "m",
    Location::entire(0),
    None,
    None,
    |index| {
      if index == 1 {
        None
      } else {
        Some(Label::new(Location::entire(0), "present"))
      }
    },
    no_path,
    &mut labels,
    &mut path,
  );
  assert!(adapted.is_complete());
  assert_eq!(adapted.diagnostic().labels().len(), 1);
}
