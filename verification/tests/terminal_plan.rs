use painty::terminal::plan::{connector_columns, connectors, Connector, Part, Placement};

fn placement(first: u64, last: u64, at: u64) -> Placement {
  Placement { first, last, at }
}

#[test]
fn a_span_opening_inside_another_runs_to_its_right() {
  let placements = vec![placement(1, 10, 0), placement(2, 3, 1), placement(5, 8, 2)];
  assert_eq!(connector_columns(&placements), vec![1, 2, 2]);
}

#[test]
fn a_column_is_one_right_of_the_deepest_still_open_even_when_a_shallower_one_closed() {
  let placements = vec![placement(1, 4, 0), placement(2, 10, 1), placement(5, 6, 2)];
  assert_eq!(connector_columns(&placements), vec![1, 2, 3]);
}

#[test]
fn the_outermost_span_is_placed_first_whatever_the_callers_order() {
  let placements = vec![placement(3, 4, 0), placement(3, 9, 1), placement(1, 2, 2)];
  assert_eq!(connector_columns(&placements), vec![2, 1, 1]);
}

#[test]
fn spans_that_never_overlap_share_the_first_column() {
  let placements = vec![placement(1, 2, 0), placement(3, 4, 1), placement(5, 9, 2)];
  assert_eq!(connector_columns(&placements), vec![1, 1, 1]);
}

#[test]
fn spans_open_together_never_share_a_column() {
  let placements = vec![
    placement(1, 4, 0),
    placement(2, 10, 1),
    placement(4, 6, 2),
    placement(7, 12, 3),
    placement(7, 8, 4),
  ];
  let depths = connector_columns(&placements);
  for i in 0..placements.len() {
    for j in 0..placements.len() {
      let overlap = placements[i].first <= placements[j].last && placements[j].first <= placements[i].last;
      if i != j && overlap {
        assert_ne!(depths[i], depths[j], "{i} and {j} in {depths:?}");
      }
    }
  }
}

#[test]
fn the_connectors_carry_the_lines_and_the_columns() {
  let placements = vec![placement(2, 5, 0), placement(3, 4, 1)];
  let placed = connectors(&placements);
  assert_eq!(placed, vec![Connector { first: 2, last: 5, depth: 1 }, Connector { first: 3, last: 4, depth: 2 }]);
}

#[test]
fn a_row_shows_the_part_of_a_bracket_it_falls_on() {
  let connector = Connector { first: 3, last: 6, depth: 1 };
  assert_eq!(connector.part_on(2), None);
  assert_eq!(connector.part_on(3), Some(Part::Opens));
  assert_eq!(connector.part_on(4), Some(Part::Runs));
  assert_eq!(connector.part_on(6), Some(Part::Closes));
  assert_eq!(connector.part_on(7), None);
  assert!(connector.spans_the_gap(4, 6));
  assert!(!connector.spans_the_gap(2, 5));
  assert!(!connector.spans_the_gap(4, 7));
}
