//! The connector columns of the spans that reach across lines.
//!
//! A span drawn on more than one line is bracketed down the margin, and spans open at the same
//! time need separate columns: one column would leave a reader unable to tell which opening a
//! closing belongs to. The spans are placed outermost first, in the order of the line they open
//! on, the one closing later first, then the caller's order; each takes the column after the
//! deepest one still open where it opens, so a span opening later runs to the right of every span
//! already open.

use vstd::prelude::*;

verus! {

/// Where a span that reaches another line is drawn: the line it opens on, the line it closes on,
/// and where it stood in the caller's order.
#[derive(Debug, Clone, Copy, PartialEq, Eq, Structural)]
pub struct Placement {
    pub first: u64,
    pub last: u64,
    pub at: u64,
}

/// Whether the span at `i` is placed before the one at `j`: it opens on an earlier line, or on
/// the same line and closes later, or closes on the same line too and came first in the caller's
/// order (and, between two placements that agree on all three, the earlier in the list).
pub open spec fn placed_before(placements: Seq<Placement>, i: int, j: int) -> bool {
    let a = placements[i];
    let b = placements[j];
    ||| a.first < b.first
    ||| a.first == b.first && a.last > b.last
    ||| a.first == b.first && a.last == b.last && a.at < b.at
    ||| a.first == b.first && a.last == b.last && a.at == b.at && i < j
}

/// Whether the span at `i`, placed before the one at `j`, is still open on the line `j` opens on.
pub open spec fn open_where_it_opens(placements: Seq<Placement>, i: int, j: int) -> bool {
    placed_before(placements, i, j) && placements[i].last >= placements[j].first
}

/// The column rule for the span at `j`: one to the right of the deepest span placed before it
/// that is still open where it opens, and the first column when there is none.
pub open spec fn column_rule(placements: Seq<Placement>, depths: Seq<u64>, j: int) -> bool {
    &&& forall|i: int|
        0 <= i < placements.len() && #[trigger] open_where_it_opens(placements, i, j) ==> depths[i]
            < depths[j]
    &&& (depths[j] == 1 || exists|i: int|
        0 <= i < placements.len() && #[trigger] open_where_it_opens(placements, i, j) && depths[j]
            == depths[i] + 1)
}

/// Whether `order` holds the index `i`.
pub open spec fn lists(order: Seq<usize>, i: int) -> bool {
    exists|k: int| 0 <= k < order.len() && order[k] == i
}

/// Whether `order` lists every index of `placements` once, in the order they are placed.
pub open spec fn placing(placements: Seq<Placement>, order: Seq<usize>) -> bool {
    &&& order.len() == placements.len()
    &&& forall|k: int| 0 <= k < order.len() ==> #[trigger] order[k] < placements.len()
    &&& forall|k1: int, k2: int|
        0 <= k1 < k2 < order.len() ==> placed_before(
            placements,
            #[trigger] order[k1] as int,
            #[trigger] order[k2] as int,
        )
    &&& forall|i: int| 0 <= i < placements.len() ==> #[trigger] lists(order, i)
}

/// Whether the span at `i` is placed before the one at `j`.
fn placed_before_exec(placements: &Vec<Placement>, i: usize, j: usize) -> (before: bool)
    requires
        i < placements.len(),
        j < placements.len(),
    ensures
        before == placed_before(placements@, i as int, j as int),
{
    let a = placements[i];
    let b = placements[j];
    if a.first != b.first {
        a.first < b.first
    } else if a.last != b.last {
        a.last > b.last
    } else if a.at != b.at {
        a.at < b.at
    } else {
        i < j
    }
}

/// The indices of `placements`, in the order they are placed.
fn placing_order(placements: &Vec<Placement>) -> (order: Vec<usize>)
    ensures
        placing(placements@, order@),
{
    let mut order: Vec<usize> = Vec::new();
    let mut next: usize = 0;
    while next < placements.len()
        invariant
            next <= placements.len(),
            order.len() == next,
            forall|k: int| 0 <= k < order.len() ==> #[trigger] order[k] < next,
            forall|k1: int, k2: int|
                0 <= k1 < k2 < order.len() ==> placed_before(
                    placements@,
                    #[trigger] order[k1] as int,
                    #[trigger] order[k2] as int,
                ),
            forall|x: int| 0 <= x < next ==> #[trigger] lists(order@, x),
        decreases placements.len() - next,
    {
        let mut at: usize = 0;
        while at < order.len() && placed_before_exec(placements, order[at], next)
            invariant
                at <= order.len(),
                order.len() == next,
                next < placements.len(),
                forall|k: int| 0 <= k < order.len() ==> #[trigger] order[k] < next,
                forall|k: int| 0 <= k < at ==> placed_before(placements@, #[trigger] order[k] as int, next as int),
            decreases order.len() - at,
        {
            at = at + 1;
        }
        let ghost before = order@;
        proof {
            if at < order.len() {
                assert(!placed_before(placements@, order[at as int] as int, next as int));
                assert forall|k: int| at <= k < order.len() implies placed_before(
                    placements@,
                    next as int,
                    #[trigger] order[k] as int,
                ) by {
                    if k > at {
                        assert(placed_before(placements@, order[at as int] as int, order[k] as int));
                    }
                }
            }
        }
        order.insert(at, next);
        proof {
            assert(order@ == before.insert(at as int, next));
            assert forall|k1: int, k2: int|
                0 <= k1 < k2 < order.len() implies placed_before(
                    placements@,
                    #[trigger] order[k1] as int,
                    #[trigger] order[k2] as int,
                ) by {
                if k2 < at {
                    assert(order[k1] == before[k1] && order[k2] == before[k2]);
                } else if k2 == at {
                    assert(order[k1] == before[k1]);
                } else if k1 < at {
                    assert(order[k1] == before[k1] && order[k2] == before[k2 - 1]);
                } else if k1 == at {
                    assert(order[k2] == before[k2 - 1]);
                } else {
                    assert(order[k1] == before[k1 - 1] && order[k2] == before[k2 - 1]);
                }
            }
            assert forall|x: int| 0 <= x < next + 1 implies #[trigger] lists(order@, x) by {
                if x == next {
                    assert(order[at as int] == x as usize);
                } else {
                    assert(lists(before, x));
                    let k = choose|k: int| 0 <= k < before.len() && before[k] == x;
                    if k < at {
                        assert(order[k] == x as usize);
                    } else {
                        assert(order[k + 1] == x as usize);
                    }
                }
            }
            assert forall|k: int| 0 <= k < order.len() implies #[trigger] order[k] < next + 1 by {
                if k < at {
                    assert(order[k] == before[k]);
                } else if k > at {
                    assert(order[k] == before[k - 1]);
                }
            }
        }
        next = next + 1;
    }
    order
}

/// The position of `i` in a placing order, and that everything placed before `i` stands before it.
proof fn lemma_placed_earlier(placements: Seq<Placement>, order: Seq<usize>, i: int) -> (k: int)
    requires
        placing(placements, order),
        0 <= i < placements.len(),
    ensures
        0 <= k < order.len(),
        order[k] == i,
        forall|h: int|
            0 <= h < placements.len() && placed_before(placements, h, i) ==> exists|k2: int|
                0 <= k2 < k && order[k2] == h,
{
    assert(lists(order, i));
    let k = choose|k: int| 0 <= k < order.len() && order[k] == i;
    assert forall|h: int|
        0 <= h < placements.len() && placed_before(placements, h, i) implies exists|k2: int|
            0 <= k2 < k && order[k2] == h by {
        assert(lists(order, h));
        let k2 = choose|k2: int| 0 <= k2 < order.len() && order[k2] == h;
        if k2 > k {
            assert(placed_before(placements, order[k] as int, order[k2] as int));
        }
        assert(k2 != k);
    }
    k
}

/// The connector column of each span, counting from 1: one to the right of the deepest span
/// placed before it that is still open on the line it opens on.
pub fn connector_columns(placements: &Vec<Placement>) -> (depths: Vec<u64>)
    ensures
        depths.len() == placements.len(),
        forall|j: int| 0 <= j < depths.len() ==> 1 <= #[trigger] depths[j] <= placements.len(),
        column_rule_holds(placements@, depths@),
{
    let order = placing_order(placements);
    let count = placements.len();
    let mut depths: Vec<u64> = Vec::new();
    while depths.len() < count
        invariant
            depths.len() <= count,
            count == placements.len(),
        decreases count - depths.len(),
    {
        depths.push(0);
    }
    // Still open, in the order they were placed: the line each closes on, its column, and its
    // place in `order`.
    let mut open: Vec<(u64, u64, usize)> = Vec::new();
    let mut step: usize = 0;
    while step < count
        invariant
            placing(placements@, order@),
            count == placements.len(),
            depths.len() == count,
            step <= count,
            // The columns of the placed spans follow the rule among the placed spans.
            forall|k: int|
                0 <= k < step ==> 1 <= #[trigger] depths[order[k] as int] <= step,
            forall|k: int, h: int|
                0 <= h < k < step && open_where_it_opens(
                    placements@,
                    #[trigger] order[h] as int,
                    #[trigger] order[k] as int,
                ) ==> depths[order[h] as int] < depths[order[k] as int],
            forall|k: int|
                0 <= k < step ==> (depths[order[k] as int] == 1 || exists|h: int|
                    0 <= h < k && #[trigger] open_where_it_opens(
                        placements@,
                        order[h] as int,
                        order[k] as int,
                    ) && depths[order[k] as int] == depths[order[h] as int] + 1),
            // The stack: placed spans, their columns rising.
            forall|s: int|
                0 <= s < open.len() ==> #[trigger] open[s].2 < step && open[s].0
                    == placements[order[open[s].2 as int] as int].last && open[s].1
                    == depths[order[open[s].2 as int] as int],
            forall|s1: int, s2: int|
                0 <= s1 < s2 < open.len() ==> #[trigger] open[s1].1 < #[trigger] open[s2].1,
            // A placed span off the stack closed before the last placed one opened.
            forall|k: int|
                0 <= k < step ==> (exists|s: int| 0 <= s < open.len() && #[trigger] open[s].2 == k)
                    || placements[order[k] as int].last < placements[order[step - 1] as int].first,
        decreases count - step,
    {
        let index = order[step];
        let first = placements[index].first;
        proof {
            if step > 0 {
                assert(placed_before(placements@, order[step - 1] as int, order[step as int] as int));
            }
        }
        while open.len() > 0 && open[open.len() - 1].0 < first
            invariant
                forall|s: int|
                    0 <= s < open.len() ==> #[trigger] open[s].2 < step && open[s].0
                        == placements[order[open[s].2 as int] as int].last && open[s].1
                        == depths[order[open[s].2 as int] as int],
                forall|s1: int, s2: int|
                    0 <= s1 < s2 < open.len() ==> #[trigger] open[s1].1 < #[trigger] open[s2].1,
                forall|k: int|
                    0 <= k < step ==> (exists|s: int|
                        0 <= s < open.len() && #[trigger] open[s].2 == k)
                        || placements[order[k] as int].last < first,
                step < count,
                count == placements.len(),
                order.len() == count,
                first == placements[order[step as int] as int].first,
            decreases open.len(),
        {
            let ghost popped = open[open.len() - 1];
            let ghost before = open@;
            open.pop();
            proof {
                assert forall|k: int|
                    0 <= k < step implies (exists|s: int|
                        0 <= s < open.len() && #[trigger] open[s].2 == k)
                        || placements[order[k] as int].last < first by {
                    if exists|s: int| 0 <= s < before.len() && #[trigger] before[s].2 == k {
                        let s = choose|s: int| 0 <= s < before.len() && #[trigger] before[s].2 == k;
                        if s < open.len() {
                            assert(open[s] == before[s]);
                        }
                    }
                }
            }
        }
        proof {
            if open.len() > 0 {
                let top = open[open.len() - 1];
                assert(depths[order[top.2 as int] as int] <= step);
            }
        }
        let depth: u64 = if open.len() == 0 {
            1
        } else {
            open[open.len() - 1].1 + 1
        };
        proof {
            let j = order[step as int] as int;
            // Every placed span still open here is on the stack, no deeper than its top.
            assert forall|h: int|
                0 <= h < step && open_where_it_opens(
                    placements@,
                    #[trigger] order[h] as int,
                    j,
                ) implies depths[order[h] as int] < depth by {
                let s = choose|s: int| 0 <= s < open.len() && #[trigger] open[s].2 == h;
                if s < open.len() - 1 {
                    assert(open[s].1 < open[open.len() - 1].1);
                }
            }
            if open.len() > 0 {
                let top = open[open.len() - 1];
                assert(open_where_it_opens(placements@, order[top.2 as int] as int, j)) by {
                    assert(placed_before(placements@, order[top.2 as int] as int, j));
                }
                assert(depths[order[top.2 as int] as int] <= step);
            }
        }
        let ghost earlier = depths@;
        depths.set(index, depth);
        proof {
            let j = order[step as int] as int;
            assert forall|k: int| 0 <= k < step implies #[trigger] depths[order[k] as int]
                == earlier[order[k] as int] by {
                assert(order[k] != order[step as int]) by {
                    assert(placed_before(placements@, order[k] as int, order[step as int] as int));
                }
            }
            if open.len() > 0 {
                let top = open[open.len() - 1];
                assert(open_where_it_opens(placements@, order[top.2 as int] as int, j));
            }
        }
        let ghost kept = open@;
        open.push((placements[index].last, depth, step));
        proof {
            assert forall|s: int|
                0 <= s < open.len() implies #[trigger] open[s].2 < step + 1 && open[s].0
                    == placements[order[open[s].2 as int] as int].last && open[s].1
                    == depths[order[open[s].2 as int] as int] by {
                if s < kept.len() {
                    assert(open[s] == kept[s]);
                    assert(order[open[s].2 as int] != order[step as int]) by {
                        assert(placed_before(
                            placements@,
                            order[open[s].2 as int] as int,
                            order[step as int] as int,
                        ));
                    }
                }
            }
            assert forall|k: int|
                0 <= k < step + 1 implies (exists|s: int|
                    0 <= s < open.len() && #[trigger] open[s].2 == k)
                    || placements[order[k] as int].last < placements[order[step as int] as int].first by {
                if k == step {
                    assert(open[open.len() - 1].2 == k);
                } else if exists|s: int| 0 <= s < kept.len() && #[trigger] kept[s].2 == k {
                    let s = choose|s: int| 0 <= s < kept.len() && #[trigger] kept[s].2 == k;
                    assert(open[s] == kept[s]);
                }
            }
        }
        step = step + 1;
    }
    proof {
        assert forall|j: int| 0 <= j < depths.len() implies 1 <= #[trigger] depths[j] <= placements.len()
            && column_rule(placements@, depths@, j) by {
            let k = lemma_placed_earlier(placements@, order@, j);
            assert(1 <= depths[order[k] as int]);
            assert forall|i: int|
                0 <= i < placements.len() && #[trigger] open_where_it_opens(
                    placements@,
                    i,
                    j,
                ) implies depths[i] < depths[j] by {
                let h = choose|h: int| 0 <= h < k && order[h] == i;
                assert(open_where_it_opens(placements@, order[h] as int, order[k] as int));
            }
            if depths[j] != 1 {
                let h = choose|h: int|
                    0 <= h < k && #[trigger] open_where_it_opens(
                        placements@,
                        order[h] as int,
                        order[k] as int,
                    ) && depths[order[k] as int] == depths[order[h] as int] + 1;
                assert(open_where_it_opens(placements@, order[h] as int, j));
            }
        }
    }
    depths
}

/// Which part of a bracket a source row shows.
#[derive(Debug, Clone, Copy, PartialEq, Eq, Structural)]
pub enum Part {
    /// The row the span opens on.
    Opens,
    /// A row between its two ends.
    Runs,
    /// The row it closes on.
    Closes,
}

/// One multi-line span's connector: the rows it runs down and the column it runs in, counting
/// from 1.
#[derive(Debug, Clone, Copy, PartialEq, Eq, Structural)]
pub struct Connector {
    pub first: u64,
    pub last: u64,
    pub depth: u64,
}

impl Connector {
    /// Which part of this bracket the source row of `line` shows, and `None` where the bracket is
    /// not open at all.
    pub fn part_on(&self, line: u64) -> (part: Option<Part>)
        ensures
            part == if line < self.first || line > self.last {
                None
            } else if line == self.first {
                Some(Part::Opens)
            } else if line == self.last {
                Some(Part::Closes)
            } else {
                Some(Part::Runs)
            },
    {
        if line < self.first || line > self.last {
            None
        } else if line == self.first {
            Some(Part::Opens)
        } else if line == self.last {
            Some(Part::Closes)
        } else {
            Some(Part::Runs)
        }
    }

    /// Whether the connector runs through the lines left out between `above` and `below`.
    pub fn spans_the_gap(&self, above: u64, below: u64) -> (spans: bool)
        ensures
            spans == (self.first <= above && self.last >= below),
    {
        self.first <= above && self.last >= below
    }
}

/// The connectors of `placements`, each in the column the column rule gives it.
pub fn connectors(placements: &Vec<Placement>) -> (placed: Vec<Connector>)
    ensures
        placed.len() == placements.len(),
        forall|j: int|
            0 <= j < placed.len() ==> (#[trigger] placed[j]).first == placements[j].first
                && placed[j].last == placements[j].last && 1 <= placed[j].depth <= placements.len(),
        column_rule_holds(placements@, placed@.map_values(|connector: Connector| connector.depth)),
{
    let depths = connector_columns(placements);
    let mut placed: Vec<Connector> = Vec::new();
    let mut index: usize = 0;
    while index < placements.len()
        invariant
            index <= placements.len(),
            depths.len() == placements.len(),
            placed.len() == index,
            forall|j: int|
                0 <= j < index ==> (#[trigger] placed[j]).first == placements[j].first
                    && placed[j].last == placements[j].last && placed[j].depth == depths[j],
        decreases placements.len() - index,
    {
        placed.push(
            Connector {
                first: placements[index].first,
                last: placements[index].last,
                depth: depths[index],
            },
        );
        index = index + 1;
    }
    proof {
        assert(placed@.map_values(|connector: Connector| connector.depth) =~= depths@);
    }
    placed
}

/// Whether every span's column follows the column rule.
pub open spec fn column_rule_holds(placements: Seq<Placement>, depths: Seq<u64>) -> bool {
    &&& depths.len() == placements.len()
    &&& forall|j: int| 0 <= j < depths.len() ==> #[trigger] column_rule(placements, depths, j)
}

/// Every span open on a row has a connector column to itself: two spans whose lines overlap
/// never run down the same column.
pub proof fn law_spans_open_together_never_share_a_column(
    placements: Seq<Placement>,
    depths: Seq<u64>,
    i: int,
    j: int,
)
    requires
        column_rule_holds(placements, depths),
        0 <= i < placements.len(),
        0 <= j < placements.len(),
        i != j,
        placements[i].first <= placements[j].last,
        placements[j].first <= placements[i].last,
    ensures
        depths[i] != depths[j],
{
    assert(column_rule(placements, depths, i));
    assert(column_rule(placements, depths, j));
    if placed_before(placements, i, j) {
        assert(open_where_it_opens(placements, i, j));
    } else {
        assert(open_where_it_opens(placements, j, i));
    }
}

} // verus!
