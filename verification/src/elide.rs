//! How many lines are left out between two drawn ones, stated once for every output.
//!
//! Every renderer that draws source feeds the same three numbers to [`shown_between`]: the
//! previous anchor (a line an end of some span falls on), the next anchor, and whether a bracket
//! opens at the previous one. Two copies of this rule once drew a diagnostic whose renderings
//! disagreed about which lines a reader was shown; one copy cannot.

use vstd::prelude::*;

verus! {

/// How many lines after a bracket's opening are shown before the rest are elided.
///
/// A layout rule rather than a budget: it makes the number of drawn rows a function of the number
/// of labels, however many lines a span reaches across.
pub const CONTEXT: u64 = 3;

/// The last line drawn between two anchors, as its three clauses say it: context is earned by a
/// bracket opening at `previous` and by nothing else; it never reaches the next anchor; and a
/// single line left over is drawn rather than stood in for by a gap.
pub open spec fn shown_between_spec(previous: int, next: int, opens_a_bracket: bool) -> int {
    let reach = if opens_a_bracket {
        previous + CONTEXT
    } else {
        previous
    };
    let capped = if reach < next - 1 {
        reach
    } else {
        next - 1
    };
    if next - capped == 2 {
        next - 1
    } else {
        capped
    }
}

/// The last line drawn between two anchors, which is `previous` itself when nothing is drawn
/// between them.
///
/// Anchors of one input are strictly increasing, so `next > previous` for every caller.
/// Whatever the inputs, the answer lies in `previous..next`, and the lines it leaves out are never
/// exactly one: a gap stands for at least two lines or for none.
pub fn shown_between(previous: u64, next: u64, opens_a_bracket: bool) -> (shown: u64)
    requires
        previous < next,
        opens_a_bracket ==> previous + CONTEXT <= u64::MAX,
    ensures
        shown == shown_between_spec(previous as int, next as int, opens_a_bracket),
        previous <= shown < next,
        next - 1 - shown != 1,
{
    let context = if opens_a_bracket {
        previous + CONTEXT
    } else {
        previous
    };
    let last = next - 1;
    let mut shown = if context < last {
        context
    } else {
        last
    };
    if next - shown == 2 {
        shown = last;
    }
    shown
}

/// Between two anchors, a bracket opening at the first shows at most `CONTEXT + 1` lines after it
/// and a span that opens no bracket at most one, however far away the next anchor is; and once the
/// next anchor lies more than `CONTEXT + 2` lines on, the lines shown are exactly the context,
/// whichever line that anchor is.
pub proof fn law_the_lines_shown_after_an_anchor_do_not_grow_with_the_distance(
    previous: int,
    next: int,
    farther: int,
)
    requires
        previous < next <= farther,
    ensures
        previous <= shown_between_spec(previous, next, true) <= previous + CONTEXT + 1,
        previous <= shown_between_spec(previous, next, false) <= previous + 1,
        previous + CONTEXT + 2 < next ==> {
            &&& shown_between_spec(previous, next, true) == previous + CONTEXT
            &&& shown_between_spec(previous, farther, true) == previous + CONTEXT
        },
{
}

} // verus!
