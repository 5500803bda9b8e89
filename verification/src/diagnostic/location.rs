use vstd::prelude::*;
use vstd::relations::sorted_by;
use vstd::string::StringSliceAdditionalSpecFns;

use super::Span;

verus! {

/// A position in one of the inputs a diagnostic was produced from.
///
/// `source` names which input, as an index into the caller's list. [`Location::entire`] is the
/// honest answer for an input with no positions: its span is `None`, rather than a fabricated
/// `0..len`.
#[derive(Debug, Clone, Copy, PartialEq, Eq, Hash)]
pub struct Location {
    source: u32,
    span: Option<Span>,
}

impl Location {
    /// Which input the location belongs to.
    pub closed spec fn source_spec(self) -> u32 {
        self.source
    }

    /// The byte range, or `None` for the whole input.
    pub closed spec fn span_spec(self) -> Option<Span> {
        self.span
    }

    /// A range within `source`.
    pub fn new(source: u32, span: Span) -> (location: Self)
        ensures
            location.source_spec() == source,
            location.span_spec() == Some(span),
    {
        Self { source, span: Some(span) }
    }

    /// The whole of `source`, for an input with no positions to point at.
    pub fn entire(source: u32) -> (location: Self)
        ensures
            location.source_spec() == source,
            location.span_spec().is_none(),
    {
        Self { source, span: None }
    }

    /// Returns which input the location belongs to.
    pub fn source(&self) -> (source: u32)
        ensures
            source == self.source_spec(),
    {
        self.source
    }

    /// Returns the byte range, or `None` when the location is the whole input.
    pub fn span(&self) -> (span: Option<Span>)
        ensures
            span == self.span_spec(),
    {
        self.span
    }

    /// Returns whether the location is the whole input rather than a range within it.
    pub fn is_entire(&self) -> (entire: bool)
        ensures
            entire == self.span_spec().is_none(),
    {
        self.span.is_none()
    }
}

/// A secondary position with a phrase explaining what is there.
#[derive(Debug, Clone, Copy, PartialEq, Eq, Hash)]
pub struct Label<'a> {
    location: Location,
    text: &'a str,
}

impl<'a> Label<'a> {
    /// Where the label points.
    pub closed spec fn location_spec(self) -> Location {
        self.location
    }

    /// What the label says.
    pub closed spec fn text_spec(self) -> &'a str {
        self.text
    }

    /// Attaches `text` to `location`.
    pub fn new(location: Location, text: &'a str) -> (label: Self)
        ensures
            label.location_spec() == location,
            label.text_spec() == text,
    {
        Self { location, text }
    }

    /// Returns where the label points.
    pub fn location(&self) -> (location: Location)
        ensures
            location == self.location_spec(),
    {
        self.location
    }

    /// Returns what the label says.
    pub fn text(&self) -> (text: &'a str)
        ensures
            text == self.text_spec(),
    {
        self.text
    }
}

/// Lexicographic order on bytes, which is the order `str` compares in.
pub open spec fn bytes_le(a: Seq<u8>, b: Seq<u8>) -> bool
    decreases a.len(),
{
    if a.len() == 0 {
        true
    } else if b.len() == 0 {
        false
    } else if a[0] != b[0] {
        a[0] < b[0]
    } else {
        bytes_le(a.drop_first(), b.drop_first())
    }
}

/// The order labels are walked in: by input; within an input, a label about the whole input
/// first; then by where the label starts; for two starting together, the one that ends later
/// first, so an enclosing range precedes the ranges nested in it; and, for what is still tied, by
/// the label's text.
pub open spec fn label_le(a: Label, b: Label) -> bool {
    let (x, y) = (a.location_spec(), b.location_spec());
    if x.source_spec() != y.source_spec() {
        x.source_spec() < y.source_spec()
    } else {
        match (x.span_spec(), y.span_spec()) {
            (None, Some(_)) => true,
            (Some(_), None) => false,
            (Some(left), Some(right)) => if left.start_spec() != right.start_spec() {
                left.start_spec() < right.start_spec()
            } else if left.end_spec() != right.end_spec() {
                left.end_spec() > right.end_spec()
            } else {
                bytes_le(a.text_spec().spec_bytes(), b.text_spec().spec_bytes())
            },
            (None, None) => bytes_le(a.text_spec().spec_bytes(), b.text_spec().spec_bytes()),
        }
    }
}

/// Any two byte strings are ordered one way or the other.
pub proof fn lemma_bytes_le_total(a: Seq<u8>, b: Seq<u8>)
    ensures
        bytes_le(a, b) || bytes_le(b, a),
    decreases a.len(),
{
    if a.len() > 0 && b.len() > 0 && a[0] == b[0] {
        lemma_bytes_le_total(a.drop_first(), b.drop_first());
    }
}

/// The byte order is transitive.
pub proof fn lemma_bytes_le_transitive(a: Seq<u8>, b: Seq<u8>, c: Seq<u8>)
    requires
        bytes_le(a, b),
        bytes_le(b, c),
    ensures
        bytes_le(a, c),
    decreases a.len(),
{
    if a.len() > 0 && b.len() > 0 && c.len() > 0 && a[0] == b[0] && b[0] == c[0] {
        lemma_bytes_le_transitive(a.drop_first(), b.drop_first(), c.drop_first());
    }
}

/// Two byte strings each ordered before the other are the same.
pub proof fn lemma_bytes_le_antisymmetric(a: Seq<u8>, b: Seq<u8>)
    requires
        bytes_le(a, b),
        bytes_le(b, a),
    ensures
        a == b,
    decreases a.len(),
{
    if a.len() > 0 && b.len() > 0 {
        lemma_bytes_le_antisymmetric(a.drop_first(), b.drop_first());
        assert(a == seq![a[0]] + a.drop_first());
        assert(b == seq![b[0]] + b.drop_first());
    }
}

/// Any two labels are ordered one way or the other.
pub proof fn lemma_label_le_total(a: Label, b: Label)
    ensures
        label_le(a, b) || label_le(b, a),
{
    lemma_bytes_le_total(a.text_spec().spec_bytes(), b.text_spec().spec_bytes());
}

/// The label order is transitive.
pub proof fn lemma_label_le_transitive(a: Label, b: Label, c: Label)
    requires
        label_le(a, b),
        label_le(b, c),
    ensures
        label_le(a, c),
{
    if a.text_spec().spec_bytes() != c.text_spec().spec_bytes() || true {
        if bytes_le(a.text_spec().spec_bytes(), b.text_spec().spec_bytes()) && bytes_le(
            b.text_spec().spec_bytes(),
            c.text_spec().spec_bytes(),
        ) {
            lemma_bytes_le_transitive(
                a.text_spec().spec_bytes(),
                b.text_spec().spec_bytes(),
                c.text_spec().spec_bytes(),
            );
        }
    }
}

/// The order is total over everything a reader can see: two labels each ordered before the
/// other point at the same input and the same range, and say the same thing.
pub proof fn law_labels_tied_both_ways_are_indistinguishable(a: Label, b: Label)
    requires
        label_le(a, b),
        label_le(b, a),
    ensures
        a.location_spec().source_spec() == b.location_spec().source_spec(),
        a.location_spec().span_spec() is Some <==> b.location_spec().span_spec() is Some,
        a.location_spec().span_spec() matches Some(left) ==> b.location_spec().span_spec() matches Some(right)
            && left.start_spec() == right.start_spec() && left.end_spec() == right.end_spec(),
        a.text_spec()@ == b.text_spec()@,
{
    lemma_bytes_le_antisymmetric(a.text_spec().spec_bytes(), b.text_spec().spec_bytes());
    vstd::utf8::encode_utf8_decode_utf8(a.text_spec()@);
    vstd::utf8::encode_utf8_decode_utf8(b.text_spec()@);
}

/// Whether `a` is ordered before or with `b`.
fn label_le_exec(a: &Label, b: &Label) -> (le: bool)
    ensures
        le == label_le(*a, *b),
{
    let (x, y) = (a.location, b.location);
    if x.source() != y.source() {
        return x.source() < y.source();
    }
    match (x.span(), y.span()) {
        (None, Some(_)) => true,
        (Some(_), None) => false,
        (Some(left), Some(right)) => {
            if left.start() != right.start() {
                left.start() < right.start()
            } else if left.end() != right.end() {
                left.end() > right.end()
            } else {
                text_le(a.text, b.text)
            }
        },
        (None, None) => text_le(a.text, b.text),
    }
}

/// Whether `a` sorts before or with `b`, byte by byte.
fn text_le(a: &str, b: &str) -> (le: bool)
    ensures
        le == bytes_le(a.spec_bytes(), b.spec_bytes()),
{
    let x = a.as_bytes();
    let y = b.as_bytes();
    let mut k: usize = 0;
    proof {
        assert(x@.skip(0) =~= x@);
        assert(y@.skip(0) =~= y@);
    }
    while k < x.len() && k < y.len()
        invariant
            x@ == a.spec_bytes(),
            y@ == b.spec_bytes(),
            k <= x.len(),
            k <= y.len(),
            bytes_le(x@, y@) == bytes_le(x@.skip(k as int), y@.skip(k as int)),
        decreases x.len() - k,
    {
        if x[k] != y[k] {
            proof {
                assert(x@.skip(k as int)[0] == x@[k as int]);
                assert(y@.skip(k as int)[0] == y@[k as int]);
            }
            return x[k] < y[k];
        }
        proof {
            assert(x@.skip(k as int).drop_first() == x@.skip(k + 1));
            assert(y@.skip(k as int).drop_first() == y@.skip(k + 1));
        }
        k += 1;
    }
    k == x.len()
}

/// Exchanging two elements of a sequence leaves what it holds unchanged.
proof fn lemma_swap_keeps_multiset<A>(s: Seq<A>, a: int, b: int)
    requires
        0 <= a < s.len(),
        0 <= b < s.len(),
        a != b,
    ensures
        s.update(a, s[b]).update(b, s[a]).to_multiset() == s.to_multiset(),
{
    broadcast use vstd::multiset::group_multiset_axioms;
    let first = s.update(a, s[b]);
    vstd::seq_lib::to_multiset_update(s, a, s[b]);
    vstd::seq_lib::to_multiset_update(first, b, s[a]);
    assert(first[b] == s[b]);
    vstd::seq_lib::to_multiset_contains(s, s[a]);
    assert(s.contains(s[a]));
    assert(first.update(b, s[a]).to_multiset() =~= s.to_multiset());
}

impl<'a> Label<'a> {
    /// Orders labels in place for a single forward walk over the source.
    ///
    /// The order is [`label_le`]: by input, then an unpositioned label first, then by start, then
    /// the one that ends later first, then by text. It is total over everything a reader can see,
    /// so which of two tied labels comes first is never left to chance. Every label handed in is
    /// still there afterwards, and nothing else is.
    pub fn order(labels: &mut [Self])
        ensures
            final(labels)@.to_multiset() == old(labels)@.to_multiset(),
            sorted_by(final(labels)@, |a: Label<'a>, b: Label<'a>| label_le(a, b)),
    {
        let n = labels.len();
        if n < 2 {
            return;
        }
        let mut i: usize = 1;
        while i < n
            invariant
                n == labels@.len(),
                1 <= i <= n,
                labels@.to_multiset() == old(labels)@.to_multiset(),
                forall|a: int, b: int| 0 <= a < b < i ==> label_le(#[trigger] labels@[a], #[trigger] labels@[b]),
            decreases n - i,
        {
            let mut j: usize = i;
            while j > 0 && !label_le_exec(&labels[j - 1], &labels[j])
                invariant
                    n == labels@.len(),
                    0 <= j <= i < n,
                    labels@.to_multiset() == old(labels)@.to_multiset(),
                    forall|a: int, b: int|
                        0 <= a < b <= i && a != j && b != j ==> label_le(
                            #[trigger] labels@[a],
                            #[trigger] labels@[b],
                        ),
                    forall|b: int| j < b <= i ==> label_le(labels@[j as int], #[trigger] labels@[b]),
                decreases j,
            {
                let left = labels[j - 1];
                let right = labels[j];
                proof {
                    lemma_label_le_total(left, right);
                    let s0 = labels@;
                    let s1 = s0.update(j - 1, right);
                    let s2 = s1.update(j as int, left);
                    lemma_swap_keeps_multiset(s0, j - 1, j as int);
                    assert(s2 == s0.update(j - 1, s0[j as int]).update(j as int, s0[j - 1]));
                    assert forall|b: int| j < b <= i implies label_le(right, #[trigger] s2[b]) by {
                        assert(s2[b] == s0[b]);
                    }
                    assert forall|a: int, b: int|
                        0 <= a < b <= i && a != j - 1 && b != j - 1 implies label_le(
                            #[trigger] s2[a],
                            #[trigger] s2[b],
                        ) by {
                        if b == j {
                            assert(s2[b] == left);
                            if a < j - 1 {
                                assert(label_le(s0[a], s0[j - 1]));
                            }
                        } else if a == j {
                            assert(s2[a] == left);
                            assert(s2[b] == s0[b]);
                            assert(label_le(s0[j - 1], s0[b]));
                        } else {
                            assert(s2[a] == s0[a] && s2[b] == s0[b]);
                        }
                    }
                }
                labels[j - 1] = right;
                labels[j] = left;
                j -= 1;
            }
            proof {
                let s = labels@;
                if j > 0 {
                    assert(label_le(s[j - 1], s[j as int]));
                }
                assert forall|a: int, b: int| 0 <= a < b < i + 1 implies label_le(
                    #[trigger] s[a],
                    #[trigger] s[b],
                ) by {
                    if b == j && a < j - 1 {
                        assert(label_le(s[a], s[j - 1]));
                        lemma_label_le_transitive(s[a], s[j - 1], s[b]);
                    }
                }
            }
            i += 1;
        }
    }
}

} // verus!
