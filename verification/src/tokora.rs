//! Building painty's view from a diagnostic contract that answers through indexed accessors.
//!
//! A contract such as `tokora`'s `Diagnose` hands out its labels and its result path one index at
//! a time, and painty's view holds slices, so somewhere between the two the items have to land in
//! memory. painty allocates nothing for it: [`adapt`] writes them into buffers the caller
//! supplies, and says whether anything did not fit rather than dropping it quietly.
//!
//! The accessors are the only authority on how many items there are. No declared count is read,
//! and each collection costs at most one accessor call more than its buffer holds: enough to fill
//! the buffer, and one probe to learn whether there was anything else.

use vstd::prelude::*;
use crate::diagnostic::{Diagnostic, Label, Location, PathSegment, Severity};

verus! {

/// What [`adapt`] produced, and whether anything did not fit.
///
/// [`is_complete`](Self::is_complete) is the question worth asking before rendering: `false`
/// means a buffer was too small and part of the diagnostic is missing from the view.
#[derive(Debug, Clone, Copy)]
pub struct Adapted<'a> {
    diagnostic: Diagnostic<'a>,
    labels_dropped: bool,
    path_segments_dropped: bool,
}

impl<'a> Adapted<'a> {
    /// The view.
    pub closed spec fn diagnostic_spec(self) -> Diagnostic<'a> {
        self.diagnostic
    }

    /// Whether a label did not fit.
    pub closed spec fn labels_dropped_spec(self) -> bool {
        self.labels_dropped
    }

    /// Whether a result-path segment did not fit.
    pub closed spec fn path_segments_dropped_spec(self) -> bool {
        self.path_segments_dropped
    }

    /// Returns the view.
    pub fn diagnostic(&self) -> (diagnostic: Diagnostic<'a>)
        ensures
            diagnostic == self.diagnostic_spec(),
    {
        self.diagnostic
    }

    /// Returns whether a secondary label did not fit in the buffer it was given.
    pub fn labels_dropped(&self) -> (dropped: bool)
        ensures
            dropped == self.labels_dropped_spec(),
    {
        self.labels_dropped
    }

    /// Returns whether a result-path segment did not fit in the buffer it was given.
    pub fn path_segments_dropped(&self) -> (dropped: bool)
        ensures
            dropped == self.path_segments_dropped_spec(),
    {
        self.path_segments_dropped
    }

    /// Returns whether the whole diagnostic reached the view.
    pub fn is_complete(&self) -> (complete: bool)
        ensures
            complete == (!self.labels_dropped_spec() && !self.path_segments_dropped_spec()),
    {
        !self.labels_dropped && !self.path_segments_dropped
    }
}

/// Reads `item` from index zero into `buffer`, stopping at the first `None`, and says whether
/// there was more than the buffer holds.
///
/// Each index from zero is asked once, in order, and at most one index past the buffer's end is
/// asked: the probe that tells a buffer that happened to fit everything from one that did not.
/// What comes back is the filled front of the buffer: every item in it is what `item` answered
/// for its index, and the walk stopped either at an index `item` answered `None` for (nothing
/// dropped) or at the end of the buffer, where the probe's answer decides.
fn fill<'b, T: Copy, F: Fn(usize) -> Option<T>>(buffer: &'b mut [T], item: F) -> (filled: (
    &'b [T],
    bool,
))
    requires
        forall|index: usize| index <= old(buffer)@.len() ==> call_requires(item, (index,)),
    ensures
        filled.0@.len() <= old(buffer)@.len(),
        forall|k: int|
            0 <= k < filled.0@.len() ==> call_ensures(item, (k as usize,), Some(#[trigger] filled.0@[k])),
        filled.0@.len() < old(buffer)@.len() ==> !filled.1 && call_ensures(
            item,
            (filled.0@.len() as usize,),
            None,
        ),
        filled.0@.len() == old(buffer)@.len() && filled.1 ==> exists|found: T|
            call_ensures(item, (filled.0@.len() as usize,), Some(found)),
        filled.0@.len() == old(buffer)@.len() && !filled.1 ==> call_ensures(
            item,
            (filled.0@.len() as usize,),
            None,
        ),
{
    let n = buffer.len();
    let mut written: usize = 0;
    while written < n
        invariant
            n == buffer@.len(),
            n == old(buffer)@.len(),
            written <= n,
            forall|index: usize| index <= n ==> call_requires(item, (index,)),
            forall|k: int| 0 <= k < written ==> call_ensures(item, (k as usize,), Some(#[trigger] buffer@[k])),
        decreases n - written,
    {
        match item(written) {
            Some(value) => {
                buffer[written] = value;
                written += 1;
            },
            None => {
                let shared: &'b [T] = buffer;
                let (front, _) = shared.split_at(written);
                return (front, false);
            },
        }
    }
    let dropped = match item(written) {
        Some(found) => {
            proof {
                assert(call_ensures(item, (written,), Some(found)));
            }
            true
        },
        None => false,
    };
    let shared: &'b [T] = buffer;
    let (front, _) = shared.split_at(written);
    (front, dropped)
}

/// Reads a diagnostic answered through indexed accessors into a [`Diagnostic`], writing its
/// labels into `labels` and its result path into `path`.
///
/// `label` and `path_segment` are the accessors: asked from index zero, stopping at the first
/// `None`, and never asked more than one index past the end of their buffer. What comes back has
/// the given code, severity, message, primary position, primary label and help, the labels and
/// path segments the accessors answered (as many as fit, in index order), and says for each
/// buffer whether an item did not fit.
pub fn adapt<'a, 'b, L, P>(
    code: &'a str,
    severity: Severity,
    message: &'a str,
    primary: Location,
    primary_label: Option<&'a str>,
    help: Option<&'a str>,
    label: L,
    path_segment: P,
    labels: &'b mut [Label<'a>],
    path: &'b mut [PathSegment<'a>],
) -> (adapted: Adapted<'b>) where
    'a: 'b,
    L: Fn(usize) -> Option<Label<'a>>,
    P: Fn(usize) -> Option<PathSegment<'a>>,

    requires
        forall|index: usize| index <= old(labels)@.len() ==> call_requires(label, (index,)),
        forall|index: usize| index <= old(path)@.len() ==> call_requires(path_segment, (index,)),
    ensures
        ({
            let diagnostic = adapted.diagnostic_spec();
            let kept = diagnostic.labels_spec();
            let segments = diagnostic.path_spec();
            &&& diagnostic.code_spec() == code
            &&& diagnostic.severity_spec() == severity
            &&& diagnostic.message_spec() == message
            &&& diagnostic.primary_spec() == primary
            &&& diagnostic.primary_label_spec() == primary_label
            &&& diagnostic.help_spec() == help
            &&& kept.len() <= old(labels)@.len()
            &&& forall|k: int|
                0 <= k < kept.len() ==> call_ensures(label, (k as usize,), Some(#[trigger] kept[k]))
            &&& kept.len() < old(labels)@.len() ==> !adapted.labels_dropped_spec() && call_ensures(
                label,
                (kept.len() as usize,),
                None,
            )
            &&& kept.len() == old(labels)@.len() && !adapted.labels_dropped_spec() ==> call_ensures(
                label,
                (kept.len() as usize,),
                None,
            )
            &&& adapted.labels_dropped_spec() ==> kept.len() == old(labels)@.len() && exists|found: Label<'a>|
                call_ensures(label, (kept.len() as usize,), Some(found))
            &&& segments.len() <= old(path)@.len()
            &&& forall|k: int|
                0 <= k < segments.len() ==> call_ensures(
                    path_segment,
                    (k as usize,),
                    Some(#[trigger] segments[k]),
                )
            &&& segments.len() < old(path)@.len() ==> !adapted.path_segments_dropped_spec()
                && call_ensures(path_segment, (segments.len() as usize,), None)
            &&& segments.len() == old(path)@.len() && !adapted.path_segments_dropped_spec()
                ==> call_ensures(path_segment, (segments.len() as usize,), None)
            &&& adapted.path_segments_dropped_spec() ==> segments.len() == old(path)@.len()
                && exists|found: PathSegment<'a>|
                call_ensures(path_segment, (segments.len() as usize,), Some(found))
        }),
{
    let (kept, labels_dropped) = fill(labels, label);
    let (segments, path_segments_dropped) = fill(path, path_segment);
    let mut diagnostic = Diagnostic::new(code, severity, message, primary).with_labels(
        kept,
    ).with_path(segments);
    if let Some(text) = primary_label {
        diagnostic = diagnostic.with_primary_label(text);
    }
    if let Some(text) = help {
        diagnostic = diagnostic.with_help(text);
    }
    Adapted { diagnostic, labels_dropped, path_segments_dropped }
}

} // verus!
