//! What a renderer is handed alongside a diagnostic: the caller's texts, and its names for them.

use vstd::prelude::*;
use crate::source::Source;

verus! {

/// One of the caller's inputs: its text, and whatever the caller calls it.
///
/// A [`Location`](crate::Location) carries a `source` index into the list the producer was
/// numbering, so a renderer needs that same list to resolve a span. Naming an input stays with the
/// caller, which is why the name comes in here rather than being looked up.
#[derive(Debug, Clone, Copy)]
pub struct Input<'a> {
    source: Source<'a>,
    origin: Option<&'a str>,
}

impl<'a> Input<'a> {
    /// The text of the input.
    pub closed spec fn source_spec(self) -> Source<'a> {
        self.source
    }

    /// The caller's name for the input.
    pub closed spec fn origin_spec(self) -> Option<&'a str> {
        self.origin
    }

    /// An input with no name.
    pub fn new(source: Source<'a>) -> (input: Self)
        ensures
            input.source_spec() == source,
            input.origin_spec() == None::<&'a str>,
    {
        Self { source, origin: None }
    }

    /// Names the input: a path, a URL, whatever the caller has.
    pub fn with_origin(self, origin: &'a str) -> (input: Self)
        ensures
            input.source_spec() == self.source_spec(),
            input.origin_spec() == Some(origin),
    {
        Self { origin: Some(origin), ..self }
    }

    /// Returns the text.
    pub fn source(&self) -> (source: Source<'a>)
        ensures
            source == self.source_spec(),
    {
        self.source
    }

    /// Returns the caller's name for it, if it gave one.
    pub fn origin(&self) -> (origin: Option<&'a str>)
        ensures
            origin == self.origin_spec(),
    {
        self.origin
    }
}

} // verus!
