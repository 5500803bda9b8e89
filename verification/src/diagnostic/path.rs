use vstd::prelude::*;

use crate::text::push_decimal;

verus! {

/// One step of a path into a produced *result*, rather than into any source text.
///
/// Strings for object fields and zero-based integers for list entries — the shape GraphQL's
/// execution errors use, which generalises to any protocol that answers with a tree.
#[derive(Debug, Clone, Copy, PartialEq, Eq, Hash)]
pub enum PathSegment<'a> {
    /// A response key — a field's alias where it has one, otherwise its name.
    Field(&'a str),
    /// A zero-based index into a list.
    Index(u64),
}

impl<'a> PathSegment<'a> {
    /// What the segment reads as: the field's name, or the index in decimal.
    pub open spec fn text_spec(self) -> Seq<char> {
        match self {
            PathSegment::Field(name) => name@,
            PathSegment::Index(index) => crate::text::decimal(index as nat),
        }
    }

    /// Returns what the segment reads as: the field's name, or the index in decimal.
    pub fn to_string(&self) -> (text: String)
        ensures
            text@ == self.text_spec(),
    {
        match self {
            PathSegment::Field(name) => (*name).to_owned(),
            PathSegment::Index(index) => {
                let mut text = String::new();
                push_decimal(&mut text, *index);
                text
            },
        }
    }
}

} // verus!
