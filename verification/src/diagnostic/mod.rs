//! What painty is given: a borrowed view of one finished diagnostic.

pub mod location;
pub mod path;
pub mod severity;
pub mod span;

pub use location::{Label, Location};
pub use path::PathSegment;
pub use severity::Severity;
pub use span::{lemma_span_is_its_offsets, Span};

use vstd::prelude::*;

verus! {

/// One finished diagnostic, borrowed for as long as it takes to render it.
///
/// Plain borrowed data rather than a trait: producing one from a foreign contract is a
/// conversion. Four things are required — the code, the severity, the message and a primary
/// position — and the rest are `with_*`.
#[derive(Debug, Clone, Copy)]
pub struct Diagnostic<'a> {
    code: &'a str,
    severity: Severity,
    message: &'a str,
    primary: Location,
    primary_label: Option<&'a str>,
    labels: &'a [Label<'a>],
    path: &'a [PathSegment<'a>],
    help: Option<&'a str>,
}

impl<'a> Diagnostic<'a> {
    /// The stable identifier for the rule.
    pub closed spec fn code_spec(self) -> &'a str {
        self.code
    }

    /// How much the diagnostic asks of its reader.
    pub closed spec fn severity_spec(self) -> Severity {
        self.severity
    }

    /// The prose.
    pub closed spec fn message_spec(self) -> &'a str {
        self.message
    }

    /// The position the diagnostic is about.
    pub closed spec fn primary_spec(self) -> Location {
        self.primary
    }

    /// The phrase for the primary position.
    pub closed spec fn primary_label_spec(self) -> Option<&'a str> {
        self.primary_label
    }

    /// The secondary labels.
    pub closed spec fn labels_spec(self) -> Seq<Label<'a>> {
        self.labels@
    }

    /// The result path, root segment first.
    pub closed spec fn path_spec(self) -> Seq<PathSegment<'a>> {
        self.path@
    }

    /// What the reader can do about it.
    pub closed spec fn help_spec(self) -> Option<&'a str> {
        self.help
    }

    /// A diagnostic with the four things every one of them has, and nothing else.
    pub fn new(code: &'a str, severity: Severity, message: &'a str, primary: Location) -> (diagnostic: Self)
        ensures
            diagnostic.code_spec() == code,
            diagnostic.severity_spec() == severity,
            diagnostic.message_spec() == message,
            diagnostic.primary_spec() == primary,
            diagnostic.primary_label_spec().is_none(),
            diagnostic.labels_spec() == Seq::<Label<'a>>::empty(),
            diagnostic.path_spec() == Seq::<PathSegment<'a>>::empty(),
            diagnostic.help_spec().is_none(),
    {
        let labels: &'a [Label<'a>] = &[];
        let path: &'a [PathSegment<'a>] = &[];
        proof {
            assert(labels@ =~= Seq::<Label<'a>>::empty());
            assert(path@ =~= Seq::<PathSegment<'a>>::empty());
        }
        Self { code, severity, message, primary, primary_label: None, labels, path, help: None }
    }

    /// Attaches a phrase to the primary position.
    pub fn with_primary_label(self, text: &'a str) -> (diagnostic: Self)
        ensures
            diagnostic.code_spec() == self.code_spec(),
            diagnostic.severity_spec() == self.severity_spec(),
            diagnostic.message_spec() == self.message_spec(),
            diagnostic.primary_spec() == self.primary_spec(),
            diagnostic.primary_label_spec() == Some(text),
            diagnostic.labels_spec() == self.labels_spec(),
            diagnostic.path_spec() == self.path_spec(),
            diagnostic.help_spec() == self.help_spec(),
    {
        Self { primary_label: Some(text), ..self }
    }

    /// Attaches the secondary labels.
    pub fn with_labels(self, labels: &'a [Label<'a>]) -> (diagnostic: Self)
        ensures
            diagnostic.code_spec() == self.code_spec(),
            diagnostic.severity_spec() == self.severity_spec(),
            diagnostic.message_spec() == self.message_spec(),
            diagnostic.primary_spec() == self.primary_spec(),
            diagnostic.primary_label_spec() == self.primary_label_spec(),
            diagnostic.labels_spec() == labels@,
            diagnostic.path_spec() == self.path_spec(),
            diagnostic.help_spec() == self.help_spec(),
    {
        Self { labels, ..self }
    }

    /// Attaches the result path, root segment first.
    pub fn with_path(self, path: &'a [PathSegment<'a>]) -> (diagnostic: Self)
        ensures
            diagnostic.code_spec() == self.code_spec(),
            diagnostic.severity_spec() == self.severity_spec(),
            diagnostic.message_spec() == self.message_spec(),
            diagnostic.primary_spec() == self.primary_spec(),
            diagnostic.primary_label_spec() == self.primary_label_spec(),
            diagnostic.labels_spec() == self.labels_spec(),
            diagnostic.path_spec() == path@,
            diagnostic.help_spec() == self.help_spec(),
    {
        Self { path, ..self }
    }

    /// Attaches the line saying what the reader can do about it.
    pub fn with_help(self, help: &'a str) -> (diagnostic: Self)
        ensures
            diagnostic.code_spec() == self.code_spec(),
            diagnostic.severity_spec() == self.severity_spec(),
            diagnostic.message_spec() == self.message_spec(),
            diagnostic.primary_spec() == self.primary_spec(),
            diagnostic.primary_label_spec() == self.primary_label_spec(),
            diagnostic.labels_spec() == self.labels_spec(),
            diagnostic.path_spec() == self.path_spec(),
            diagnostic.help_spec() == Some(help),
    {
        Self { help: Some(help), ..self }
    }

    /// Returns the stable identifier for this diagnostic's rule.
    pub fn code(&self) -> (code: &'a str)
        ensures
            code == self.code_spec(),
    {
        self.code
    }

    /// Returns how much the diagnostic asks of its reader.
    pub fn severity(&self) -> (severity: Severity)
        ensures
            severity == self.severity_spec(),
    {
        self.severity
    }

    /// Returns the prose.
    pub fn message(&self) -> (message: &'a str)
        ensures
            message == self.message_spec(),
    {
        self.message
    }

    /// Returns the position the diagnostic is about.
    pub fn primary(&self) -> (primary: Location)
        ensures
            primary == self.primary_spec(),
    {
        self.primary
    }

    /// Returns the phrase for the primary position, if the rule gave one.
    pub fn primary_label(&self) -> (label: Option<&'a str>)
        ensures
            label == self.primary_label_spec(),
    {
        self.primary_label
    }

    /// Returns the secondary labels.
    pub fn labels(&self) -> (labels: &'a [Label<'a>])
        ensures
            labels@ == self.labels_spec(),
    {
        self.labels
    }

    /// Returns the result path, root segment first, or an empty slice for a diagnostic about a
    /// document rather than a result.
    pub fn path(&self) -> (path: &'a [PathSegment<'a>])
        ensures
            path@ == self.path_spec(),
    {
        self.path
    }

    /// Returns what the reader can do about it, where the rule had something actionable to say.
    pub fn help(&self) -> (help: Option<&'a str>)
        ensures
            help == self.help_spec(),
    {
        self.help
    }
}

} // verus!
