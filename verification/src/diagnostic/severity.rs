use vstd::prelude::*;

verus! {

/// How much a diagnostic asks of its reader.
#[derive(Debug, Clone, Copy, PartialEq, Eq, Hash, Structural)]
#[non_exhaustive]
pub enum Severity {
    /// The input is refused. A verdict depends on it.
    Error,
    /// The input is accepted and something about it is worth saying.
    Warning,
    /// A suggestion, carrying no judgement about the input.
    Advice,
}

impl Severity {
    /// The rung's lowercase name.
    pub open spec fn name_spec(self) -> Seq<char> {
        match self {
            Severity::Error => "error"@,
            Severity::Warning => "warning"@,
            Severity::Advice => "advice"@,
        }
    }

    /// Returns the rung's lowercase name.
    pub fn as_str(&self) -> (name: &'static str)
        ensures
            name@ == self.name_spec(),
    {
        match self {
            Severity::Error => "error",
            Severity::Warning => "warning",
            Severity::Advice => "advice",
        }
    }
}

} // verus!
