use vstd::prelude::*;
use crate::project::{ProjectName, SourceSetName};

verus! {

/// A span `[start, end)` in one file of one source-set.
#[derive(Clone, Copy, Debug, PartialEq, Eq, Structural)]
pub struct Location {
    pub source_set: SourceSetName,
    pub path: u64,
    pub start: usize,
    pub end: usize,
}

/// One validation failure: a message and the places it refers to.
pub struct ValidationError {
    pub message: String,
    pub locations: Vec<Location>,
}

/// Failure of one project's pipeline, tagged by stage.
pub enum BuildProjectError {
    ValidationErrors { errors: Vec<ValidationError> },
    SchemaBuild { project: ProjectName },
    Generation { project: ProjectName },
    Commit { project: ProjectName },
}

/// Failure of a whole cycle.
pub enum Error {
    /// One or more projects failed; the errors keep the order in which
    /// the outcomes were handed in.
    BuildProjectsErrors { errors: Vec<BuildProjectError> },
    /// A project name that the registry does not hold: a contract violation
    /// of the configuration, never a recoverable build failure.
    UnknownProject { project: ProjectName },
    /// A commit outcome names a project that the cycle did not work on: a
    /// contract violation of the caller.
    OutsideCycle { project: ProjectName },
    /// The source subscription failed; this ends a watch session.
    Subscription,
}

impl Error {
    /// Whether the error ends a watch session: a contract violation or a
    /// failed subscription does; failed builds and checks are reported and
    /// the session goes on.
    pub fn ends_watch(&self) -> (r: bool)
        ensures
            r == !(self is BuildProjectsErrors),
    {
        match self {
            Error::BuildProjectsErrors { .. } => false,
            _ => true,
        }
    }
}

} // verus!
