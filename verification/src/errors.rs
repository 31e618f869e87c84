//! What can go wrong in an analysis.

use vstd::prelude::*;

verus! {

/// Why the whole contribution of one chunk was dropped.
#[derive(Debug)]
pub enum ChunkTaskError {
    /// The repository could not hand out a commit of the chunk; the text is
    /// the repository's own message.
    Handle(String),
    /// The commit count or a line total of the chunk does not fit the
    /// machine word.
    TotalsOverflow,
}

/// Why an analysis as a whole failed.
#[derive(Debug)]
pub enum AnalysisError {
    /// The path does not lead to a repository.
    Open(String),
    /// The walk over the commits could not be set up.
    Enumeration(String),
    /// The branches could not be listed.
    Branches(String),
    /// No permit to run a chunk could be had.
    Scheduling(String),
}

impl ChunkTaskError {
    /// A sentence that says what went wrong.
    pub fn message(&self) -> (text: String)
        ensures
            match self {
                ChunkTaskError::Handle(detail) => text@ == detail@,
                ChunkTaskError::TotalsOverflow => text@ == "totals exceed the machine word"@,
            },
    {
        match self {
            ChunkTaskError::Handle(detail) => detail.clone(),
            ChunkTaskError::TotalsOverflow => "totals exceed the machine word".to_owned(),
        }
    }
}

impl AnalysisError {
    /// The message that came with the failure.
    pub fn message(&self) -> (text: String)
        ensures
            match self {
                AnalysisError::Open(detail) => text@ == detail@,
                AnalysisError::Enumeration(detail) => text@ == detail@,
                AnalysisError::Branches(detail) => text@ == detail@,
                AnalysisError::Scheduling(detail) => text@ == detail@,
            },
    {
        match self {
            AnalysisError::Open(detail) => detail.clone(),
            AnalysisError::Enumeration(detail) => detail.clone(),
            AnalysisError::Branches(detail) => detail.clone(),
            AnalysisError::Scheduling(detail) => detail.clone(),
        }
    }
}

} // verus!
