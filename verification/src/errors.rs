//! The engine's error taxonomy. Every failing operation reports exactly one
//! of these; no failure is swallowed or merged into a best-effort success.

use vstd::prelude::*;

verus! {

/// The input field a validation failure is reported against.
#[derive(Clone, Copy, PartialEq, Eq, Structural, Debug)]
pub enum InvalidField {
    /// Committed hours must be positive.
    Hours,
    /// The keep-the-lights-on tax must not exceed total capacity.
    KtloTax,
    /// The project reference must name an existing, non-archived project.
    ProjectRef,
    /// The engineer reference must name an existing engineer.
    EngineerRef,
    /// A scenario scope must name an existing scenario.
    ScenarioRef,
}

/// What went wrong with an engine operation.
#[derive(Clone, Copy, PartialEq, Eq, Structural, Debug)]
pub enum EngineError {
    /// Malformed or out-of-range input, rejected before any write, with the
    /// offending field.
    Validation(InvalidField),
    /// A uniqueness violation on (project, engineer, start-week) within one
    /// scope; retryable by the caller after picking a different week or
    /// removing the existing allocation.
    Conflict,
    /// The operation targets a nonexistent or already-terminal entity.
    NotFound,
    /// An internal failure of the store; no partial state was committed.
    /// In this in-memory engine it arises only when the fresh-identity
    /// space is exhausted.
    Storage,
}

impl EngineError {
    /// A short, stable description of the error, for transports and logs.
    pub fn describe(&self) -> (r: &'static str)
        ensures
            *self is Validation ==> r@ == "validation error"@,
            *self is Conflict ==> r@ == "conflict: allocation slot already taken"@,
            *self is NotFound ==> r@ == "not found"@,
            *self is Storage ==> r@ == "storage failure"@,
    {
        proof {
            reveal_strlit("validation error");
            reveal_strlit("conflict: allocation slot already taken");
            reveal_strlit("not found");
            reveal_strlit("storage failure");
        }
        match self {
            EngineError::Validation(_) => "validation error",
            EngineError::Conflict => "conflict: allocation slot already taken",
            EngineError::NotFound => "not found",
            EngineError::Storage => "storage failure",
        }
    }
}

} // verus!
