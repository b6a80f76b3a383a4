//! The error kinds the library reports.

use vstd::prelude::*;

verus! {

/// Everything that can go wrong in the library or at its transport edge.
#[derive(Debug, Clone)]
pub enum AppError {
    /// A feed payload does not conform to the declared dialect, or a date
    /// string does not match the dialect's expected format.
    ParseError(String),
    /// A supplied selector string is syntactically invalid.
    SelectorError(String),
    /// No content element was found by either extraction phase.
    ExtractionError(String),
    /// Surfaced unchanged from the transport collaborator.
    TransportError(String),
}

impl AppError {
    /// The human-readable detail carried by the error.
    pub open spec fn message_spec(&self) -> Seq<char> {
        match self {
            AppError::ParseError(m) => m@,
            AppError::SelectorError(m) => m@,
            AppError::ExtractionError(m) => m@,
            AppError::TransportError(m) => m@,
        }
    }

    /// Returns the detail message of the error.
    pub fn message(&self) -> (r: String)
        ensures
            r@ == self.message_spec(),
    {
        match self {
            AppError::ParseError(m) => m.clone(),
            AppError::SelectorError(m) => m.clone(),
            AppError::ExtractionError(m) => m.clone(),
            AppError::TransportError(m) => m.clone(),
        }
    }
}

/// Shorthand for results whose error side is [`AppError`].
pub type AppResult<T> = Result<T, AppError>;

} // verus!
