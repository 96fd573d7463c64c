//! The library's error taxonomy.

use vstd::prelude::*;

verus! {

/// What went wrong, with a human-readable detail.
#[derive(Debug, Clone, PartialEq, Eq)]
pub enum TerziError {
    /// A malformed URL, method, header, JSON text or timeout.
    InvalidInput(String),
    /// An authorization scheme that is not known.
    UnsupportedAuthType(String),
    /// A required template variable without a value or default.
    MissingRequiredVariable(String),
    /// A `{{...}}` token left after substitution.
    UnresolvedVariable(String),
    /// An unknown saved request, collection, environment or configuration key.
    NotFound(String),
    /// A network failure or timeout while executing a request.
    TransportError(String),
    /// A failure to write the backing store.
    PersistenceError(String),
}

impl TerziError {
    /// The detail carried by the error.
    pub fn message(&self) -> (r: String)
        ensures
            r@ == match self {
                TerziError::InvalidInput(m) => m@,
                TerziError::UnsupportedAuthType(m) => m@,
                TerziError::MissingRequiredVariable(m) => m@,
                TerziError::UnresolvedVariable(m) => m@,
                TerziError::NotFound(m) => m@,
                TerziError::TransportError(m) => m@,
                TerziError::PersistenceError(m) => m@,
            },
    {
        match self {
            TerziError::InvalidInput(m) => m.clone(),
            TerziError::UnsupportedAuthType(m) => m.clone(),
            TerziError::MissingRequiredVariable(m) => m.clone(),
            TerziError::UnresolvedVariable(m) => m.clone(),
            TerziError::NotFound(m) => m.clone(),
            TerziError::TransportError(m) => m.clone(),
            TerziError::PersistenceError(m) => m.clone(),
        }
    }
}

} // verus!
