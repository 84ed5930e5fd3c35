//! The error taxonomy: not-found conditions are recoverable, invalid
//! requests are caller errors, storage and serialization failures are fatal
//! to the single operation that hit them.

use vstd::prelude::*;

use vstd::string::StringExecFns;

verus! {

/// An operation error.
#[derive(Debug)]
pub enum GbsError {
    /// The named index does not exist.
    IndexNotFound(String),
    /// The named document does not exist.
    DocumentNotFound(String),
    /// Malformed input or a duplicate create.
    InvalidRequest(String),
    /// A backend write or read failed.
    Storage(String),
    /// Persisted data could not be decoded.
    Serialization(String),
}

/// The mathematical model of a [`GbsError`].
pub ghost enum GbsErrorV {
    IndexNotFound(Seq<char>),
    DocumentNotFound(Seq<char>),
    InvalidRequest(Seq<char>),
    Storage(Seq<char>),
    Serialization(Seq<char>),
}

impl View for GbsError {
    type V = GbsErrorV;

    open spec fn view(&self) -> GbsErrorV {
        match self {
            GbsError::IndexNotFound(s) => GbsErrorV::IndexNotFound(s@),
            GbsError::DocumentNotFound(s) => GbsErrorV::DocumentNotFound(s@),
            GbsError::InvalidRequest(s) => GbsErrorV::InvalidRequest(s@),
            GbsError::Storage(s) => GbsErrorV::Storage(s@),
            GbsError::Serialization(s) => GbsErrorV::Serialization(s@),
        }
    }
}

/// The human-readable rendering of an error.
pub open spec fn spec_error_message(e: GbsErrorV) -> Seq<char> {
    match e {
        GbsErrorV::IndexNotFound(s) => "Index not found: "@ + s,
        GbsErrorV::DocumentNotFound(s) => "Document not found: "@ + s,
        GbsErrorV::InvalidRequest(s) => "Invalid request: "@ + s,
        GbsErrorV::Storage(s) => "Storage error: "@ + s,
        GbsErrorV::Serialization(s) => "Serialization error: "@ + s,
    }
}

impl GbsError {
    /// The message a caller sees for this error.
    pub fn message(&self) -> (r: String)
        ensures
            r@ == spec_error_message(self@),
    {
        match self {
            GbsError::IndexNotFound(s) => "Index not found: ".to_owned().concat(s.as_str()),
            GbsError::DocumentNotFound(s) => "Document not found: ".to_owned().concat(s.as_str()),
            GbsError::InvalidRequest(s) => "Invalid request: ".to_owned().concat(s.as_str()),
            GbsError::Storage(s) => "Storage error: ".to_owned().concat(s.as_str()),
            GbsError::Serialization(s) => "Serialization error: ".to_owned().concat(s.as_str()),
        }
    }
}

} // verus!
