//! The errors of the context graph and its stores.
use vstd::prelude::*;

use crate::text::{cat2, cat4};

verus! {

broadcast use vstd::string::group_string_axioms;

/// An error of the context graph, its event store or an ingestion.
#[derive(Debug, Clone)]
pub enum UcmError {
    EntityNotFound(String),
    EdgeNotFound { from: String, to: String },
    DuplicateEntity(String),
    InvalidScipId(String),
    /// A serialization failure, with the serializer's message
    Serialization(String),
    EventStore(String),
    Ingestion(String),
}

/// The message of an error.
pub open spec fn error_text(e: UcmError) -> Seq<char> {
    match e {
        UcmError::EntityNotFound(s) => "Entity not found: "@ + s@,
        UcmError::EdgeNotFound { from, to } => "Edge not found between "@ + from@ + " and "@ + to@,
        UcmError::DuplicateEntity(s) => "Duplicate entity: "@ + s@,
        UcmError::InvalidScipId(s) => "Invalid SCIP identifier: "@ + s@,
        UcmError::Serialization(s) => "Serialization error: "@ + s@,
        UcmError::EventStore(s) => "Event store error: "@ + s@,
        UcmError::Ingestion(s) => "Ingestion error: "@ + s@,
    }
}

impl UcmError {
    /// The message of this error (what `Display` prints).
    pub fn message(&self) -> (r: String)
        ensures
            r@ == error_text(*self),
    {
        match self {
            UcmError::EntityNotFound(s) => cat2("Entity not found: ", s.as_str()),
            UcmError::EdgeNotFound { from, to } => cat4(
                "Edge not found between ",
                from.as_str(),
                " and ",
                to.as_str(),
            ),
            UcmError::DuplicateEntity(s) => cat2("Duplicate entity: ", s.as_str()),
            UcmError::InvalidScipId(s) => cat2("Invalid SCIP identifier: ", s.as_str()),
            UcmError::Serialization(s) => cat2("Serialization error: ", s.as_str()),
            UcmError::EventStore(s) => cat2("Event store error: ", s.as_str()),
            UcmError::Ingestion(s) => cat2("Ingestion error: ", s.as_str()),
        }
    }
}

} // verus!
