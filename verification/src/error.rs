//! The failures that the query layer reports to its callers.

use vstd::prelude::*;

verus! {

/// Why a query could not be answered.
#[derive(Clone, Copy, Debug, PartialEq, Eq, Structural)]
pub enum ApiError {
    /// A timestamp lies before the genesis instant.
    InvalidTime,
    /// The start of an interval lies after its end.
    InvalidRange,
    /// No block of the snapshot has the requested identifier.
    NotFound,
    /// No snapshot of the consensus state could be produced.
    Unavailable,
    /// An operation is malformed.
    ValidationError,
}

impl ApiError {
    /// The numeric code under which a transport reports this kind of failure.
    pub open spec fn spec_code(self) -> int {
        match self {
            ApiError::InvalidTime => 1,
            ApiError::InvalidRange => 2,
            ApiError::NotFound => 3,
            ApiError::Unavailable => 4,
            ApiError::ValidationError => 5,
        }
    }

    /// What went wrong, in words.
    pub open spec fn spec_message(self) -> Seq<char> {
        match self {
            ApiError::InvalidTime => "the timestamp lies before genesis"@,
            ApiError::InvalidRange => "the start of the interval lies after its end"@,
            ApiError::NotFound => "no block has this identifier"@,
            ApiError::Unavailable => "the node has no snapshot of its state yet"@,
            ApiError::ValidationError => "the operation is malformed"@,
        }
    }

    /// What went wrong, in words.
    pub fn message(&self) -> (m: String)
        ensures
            m@ == self.spec_message(),
    {
        match self {
            ApiError::InvalidTime => "the timestamp lies before genesis".to_owned(),
            ApiError::InvalidRange => "the start of the interval lies after its end".to_owned(),
            ApiError::NotFound => "no block has this identifier".to_owned(),
            ApiError::Unavailable => "the node has no snapshot of its state yet".to_owned(),
            ApiError::ValidationError => "the operation is malformed".to_owned(),
        }
    }

    /// The numeric code of this kind of failure; distinct kinds have distinct codes.
    pub fn code(&self) -> (c: i64)
        ensures
            c == self.spec_code(),
    {
        match self {
            ApiError::InvalidTime => 1,
            ApiError::InvalidRange => 2,
            ApiError::NotFound => 3,
            ApiError::Unavailable => 4,
            ApiError::ValidationError => 5,
        }
    }
}

} // verus!
