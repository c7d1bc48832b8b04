use vstd::prelude::*;

verus! {

/// An input that is refused before anything is stored.
#[derive(Debug, Clone)]
pub enum ValidationError {
    /// The content is empty once leading and trailing whitespace is removed.
    EmptyContent,
    /// The content is longer than the largest size that can be chunked.
    ContentTooLarge { size: usize, max: usize },
    /// A required field was never given.
    MissingField { field: &'static str },
    /// A required field was given but holds nothing.
    EmptyField { field: &'static str },
    /// A chunk size of zero.
    InvalidChunkSize,
}

/// A rule of the domain that a document breaks.
#[derive(Debug, Clone)]
pub enum ObservationError {
    /// Another observation already holds this content digest.
    Duplicate { hash: String },
}

/// Every error of the domain.
#[derive(Debug, Clone)]
pub enum Error {
    Validation(ValidationError),
    Observation(ObservationError),
}

impl ValidationError {
    pub fn missing_field(field: &'static str) -> (r: Self)
        ensures
            r == (ValidationError::MissingField { field }),
    {
        ValidationError::MissingField { field }
    }
}

} // verus!
