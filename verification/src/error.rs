use vstd::prelude::*;

verus! {

/// The error type of input and output operations.
#[verifier::external_type_specification]
#[verifier::external_body]
pub struct ExIoError(std::io::Error);

/// Errors that can occur while building or saving models.
#[derive(Debug)]
pub enum ModelError {
    IoError(std::io::Error),
    TryReserveError(std::collections::TryReserveError),
}

impl From<std::io::Error> for ModelError {
    fn from(value: std::io::Error) -> (error: Self) {
        Self::IoError(value)
    }
}

impl vstd::std_specs::convert::FromSpecImpl<std::io::Error> for ModelError {
    open spec fn obeys_from_spec() -> bool {
        true
    }

    open spec fn from_spec(value: std::io::Error) -> ModelError {
        ModelError::IoError(value)
    }
}

impl From<std::collections::TryReserveError> for ModelError {
    fn from(value: std::collections::TryReserveError) -> (error: Self) {
        Self::TryReserveError(value)
    }
}

impl vstd::std_specs::convert::FromSpecImpl<std::collections::TryReserveError> for ModelError {
    open spec fn obeys_from_spec() -> bool {
        true
    }

    open spec fn from_spec(value: std::collections::TryReserveError) -> ModelError {
        ModelError::TryReserveError(value)
    }
}

/// Errors that can occur while previewing assets.
#[derive(Debug)]
pub enum PreviewError {
    Unsupported,
    InvalidAsset,
    OutOfMemory,
    IoError(std::io::Error),
    TryReserveError(std::collections::TryReserveError),
}

impl From<std::io::Error> for PreviewError {
    fn from(value: std::io::Error) -> (error: Self) {
        Self::IoError(value)
    }
}

impl vstd::std_specs::convert::FromSpecImpl<std::io::Error> for PreviewError {
    open spec fn obeys_from_spec() -> bool {
        true
    }

    open spec fn from_spec(value: std::io::Error) -> PreviewError {
        PreviewError::IoError(value)
    }
}

impl From<std::collections::TryReserveError> for PreviewError {
    fn from(value: std::collections::TryReserveError) -> (error: Self) {
        Self::TryReserveError(value)
    }
}

impl vstd::std_specs::convert::FromSpecImpl<std::collections::TryReserveError> for PreviewError {
    open spec fn obeys_from_spec() -> bool {
        true
    }

    open spec fn from_spec(value: std::collections::TryReserveError) -> PreviewError {
        PreviewError::TryReserveError(value)
    }
}

} // verus!
