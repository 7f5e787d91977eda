//! The error type of the application.

use vstd::prelude::*;

verus! {

#[verifier::external_type_specification]
#[verifier::external_body]
pub struct ExIoError(std::io::Error);

/// An error of the application: a message, or a failed input/output
/// operation.
#[derive(Debug)]
pub enum AppError {
    Message(String),
    Io(std::io::Error),
}

impl From<String> for AppError {
    fn from(message: String) -> (r: Self) {
        AppError::Message(message)
    }
}

impl vstd::std_specs::convert::FromSpecImpl<String> for AppError {
    open spec fn obeys_from_spec() -> bool {
        true
    }

    open spec fn from_spec(message: String) -> Self {
        AppError::Message(message)
    }
}

impl From<std::io::Error> for AppError {
    fn from(e: std::io::Error) -> (r: Self) {
        AppError::Io(e)
    }
}

impl vstd::std_specs::convert::FromSpecImpl<std::io::Error> for AppError {
    open spec fn obeys_from_spec() -> bool {
        true
    }

    open spec fn from_spec(e: std::io::Error) -> Self {
        AppError::Io(e)
    }
}

} // verus!
