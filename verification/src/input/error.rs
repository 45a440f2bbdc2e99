//! Why no input could be had.

use vstd::prelude::*;

verus! {

/// `std::io::Error`, carried through as whoever read the input hands it in.
#[verifier::external_type_specification]
#[verifier::external_body]
pub struct ExIoError(std::io::Error);

/// Why no input could be had: it could not be read, it looked like base64 or
/// hexadecimal digits and was not, or none was given.
#[derive(Debug)]
pub enum InputError {
    IoError(std::io::Error),
    DecodeBase64Error(base64::DecodeError),
    DecodeHexError(hex::FromHexError),
    NoInputProvided,
}

impl From<std::io::Error> for InputError {
    fn from(error: std::io::Error) -> (r: Self)
        ensures
            r == InputError::IoError(error),
    {
        InputError::IoError(error)
    }
}

impl vstd::std_specs::convert::FromSpecImpl<std::io::Error> for InputError {
    open spec fn obeys_from_spec() -> bool {
        true
    }

    open spec fn from_spec(error: std::io::Error) -> Self {
        InputError::IoError(error)
    }
}

impl From<base64::DecodeError> for InputError {
    fn from(error: base64::DecodeError) -> (r: Self)
        ensures
            r == InputError::DecodeBase64Error(error),
    {
        InputError::DecodeBase64Error(error)
    }
}

impl vstd::std_specs::convert::FromSpecImpl<base64::DecodeError> for InputError {
    open spec fn obeys_from_spec() -> bool {
        true
    }

    open spec fn from_spec(error: base64::DecodeError) -> Self {
        InputError::DecodeBase64Error(error)
    }
}

impl From<hex::FromHexError> for InputError {
    fn from(error: hex::FromHexError) -> (r: Self)
        ensures
            r == InputError::DecodeHexError(error),
    {
        InputError::DecodeHexError(error)
    }
}

impl vstd::std_specs::convert::FromSpecImpl<hex::FromHexError> for InputError {
    open spec fn obeys_from_spec() -> bool {
        true
    }

    open spec fn from_spec(error: hex::FromHexError) -> Self {
        InputError::DecodeHexError(error)
    }
}

} // verus!
