//! The error type shared by every fallible operation of the engine.

use vstd::prelude::*;

verus! {

/// `std::io::Error` is carried through the library as an opaque value.
#[verifier::external_type_specification]
#[verifier::external_body]
pub struct ExIoError(std::io::Error);

/// Everything that can go wrong while opening or reading a database.
#[derive(Debug)]
#[allow(inconsistent_fields)]
pub enum Error {
    Io(std::io::Error),
    Corruption { message: String },
    InvalidLayout { message: String },
    InvalidArgument { message: &'static str },
    Locked,
    SequenceOverflow,
    EncodingLimitExceeded { message: String },
}

/// The result of a fallible operation of the engine.
pub type Result<T> = core::result::Result<T, Error>;

impl From<std::io::Error> for Error {
    fn from(error: std::io::Error) -> (e: Self) {
        Error::Io(error)
    }
}

impl vstd::std_specs::convert::FromSpecImpl<std::io::Error> for Error {
    open spec fn obeys_from_spec() -> bool {
        true
    }

    open spec fn from_spec(error: std::io::Error) -> Error {
        Error::Io(error)
    }
}

} // verus!
