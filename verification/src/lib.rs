//! A runtime for dynamically loaded modules that publish and consume services.
//!
//! The crate holds the bookkeeping of such a runtime as plain state machines:
//! the service registry with its per-consumer usage counts, the listener
//! table, the module container and the component controllers. Every
//! operation states in its contract how the state changes. What touches the
//! operating system (mapping a shared library, catching a panic, taking a
//! lock) is left to the caller, which hands the outcome in as a value.

use vstd::prelude::*;
use vstd::std_specs::convert::FromSpecImpl;

pub mod common;
pub mod component;
pub mod module;
pub mod service;

verus! {

/// `std::io::Error`, carried through untouched.
#[verifier::external_type_specification]
#[verifier::external_body]
pub struct ExIoError(std::io::Error);

/// What an operation of the runtime can fail with.
#[derive(Debug)]
pub enum Error {
    /// A failure described in words.
    StrError(String),
    /// A failure of the operating system, such as a library that cannot be read.
    IoError(std::io::Error),
    /// No module stands at the given position of the container.
    NotFound(u32),
}

impl From<String> for Error {
    fn from(error: String) -> (r: Error) {
        Error::StrError(error)
    }
}

impl FromSpecImpl<String> for Error {
    open spec fn obeys_from_spec() -> bool {
        true
    }

    open spec fn from_spec(error: String) -> Error {
        Error::StrError(error)
    }
}

impl<'a> From<&'a str> for Error {
    fn from(error: &'a str) -> (r: Error)
        ensures
            r matches Error::StrError(s) && s@ == error@,
    {
        Error::StrError(error.to_owned())
    }
}

impl<'a> FromSpecImpl<&'a str> for Error {
    /// A `String` cannot be built from a `&str` in a specification, so the
    /// result is stated on `from` itself, by its characters.
    open spec fn obeys_from_spec() -> bool {
        false
    }

    open spec fn from_spec(error: &'a str) -> Error {
        Error::StrError(arbitrary())
    }
}

impl From<std::io::Error> for Error {
    fn from(error: std::io::Error) -> (r: Error) {
        Error::IoError(error)
    }
}

impl FromSpecImpl<std::io::Error> for Error {
    open spec fn obeys_from_spec() -> bool {
        true
    }

    open spec fn from_spec(error: std::io::Error) -> Error {
        Error::IoError(error)
    }
}

impl Error {
    /// The words of a `StrError`; `None` for the other failures, which carry
    /// no text of their own.
    pub fn message(&self) -> (r: Option<&String>)
        ensures
            r == match *self {
                Error::StrError(s) => Some(&s),
                _ => None,
            },
    {
        match self {
            Error::StrError(s) => Some(s),
            _ => None,
        }
    }
}

} // verus!
