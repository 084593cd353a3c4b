use vstd::prelude::*;

verus! {

/// Why a document could not be compiled.
#[derive(Debug)]
pub enum Error {
    /// A failure described in words.
    Msg(String),
}

impl Error {
    /// The words that describe the failure.
    pub fn message(&self) -> (text: &str)
        ensures
            text@ == (match *self {
                Error::Msg(message) => message@,
            }),
    {
        match self {
            Error::Msg(message) => message.as_str(),
        }
    }
}

/// Why a service of the wiki refused a request.
#[derive(Debug, Copy, Clone, PartialEq, Eq, Structural)]
pub enum ServiceError {
    /// A name was given that no variant of the asked enumeration has.
    InvalidEnumValue,
    /// What was asked for as missing does exist.
    Exists,
    /// The request cannot be read.
    BadRequest,
}

} // verus!
