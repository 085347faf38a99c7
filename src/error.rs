use vstd::prelude::*;

verus! {

/// What went wrong, for the errors that the library itself reports.
#[derive(Debug, PartialEq, Eq)]
pub enum Error {
    /// A byte string that is not the encoding of any message.
    Parse(&'static str),
    /// A frame that does not authenticate under the receiving context.
    Crypto(&'static str),
    /// A message of a kind that the current phase of the protocol does not take.
    InvalidMessage(&'static str),
}

impl Error {
    pub open spec fn is_parse(&self) -> bool {
        self is Parse
    }

    pub open spec fn is_crypto(&self) -> bool {
        self is Crypto
    }

    pub open spec fn is_invalid_message(&self) -> bool {
        self is InvalidMessage
    }

    /// The text that goes with the error.
    pub fn message(&self) -> (r: &'static str)
        ensures
            r == match self {
                Error::Parse(m) => *m,
                Error::Crypto(m) => *m,
                Error::InvalidMessage(m) => *m,
            },
    {
        match self {
            Error::Parse(m) => m,
            Error::Crypto(m) => m,
            Error::InvalidMessage(m) => m,
        }
    }
}

} // verus!
