//! The error type shared by every parser.
use vstd::prelude::*;

verus! {

/// Why a parser refused its input.
#[derive(Debug)]
pub enum Error {
    /// The bytes do not form the frame that was expected (too short,
    /// truncated, or carrying an unknown tag).
    Protocol(String),
    /// A value handed in by the caller is not acceptable.
    InvalidParam(String),
}

impl Error {
    /// A protocol error carrying `msg`.
    pub fn protocol(msg: &str) -> (e: Error)
        ensures
            e matches Error::Protocol(m) && m@ == msg@,
    {
        Error::Protocol(msg.to_owned())
    }

    /// An invalid-parameter error carrying `msg`.
    pub fn invalid_param(msg: &str) -> (e: Error)
        ensures
            e matches Error::InvalidParam(m) && m@ == msg@,
    {
        Error::InvalidParam(msg.to_owned())
    }

    /// The human-readable message of the error.
    pub fn message(&self) -> (m: &String)
        ensures
            match self {
                Error::Protocol(s) => m == s,
                Error::InvalidParam(s) => m == s,
            },
    {
        match self {
            Error::Protocol(s) => s,
            Error::InvalidParam(s) => s,
        }
    }
}

/// `r` failed with a protocol error whose message is `msg`.
pub open spec fn protocol_err<T>(r: Result<T, Error>, msg: Seq<char>) -> bool {
    r matches Err(Error::Protocol(m)) && m@ == msg
}

/// `r` failed with an invalid-parameter error whose message is `msg`.
pub open spec fn param_err<T>(r: Result<T, Error>, msg: Seq<char>) -> bool {
    r matches Err(Error::InvalidParam(m)) && m@ == msg
}

} // verus!
