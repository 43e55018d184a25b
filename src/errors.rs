use vstd::prelude::*;

verus! {

/// The kinds of failure that the framework reports.
#[derive(Clone, Copy, Debug, PartialEq, Eq, Structural)]
pub enum ErrorCode {
    /// An argument was rejected: a thing id that is too short, a status that cannot
    /// be stored, an operand that is not a number.
    InvalidArgument,
    /// The first connection to the store failed.
    ConnectionErr,
    /// One operation on the store failed; the next one may succeed.
    NetworkErr,
}

/// An error with its kind and a message for people.
#[derive(Clone, Debug)]
pub struct Error {
    pub code: ErrorCode,
    pub info: String,
}

pub type ResultReturn<T> = Result<T, Error>;

impl Error {
    pub fn new(code: ErrorCode, info: &str) -> (r: Error)
        ensures
            r.code == code,
            r.info@ == info@,
    {
        Error { code, info: info.to_owned() }
    }

    /// The label that goes with each kind of error.
    pub fn label(code: ErrorCode) -> (r: &'static str)
        ensures
            r@ == code_label(code),
    {
        proof {
            reveal_strlit("Invalid parameters");
            reveal_strlit("Connection error");
            reveal_strlit("Network error");
        }
        match code {
            ErrorCode::InvalidArgument => "Invalid parameters",
            ErrorCode::ConnectionErr => "Connection error",
            ErrorCode::NetworkErr => "Network error",
        }
    }

    /// The text shown for the error: `[Error] <label> - <info>`.
    pub fn message(&self) -> (r: String)
        ensures
            r@ == "[Error] "@ + code_label(self.code) + " - "@ + self.info@,
    {
        let mut s = String::from_str("[Error] ");
        s.append(Error::label(self.code));
        s.append(" - ");
        s.append(self.info.as_str());
        proof {
            reveal_strlit("[Error] ");
            reveal_strlit(" - ");
        }
        s
    }
}

pub open spec fn code_label(code: ErrorCode) -> Seq<char> {
    match code {
        ErrorCode::InvalidArgument => "Invalid parameters"@,
        ErrorCode::ConnectionErr => "Connection error"@,
        ErrorCode::NetworkErr => "Network error"@,
    }
}

} // verus!
