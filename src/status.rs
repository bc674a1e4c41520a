//! Status values that services and the mock machinery hand back: a gRPC
//! status code and a message.

use vstd::prelude::*;

verus! {

/// The gRPC status codes.
#[derive(Clone, Copy, Debug, PartialEq, Eq, Structural)]
pub enum Code {
    /// Not an error (gRPC code 0).
    Success,
    Cancelled,
    Unknown,
    InvalidArgument,
    DeadlineExceeded,
    NotFound,
    AlreadyExists,
    PermissionDenied,
    ResourceExhausted,
    FailedPrecondition,
    Aborted,
    OutOfRange,
    Unimplemented,
    Internal,
    Unavailable,
    DataLoss,
    Unauthenticated,
}

/// An error status: a code and a human-readable message.
#[derive(Clone, Debug)]
pub struct Status {
    pub code: Code,
    pub message: String,
}

impl Status {
    pub fn new(code: Code, message: &str) -> (r: Status)
        ensures
            r.code == code,
            r.message@ == message@,
    {
        Status { code, message: message.to_owned() }
    }

    pub fn from_string(code: Code, message: String) -> (r: Status)
        ensures
            r.code == code,
            r.message@ == message@,
    {
        Status { code, message }
    }

    /// A copy of this status.
    pub fn duplicate(&self) -> (r: Status)
        ensures
            r.code == self.code,
            r.message@ == self.message@,
    {
        Status { code: self.code, message: self.message.clone() }
    }

    pub fn code(&self) -> (r: Code)
        ensures
            r == self.code,
    {
        self.code
    }

    pub fn message(&self) -> (r: &str)
        ensures
            r@ == self.message@,
    {
        self.message.as_str()
    }
}

} // verus!
