//! Response status codes and their reason phrases.

use vstd::prelude::*;

verus! {

/// The status of a response.
#[derive(Debug, Clone, Copy, PartialEq, Eq, Structural)]
pub enum StatusCode {
    Success,
    BadRequest,
    NotFound,
}

impl StatusCode {
    /// The numeric code sent on the wire.
    pub open spec fn number(self) -> nat {
        match self {
            StatusCode::Success => 200,
            StatusCode::BadRequest => 400,
            StatusCode::NotFound => 404,
        }
    }

    /// The human-readable text that accompanies the code.
    pub open spec fn reason(self) -> Seq<char> {
        match self {
            StatusCode::Success => "OK"@,
            StatusCode::BadRequest => "Bad Request"@,
            StatusCode::NotFound => "Not Found"@,
        }
    }

    /// The numeric code sent on the wire.
    pub fn code(&self) -> (r: u16)
        ensures
            r == self.number(),
    {
        match self {
            StatusCode::Success => 200,
            StatusCode::BadRequest => 400,
            StatusCode::NotFound => 404,
        }
    }

    /// The human-readable text that accompanies the code.
    pub fn reason_phrase(&self) -> (r: &'static str)
        ensures
            r@ == self.reason(),
    {
        match self {
            StatusCode::Success => "OK",
            StatusCode::BadRequest => "Bad Request",
            StatusCode::NotFound => "Not Found",
        }
    }
}

} // verus!
