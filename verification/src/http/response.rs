//! Responses and their wire format.

use super::status_code::StatusCode;
use vstd::prelude::*;
use vstd::string::*;
use vstd::utf8::encode_utf8;

verus! {

/// The mathematical model of a [`Response`].
pub struct ResponseView {
    pub status_code: StatusCode,
    pub body: Option<Seq<char>>,
}

/// The ASCII decimal digits of `n`, most significant first, without leading
/// zeros.
pub open spec fn decimal(n: nat) -> Seq<u8>
    decreases n,
{
    if n < 10 {
        seq![(48 + n) as u8]
    } else {
        decimal(n / 10).push((48 + n % 10) as u8)
    }
}

/// The bytes of a response on the wire: the status line, an empty line, and
/// the body if there is one. No header is ever part of it.
pub open spec fn wire_bytes(response: ResponseView) -> Seq<u8> {
    "HTTP/1.1 ".spec_bytes() + decimal(response.status_code.number()) + " ".spec_bytes()
        + encode_utf8(response.status_code.reason()) + "\r\n\r\n".spec_bytes() + match response.body {
        Some(body) => encode_utf8(body),
        None => Seq::empty(),
    }
}

/// Appends the decimal digits of `n`.
fn push_decimal(out: &mut Vec<u8>, n: u16)
    ensures
        final(out)@ == old(out)@ + decimal(n as nat),
    decreases n,
{
    if n >= 10 {
        push_decimal(out, n / 10);
    }
    let digit: u8 = 48 + (n % 10) as u8;
    out.push(digit);
    assert(out@ =~= old(out)@ + decimal(n as nat));
}

/// Appends a copy of `bytes`.
fn push_bytes(out: &mut Vec<u8>, bytes: &[u8])
    ensures
        final(out)@ == old(out)@ + bytes@,
{
    out.extend_from_slice(bytes);
    assert(out@ =~= old(out)@ + bytes@);
}

/// A status with an optional body, ready to be sent.
#[derive(Debug)]
pub struct Response {
    status_code: StatusCode,
    body: Option<String>,
}

impl View for Response {
    type V = ResponseView;

    closed spec fn view(&self) -> ResponseView {
        ResponseView {
            status_code: self.status_code,
            body: match self.body {
                Some(b) => Some(b@),
                None => None,
            },
        }
    }
}

impl Response {
    /// A response with the given status and body.
    pub fn new(status_code: StatusCode, body: Option<String>) -> (r: Response)
        ensures
            r@.status_code == status_code,
            r@.body == match body {
                Some(b) => Some(b@),
                None => None,
            },
    {
        Response { status_code, body }
    }

    /// Writes the response in wire format to the end of `stream`. The
    /// response itself is left as it was.
    pub fn send(&self, stream: &mut Vec<u8>)
        ensures
            final(stream)@ == old(stream)@ + wire_bytes(self@),
    {
        push_bytes(stream, "HTTP/1.1 ".as_bytes());
        push_decimal(stream, self.status_code.code());
        push_bytes(stream, " ".as_bytes());
        push_bytes(stream, self.status_code.reason_phrase().as_bytes());
        push_bytes(stream, "\r\n\r\n".as_bytes());
        match &self.body {
            Some(b) => {
                push_bytes(stream, b.as_str().as_bytes());
            },
            None => {},
        }
        assert(stream@ =~= old(stream)@ + wire_bytes(self@));
    }
}

} // verus!
