//! The closed set of HTTP request methods.

use super::text::same_text;
use vstd::prelude::*;

verus! {

/// An HTTP request method.
#[derive(Debug, Clone, Copy, PartialEq, Eq, Structural)]
pub enum Method {
    GET,
    DELETE,
    POST,
    PUT,
    HEAD,
    CONNECT,
    OPTIONS,
    TRACE,
    PATCH,
}

/// The failure of reading a method from a token that names none.
#[derive(Debug, Clone, Copy, PartialEq, Eq, Structural)]
pub struct MethodError;

/// The method that the token `s` names, if it names one. The match is exact
/// and case-sensitive.
pub open spec fn method_of(s: Seq<char>) -> Option<Method> {
    if s == "GET"@ {
        Some(Method::GET)
    } else if s == "DELETE"@ {
        Some(Method::DELETE)
    } else if s == "POST"@ {
        Some(Method::POST)
    } else if s == "PUT"@ {
        Some(Method::PUT)
    } else if s == "HEAD"@ {
        Some(Method::HEAD)
    } else if s == "CONNECT"@ {
        Some(Method::CONNECT)
    } else if s == "OPTIONS"@ {
        Some(Method::OPTIONS)
    } else if s == "TRACE"@ {
        Some(Method::TRACE)
    } else if s == "PATCH"@ {
        Some(Method::PATCH)
    } else {
        None
    }
}

impl Method {
    /// The canonical name of the method.
    pub open spec fn name(self) -> Seq<char> {
        match self {
            Method::GET => "GET"@,
            Method::DELETE => "DELETE"@,
            Method::POST => "POST"@,
            Method::PUT => "PUT"@,
            Method::HEAD => "HEAD"@,
            Method::CONNECT => "CONNECT"@,
            Method::OPTIONS => "OPTIONS"@,
            Method::TRACE => "TRACE"@,
            Method::PATCH => "PATCH"@,
        }
    }

    /// Reads a method from a clean token: nothing is trimmed or normalized.
    pub fn from_str(s: &str) -> (r: Result<Method, MethodError>)
        ensures
            match r {
                Ok(m) => method_of(s@) == Some(m),
                Err(_) => method_of(s@) is None,
            },
    {
        if same_text(s, "GET") {
            Ok(Method::GET)
        } else if same_text(s, "DELETE") {
            Ok(Method::DELETE)
        } else if same_text(s, "POST") {
            Ok(Method::POST)
        } else if same_text(s, "PUT") {
            Ok(Method::PUT)
        } else if same_text(s, "HEAD") {
            Ok(Method::HEAD)
        } else if same_text(s, "CONNECT") {
            Ok(Method::CONNECT)
        } else if same_text(s, "OPTIONS") {
            Ok(Method::OPTIONS)
        } else if same_text(s, "TRACE") {
            Ok(Method::TRACE)
        } else if same_text(s, "PATCH") {
            Ok(Method::PATCH)
        } else {
            Err(MethodError)
        }
    }

    /// The canonical name of the method, as text.
    pub fn as_str(&self) -> (r: &'static str)
        ensures
            r@ == self.name(),
    {
        match self {
            Method::GET => "GET",
            Method::DELETE => "DELETE",
            Method::POST => "POST",
            Method::PUT => "PUT",
            Method::HEAD => "HEAD",
            Method::CONNECT => "CONNECT",
            Method::OPTIONS => "OPTIONS",
            Method::TRACE => "TRACE",
            Method::PATCH => "PATCH",
        }
    }
}

/// Reading a method back from its own name gives the method, and a token
/// names a method only if it is that method's name.
pub proof fn lemma_method_round_trip(m: Method, s: Seq<char>)
    ensures
        method_of(m.name()) == Some(m),
        method_of(s) == Some(m) <==> s == m.name(),
{
    reveal_strlit("GET");
    reveal_strlit("DELETE");
    reveal_strlit("POST");
    reveal_strlit("PUT");
    reveal_strlit("HEAD");
    reveal_strlit("CONNECT");
    reveal_strlit("OPTIONS");
    reveal_strlit("TRACE");
    reveal_strlit("PATCH");
    assert("GET"@[0] == 'G' && "DELETE"@[0] == 'D' && "HEAD"@[0] == 'H' && "CONNECT"@[0] == 'C'
        && "OPTIONS"@[0] == 'O' && "TRACE"@[0] == 'T');
    assert("POST"@[1] == 'O' && "PUT"@[1] == 'U' && "PATCH"@[1] == 'A');
}

} // verus!
