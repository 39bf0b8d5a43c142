//! Parsing the request line of an HTTP/1.1 request out of a byte buffer.

use super::method::{method_of, Method, MethodError};
use super::query_string::{query_map, QueryMap, QueryString};
use super::text::{
    is_piece, lemma_first_of, lemma_piece_of_piece, lemma_split_first_joined,
    lemma_split_gives_pieces, same_text, split_at_first, split_first,
};
use super::query_string::{lemma_values_are_pieces, values_of};
use vstd::prelude::*;
use vstd::std_specs::convert::FromSpecImpl;
use vstd::utf8::{decode_utf8, valid_utf8};

verus! {

/// Why a buffer is no request.
#[derive(Debug, Clone, Copy, PartialEq, Eq, Structural)]
pub enum ParseError {
    /// The request line has fewer than three delimited tokens.
    InvalidRequest,
    /// The buffer is not UTF-8 text.
    InvalidEncoding,
    /// The protocol token is not `HTTP/1.1`.
    InvalidProtocol,
    /// The method token names no method.
    InvalidMethod,
}

impl ParseError {
    /// The fixed message of each kind of error.
    pub open spec fn message_text(self) -> Seq<char> {
        match self {
            ParseError::InvalidRequest => "Invalid Request"@,
            ParseError::InvalidEncoding => "Invalid Encoding"@,
            ParseError::InvalidProtocol => "Invalid Protocol"@,
            ParseError::InvalidMethod => "Invalid Method"@,
        }
    }

    /// The fixed message of each kind of error.
    pub fn message(&self) -> (r: &'static str)
        ensures
            r@ == self.message_text(),
    {
        match self {
            ParseError::InvalidRequest => "Invalid Request",
            ParseError::InvalidEncoding => "Invalid Encoding",
            ParseError::InvalidProtocol => "Invalid Protocol",
            ParseError::InvalidMethod => "Invalid Method",
        }
    }
}

impl From<MethodError> for ParseError {
    fn from(e: MethodError) -> (r: ParseError) {
        ParseError::InvalidMethod
    }
}

impl FromSpecImpl<MethodError> for ParseError {
    open spec fn obeys_from_spec() -> bool {
        true
    }

    open spec fn from_spec(e: MethodError) -> ParseError {
        ParseError::InvalidMethod
    }
}

impl From<core::str::Utf8Error> for ParseError {
    fn from(e: core::str::Utf8Error) -> (r: ParseError) {
        ParseError::InvalidEncoding
    }
}

impl FromSpecImpl<core::str::Utf8Error> for ParseError {
    open spec fn obeys_from_spec() -> bool {
        true
    }

    open spec fn from_spec(e: core::str::Utf8Error) -> ParseError {
        ParseError::InvalidEncoding
    }
}

/// The mathematical model of a [`Request`].
pub struct RequestView {
    pub path: Seq<char>,
    pub method: Method,
    pub query_string: Option<QueryMap>,
}

/// Whether `c` ends a token.
pub open spec fn is_delimiter(c: char) -> bool {
    c == ' ' || c == '\r'
}

/// The token before the first space or carriage return of `s`, and the text
/// after that delimiter.
pub open spec fn next_word(s: Seq<char>) -> Option<(Seq<char>, Seq<char>)> {
    split_first(s, ' ', '\r')
}

/// The path of a request target: the text before its first `?`, or all of it.
pub open spec fn target_path(target: Seq<char>) -> Seq<char> {
    match split_first(target, '?', '?') {
        Some((path, _)) => path,
        None => target,
    }
}

/// The query string of a request target: the mapping that the text after its
/// first `?` stands for, if it has a `?`.
pub open spec fn target_query(target: Seq<char>) -> Option<QueryMap> {
    match split_first(target, '?', '?') {
        Some((_, fragment)) => Some(query_map(fragment)),
        None => None,
    }
}

/// The three tokens of a request line: method, target and protocol.
pub open spec fn tokens(text: Seq<char>) -> Option<(Seq<char>, Seq<char>, Seq<char>)> {
    match next_word(text) {
        Some((method, rest)) => match next_word(rest) {
            Some((target, rest)) => match next_word(rest) {
                Some((protocol, _)) => Some((method, target, protocol)),
                None => None,
            },
            None => None,
        },
        None => None,
    }
}

/// What a text is as a request: all three tokens are found first, then the
/// protocol is checked, then the method. What follows the protocol token is
/// not looked at.
pub open spec fn parse_text(text: Seq<char>) -> Result<RequestView, ParseError> {
    match tokens(text) {
        None => Err(ParseError::InvalidRequest),
        Some((method, target, protocol)) => if protocol != "HTTP/1.1"@ {
            Err(ParseError::InvalidProtocol)
        } else {
            match method_of(method) {
                None => Err(ParseError::InvalidMethod),
                Some(m) => Ok(
                    RequestView {
                        path: target_path(target),
                        method: m,
                        query_string: target_query(target),
                    },
                ),
            }
        },
    }
}

/// What a buffer is as a request: the whole buffer must be UTF-8 before any
/// of it is read as text.
pub open spec fn parse_bytes(bytes: Seq<u8>) -> Result<RequestView, ParseError> {
    if !valid_utf8(bytes) {
        Err(ParseError::InvalidEncoding)
    } else {
        parse_text(decode_utf8(bytes))
    }
}

/// A token holds no delimiter and is followed by one; where no token is
/// found, the text holds no delimiter at all.
pub proof fn lemma_next_word(s: Seq<char>)
    ensures
        match next_word(s) {
            Some((word, rest)) => {
                &&& forall|i: int| 0 <= i < word.len() ==> !is_delimiter(word[i])
                &&& word.len() < s.len()
                &&& is_delimiter(s[word.len() as int])
                &&& s == word + seq![s[word.len() as int]] + rest
            },
            None => forall|i: int| 0 <= i < s.len() ==> !is_delimiter(s[i]),
        },
{
    lemma_first_of(s, ' ', '\r');
    match next_word(s) {
        Some((word, rest)) => {
            assert(s =~= word + seq![s[word.len() as int]] + rest);
        },
        None => {},
    }
}

/// A request line as it is written: the method's name, the target and the
/// protocol, each followed by its delimiter, and then anything at all.
pub open spec fn request_line(
    method: Method,
    target: Seq<char>,
    first: char,
    second: char,
    third: char,
    rest: Seq<char>,
) -> Seq<char> {
    method.name() + seq![first] + (target + seq![second] + ("HTTP/1.1"@ + seq![third] + rest))
}

/// The first check that fails decides the error: the encoding, then the
/// three tokens, then the protocol, then the method. A buffer that passes
/// all four is a request.
pub proof fn lemma_error_order(bytes: Seq<u8>)
    ensures
        parse_bytes(bytes) == Err::<RequestView, ParseError>(ParseError::InvalidEncoding)
            <==> !valid_utf8(bytes),
        parse_bytes(bytes) == Err::<RequestView, ParseError>(ParseError::InvalidRequest) <==> {
            &&& valid_utf8(bytes)
            &&& tokens(decode_utf8(bytes)) is None
        },
        parse_bytes(bytes) == Err::<RequestView, ParseError>(ParseError::InvalidProtocol) <==> {
            &&& valid_utf8(bytes)
            &&& tokens(decode_utf8(bytes)) is Some
            &&& tokens(decode_utf8(bytes))->Some_0.2 != "HTTP/1.1"@
        },
        parse_bytes(bytes) == Err::<RequestView, ParseError>(ParseError::InvalidMethod) <==> {
            &&& valid_utf8(bytes)
            &&& tokens(decode_utf8(bytes)) is Some
            &&& tokens(decode_utf8(bytes))->Some_0.2 == "HTTP/1.1"@
            &&& method_of(tokens(decode_utf8(bytes))->Some_0.0) is None
        },
        parse_bytes(bytes) is Ok <==> {
            &&& valid_utf8(bytes)
            &&& tokens(decode_utf8(bytes)) is Some
            &&& tokens(decode_utf8(bytes))->Some_0.2 == "HTTP/1.1"@
            &&& method_of(tokens(decode_utf8(bytes))->Some_0.0) is Some
        },
{
}

/// Every request line that is written as one is read as it was written:
/// the method is the one named, and path and query string are those of the
/// target, whatever follows the line.
pub proof fn lemma_valid_request_line(
    method: Method,
    target: Seq<char>,
    first: char,
    second: char,
    third: char,
    rest: Seq<char>,
)
    requires
        forall|i: int| 0 <= i < target.len() ==> !is_delimiter(target[i]),
        is_delimiter(first),
        is_delimiter(second),
        is_delimiter(third),
    ensures
        parse_text(request_line(method, target, first, second, third, rest)) == Ok::<
            RequestView,
            ParseError,
        >(
            RequestView {
                path: target_path(target),
                method,
                query_string: target_query(target),
            },
        ),
{
    reveal_strlit("GET");
    reveal_strlit("DELETE");
    reveal_strlit("POST");
    reveal_strlit("PUT");
    reveal_strlit("HEAD");
    reveal_strlit("CONNECT");
    reveal_strlit("OPTIONS");
    reveal_strlit("TRACE");
    reveal_strlit("PATCH");
    reveal_strlit("HTTP/1.1");
    let protocol = "HTTP/1.1"@;
    let after_target = protocol + seq![third] + rest;
    let after_method = target + seq![second] + after_target;
    lemma_split_first_joined(method.name(), first, after_method, ' ', '\r');
    lemma_split_first_joined(target, second, after_target, ' ', '\r');
    lemma_split_first_joined(protocol, third, rest, ' ', '\r');
    super::method::lemma_method_round_trip(method, method.name());
}

/// A target without `?` is all path and has no query string; a target with
/// one is the path before the first `?` and the query string of what follows
/// it.
pub proof fn lemma_target_parts(path: Seq<char>, fragment: Seq<char>)
    requires
        forall|i: int| 0 <= i < path.len() ==> path[i] != '?',
    ensures
        target_path(path) == path,
        target_query(path) is None,
        target_path(path + seq!['?'] + fragment) == path,
        target_query(path + seq!['?'] + fragment) == Some(query_map(fragment)),
{
    lemma_first_of(path, '?', '?');
    lemma_split_first_joined(path, '?', fragment, '?', '?');
}

/// The path of a request and every value of its query string are contiguous
/// pieces of the text it was parsed from: parsing makes no text of its own.
pub proof fn lemma_request_text_is_borrowed(text: Seq<char>, k: Seq<char>, n: int)
    requires
        parse_text(text) is Ok,
    ensures
        is_piece(parse_text(text)->Ok_0.path, text),
        match parse_text(text)->Ok_0.query_string {
            Some(q) => 0 <= n < values_of(q, k).len() ==> is_piece(values_of(q, k)[n], text),
            None => true,
        },
{
    let (method, rest) = next_word(text)->Some_0;
    let (target, _) = next_word(rest)->Some_0;
    lemma_split_gives_pieces(text, ' ', '\r');
    lemma_split_gives_pieces(rest, ' ', '\r');
    lemma_piece_of_piece(target, rest, text);
    lemma_split_gives_pieces(target, '?', '?');
    lemma_piece_of_piece(target_path(target), target, text);
    match split_first(target, '?', '?') {
        Some((_, fragment)) => {
            if 0 <= n < values_of(query_map(fragment), k).len() {
                lemma_values_are_pieces(fragment, k, n);
                lemma_piece_of_piece(values_of(query_map(fragment), k)[n], fragment, target);
                lemma_piece_of_piece(values_of(query_map(fragment), k)[n], target, text);
            }
        },
        None => {},
    }
}

/// Splits off the next token of a request line.
pub fn get_next_word<'a>(request: &'a str) -> (r: Option<(&'a str, &'a str)>)
    ensures
        match r {
            Some((word, rest)) => next_word(request@) == Some((word@, rest@)),
            None => next_word(request@) is None,
        },
{
    split_at_first(request, ' ', '\r')
}

/// A parsed request line. All of its text is borrowed from the buffer it was
/// parsed from.
#[derive(Debug)]
pub struct Request<'buf> {
    path: &'buf str,
    query_string: Option<QueryString<'buf>>,
    method: Method,
}

impl<'buf> View for Request<'buf> {
    type V = RequestView;

    closed spec fn view(&self) -> RequestView {
        RequestView {
            path: self.path@,
            method: self.method,
            query_string: match self.query_string {
                Some(q) => Some(q@),
                None => None,
            },
        }
    }
}

impl<'buf> Request<'buf> {
    /// The path of the request target, without the query fragment.
    pub fn path(&self) -> (r: &'buf str)
        ensures
            r@ == self@.path,
    {
        self.path
    }

    /// The method of the request.
    pub fn method(&self) -> (r: &Method)
        ensures
            *r == self@.method,
    {
        &self.method
    }

    /// The query string of the request target, if it has one.
    pub fn query_string(&self) -> (r: Option<&QueryString<'buf>>)
        ensures
            match r {
                Some(q) => self@.query_string == Some(q@),
                None => self@.query_string is None,
            },
    {
        self.query_string.as_ref()
    }

    /// Parses the request line at the start of `buf`.
    pub fn try_from(buf: &'buf [u8]) -> (r: Result<Request<'buf>, ParseError>)
        ensures
            match r {
                Ok(request) => parse_bytes(buf@) == Ok::<RequestView, ParseError>(request@),
                Err(e) => parse_bytes(buf@) == Err::<RequestView, ParseError>(e),
            },
    {
        let request = match core::str::from_utf8(buf) {
            Ok(text) => text,
            Err(e) => {
                return Err(ParseError::from(e));
            },
        };
        proof {
            vstd::utf8::encode_utf8_decode_utf8(request@);
        }
        let (method, request) = match get_next_word(request) {
            Some(found) => found,
            None => {
                return Err(ParseError::InvalidRequest);
            },
        };
        let (target, request) = match get_next_word(request) {
            Some(found) => found,
            None => {
                return Err(ParseError::InvalidRequest);
            },
        };
        let protocol = match get_next_word(request) {
            Some((word, _)) => word,
            None => {
                return Err(ParseError::InvalidRequest);
            },
        };
        if !same_text(protocol, "HTTP/1.1") {
            return Err(ParseError::InvalidProtocol);
        }
        let method = match Method::from_str(method) {
            Ok(m) => m,
            Err(e) => {
                return Err(ParseError::from(e));
            },
        };
        match split_at_first(target, '?', '?') {
            Some((path, fragment)) => Ok(
                Request { path, query_string: Some(QueryString::from(fragment)), method },
            ),
            None => Ok(Request { path: target, query_string: None, method }),
        }
    }
}

} // verus!
