//! The server's configuration, the handler it dispatches to, and the
//! decisions of its connection loop. The loop itself, which owns the sockets,
//! is left to the program that embeds this library.

use crate::http::request::{ParseError, Request};
use crate::http::response::Response;
use crate::http::status_code::StatusCode;
use vstd::prelude::*;

verus! {

/// What answers the requests of a server.
pub trait Handler {
    /// Answers a request that was parsed.
    fn handle_request(&mut self, request: &Request) -> Response;

    /// Answers a buffer that was no request. An implementation may give an
    /// answer of its own; one that does not answers with a bad-request status
    /// without a body.
    fn handle_bad_request(&mut self, e: &ParseError) -> (r: Response)
        default_ensures
            r@.status_code == StatusCode::BadRequest,
            r@.body is None,
    {
        bad_request()
    }
}

/// The answer given to a buffer that was no request when the handler has
/// none of its own.
pub fn bad_request() -> (r: Response)
    ensures
        r@.status_code == StatusCode::BadRequest,
        r@.body is None,
{
    Response::new(StatusCode::BadRequest, None)
}

/// A server, known by the address it listens on.
#[derive(Debug)]
pub struct Server {
    addr: String,
}

impl Server {
    /// The address that the server listens on.
    pub closed spec fn address(&self) -> Seq<char> {
        self.addr@
    }

    /// A server for the address `addr`, a host and a port.
    pub fn new(addr: String) -> (r: Server)
        ensures
            r.address() == addr@,
    {
        Server { addr }
    }

    /// The address that the server listens on.
    pub fn addr(&self) -> (r: &str)
        ensures
            r@ == self.address(),
    {
        self.addr.as_str()
    }
}

/// The size of the buffer that one connection is read into. A request
/// longer than this is cut off there.
pub const BUFFER_CAPACITY: usize = 1024;

/// The part of a read buffer that was filled: its first `count` bytes. Only
/// these are parsed, never the unwritten rest of the buffer.
pub fn received<'a>(buffer: &'a [u8], count: usize) -> (r: &'a [u8])
    requires
        count <= buffer@.len(),
    ensures
        r@ == buffer@.subrange(0, count as int),
{
    vstd::slice::slice_subrange(buffer, 0, count)
}

/// Where the service of one connection stands.
#[derive(Debug, Clone, Copy, PartialEq, Eq, Structural)]
pub enum Phase {
    /// A connection was accepted; nothing was read yet.
    Accepted,
    /// The buffer was read.
    Read,
    /// The buffer was a request.
    Parsed,
    /// The buffer was no request.
    ParseFailed,
    /// The handler gave its response.
    Dispatched,
    /// The response was sent.
    ResponseSent,
    /// The response could not be sent.
    SendFailed,
    /// The connection is closed; the server waits for the next one.
    Closed,
}

/// What the connection loop does in a phase.
#[derive(Debug, Clone, Copy, PartialEq, Eq, Structural)]
pub enum Action {
    /// Wait for the next connection.
    Accept,
    /// Read once into the buffer.
    Read,
    /// Parse what was read.
    Parse,
    /// Hand the request to the handler.
    HandleRequest,
    /// Hand the parse error to the handler.
    HandleBadRequest,
    /// Send the handler's response.
    Send,
    /// Close the connection.
    Close,
}

impl Phase {
    /// What is done in this phase.
    pub open spec fn action_of(self) -> Action {
        match self {
            Phase::Accepted => Action::Read,
            Phase::Read => Action::Parse,
            Phase::Parsed => Action::HandleRequest,
            Phase::ParseFailed => Action::HandleBadRequest,
            Phase::Dispatched => Action::Send,
            Phase::ResponseSent => Action::Close,
            Phase::SendFailed => Action::Close,
            Phase::Closed => Action::Accept,
        }
    }

    /// The phase after this phase's action succeeded (`ok`) or failed. A
    /// failed accept leaves the server waiting; a failed read abandons the
    /// connection without a response; a failed parse is answered through the
    /// handler; a failed send still closes the connection. The handler and
    /// closing cannot fail, so `ok` is not looked at for them.
    pub open spec fn next(self, ok: bool) -> Phase {
        match self {
            Phase::Accepted => if ok {
                Phase::Read
            } else {
                Phase::Closed
            },
            Phase::Read => if ok {
                Phase::Parsed
            } else {
                Phase::ParseFailed
            },
            Phase::Parsed => Phase::Dispatched,
            Phase::ParseFailed => Phase::Dispatched,
            Phase::Dispatched => if ok {
                Phase::ResponseSent
            } else {
                Phase::SendFailed
            },
            Phase::ResponseSent => Phase::Closed,
            Phase::SendFailed => Phase::Closed,
            Phase::Closed => if ok {
                Phase::Accepted
            } else {
                Phase::Closed
            },
        }
    }

    /// The most actions that an open connection can still take before it is
    /// closed.
    pub open spec fn remaining(self) -> nat {
        match self {
            Phase::Accepted => 5,
            Phase::Read => 4,
            Phase::Parsed => 3,
            Phase::ParseFailed => 3,
            Phase::Dispatched => 2,
            Phase::ResponseSent => 1,
            Phase::SendFailed => 1,
            Phase::Closed => 0,
        }
    }

    /// The phase reached from this one by actions with the given outcomes.
    pub open spec fn after(self, outcomes: Seq<bool>) -> Phase
        decreases outcomes.len(),
    {
        if outcomes.len() == 0 {
            self
        } else {
            self.next(outcomes[0]).after(outcomes.drop_first())
        }
    }

    /// What the loop does in this phase.
    pub fn action(self) -> (r: Action)
        ensures
            r == self.action_of(),
    {
        match self {
            Phase::Accepted => Action::Read,
            Phase::Read => Action::Parse,
            Phase::Parsed => Action::HandleRequest,
            Phase::ParseFailed => Action::HandleBadRequest,
            Phase::Dispatched => Action::Send,
            Phase::ResponseSent | Phase::SendFailed => Action::Close,
            Phase::Closed => Action::Accept,
        }
    }

    /// The phase after this phase's action succeeded (`ok`) or failed.
    pub fn advance(self, ok: bool) -> (r: Phase)
        ensures
            r == self.next(ok),
    {
        match self {
            Phase::Accepted => if ok {
                Phase::Read
            } else {
                Phase::Closed
            },
            Phase::Read => if ok {
                Phase::Parsed
            } else {
                Phase::ParseFailed
            },
            Phase::Parsed | Phase::ParseFailed => Phase::Dispatched,
            Phase::Dispatched => if ok {
                Phase::ResponseSent
            } else {
                Phase::SendFailed
            },
            Phase::ResponseSent | Phase::SendFailed => Phase::Closed,
            Phase::Closed => if ok {
                Phase::Accepted
            } else {
                Phase::Closed
            },
        }
    }
}

/// Every action on an open connection brings it nearer to being closed,
/// whether the action succeeds or fails.
pub proof fn lemma_progress(phase: Phase, ok: bool)
    requires
        phase != Phase::Closed,
    ensures
        phase.next(ok).remaining() < phase.remaining(),
        phase.remaining() > 0,
{
}

/// Whatever happens to a connection, it is closed within the number of
/// actions that its phase allows, and the server is then ready to accept the
/// next one.
pub proof fn lemma_connection_closes(phase: Phase, outcomes: Seq<bool>)
    requires
        outcomes.len() >= phase.remaining(),
    ensures
        exists|n: int|
            0 <= n <= phase.remaining() && #[trigger] phase.after(outcomes.take(n))
                == Phase::Closed && phase.after(outcomes.take(n)).action_of() == Action::Accept,
    decreases phase.remaining(),
{
    if phase == Phase::Closed {
        assert(phase.after(outcomes.take(0)) == Phase::Closed);
    } else {
        let step = phase.next(outcomes[0]);
        let rest = outcomes.drop_first();
        lemma_connection_closes(step, rest);
        let n = choose|n: int|
            0 <= n <= step.remaining() && #[trigger] step.after(rest.take(n)) == Phase::Closed;
        assert(outcomes.take(n + 1).drop_first() =~= rest.take(n));
        assert(phase.after(outcomes.take(n + 1)) == Phase::Closed);
    }
}

/// A response is sent only after the handler was asked, and the handler is
/// asked only about a buffer that was read: for a request where it parsed,
/// for the parse error where it did not.
pub proof fn lemma_send_follows_dispatch(phase: Phase, ok: bool)
    ensures
        phase.next(ok).action_of() == Action::Send ==> phase.action_of() == Action::HandleRequest
            || phase.action_of() == Action::HandleBadRequest,
        phase.next(ok).action_of() == Action::HandleRequest ==> phase.action_of() == Action::Parse
            && ok,
        phase.next(ok).action_of() == Action::HandleBadRequest ==> phase.action_of()
            == Action::Parse && !ok,
        phase.next(ok).action_of() == Action::Parse ==> phase.action_of() == Action::Read && ok,
{
}

/// No failure ends the loop: a failed accept leaves the server waiting for
/// the next connection, a failed read closes the connection at once, and a
/// failed send closes it with the next action.
pub proof fn lemma_failure_closes(phase: Phase, ok: bool)
    ensures
        phase.action_of() == Action::Accept || phase.action_of() == Action::Read ==> phase.next(
            false,
        ) == Phase::Closed,
        phase.action_of() == Action::Send ==> phase.next(false).next(ok) == Phase::Closed,
        phase.next(ok).action_of() == Action::Accept ==> phase.next(ok) == Phase::Closed,
{
}

} // verus!
