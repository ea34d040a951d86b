//! One connection, from the first byte to the answer.
//!
//! The connection keeps what the peer has sent and what is known of the rest.
//! Its owner reads from the peer and reports each outcome; the connection
//! says whether to read again or what to send. It never reads or sends
//! itself.

use crate::reader::StreamStatus;
use crate::request::{lemma_parse_is_final, parse, Parsed, Request};
use crate::response::{answer, lemma_every_connection_is_answered, respond};
use vstd::prelude::*;

verus! {

/// Why a read from the peer gave no bytes.
#[derive(Clone, Copy, Debug, PartialEq, Eq, Structural)]
pub enum ReadFailure {
    /// The read was interrupted before it got anything: it may be tried
    /// again.
    Interrupted,
    /// The read failed for good.
    Broken,
}

/// A connection as mathematical values.
pub struct ConnectionState {
    /// The bytes received so far.
    pub received: Seq<u8>,
    /// What is known of the bytes that follow.
    pub status: StreamStatus,
    /// The number of bytes within which the request line must end.
    pub budget: nat,
}

/// A connection on which nothing has been received.
pub open spec fn opened(budget: nat) -> ConnectionState {
    ConnectionState { received: Seq::empty(), status: StreamStatus::Open, budget }
}

/// The connection after a read with the given outcome. Bytes are added to
/// those received; a read that gives no byte is the end of the stream; an
/// interrupted read changes nothing; any other failure is final. Once the
/// stream has ended or failed, nothing changes any more.
pub open spec fn after_read(
    state: ConnectionState,
    outcome: Result<Seq<u8>, ReadFailure>,
) -> ConnectionState {
    if state.status != StreamStatus::Open {
        state
    } else {
        match outcome {
            Ok(bytes) => if bytes.len() == 0 {
                ConnectionState { status: StreamStatus::Eof, ..state }
            } else {
                ConnectionState { received: state.received + bytes, ..state }
            },
            Err(ReadFailure::Interrupted) => state,
            Err(ReadFailure::Broken) => ConnectionState { status: StreamStatus::Failed, ..state },
        }
    }
}

/// What to send on the connection, or `None` where it is time to read again.
pub open spec fn reply_of(state: ConnectionState) -> Option<Seq<u8>> {
    answer(state.received, state.status, state.budget)
}

/// A read that gives no byte, or that fails for good, settles the
/// connection: there is a reply then, and reading again changes nothing.
pub proof fn lemma_end_of_stream_settles(
    state: ConnectionState,
    outcome: Result<Seq<u8>, ReadFailure>,
)
    requires
        outcome matches Ok(bytes) ==> bytes.len() == 0,
        outcome != Err::<Seq<u8>, ReadFailure>(ReadFailure::Interrupted),
    ensures
        reply_of(after_read(state, outcome)) is Some,
        forall|later: Result<Seq<u8>, ReadFailure>|
            after_read(after_read(state, outcome), later) == after_read(state, outcome),
{
    let settled = after_read(state, outcome);
    lemma_every_connection_is_answered(settled.received, settled.status, settled.budget);
}

/// A reply, once there, is final: no read changes it. So it does not matter
/// how the bytes of a request are spread over the reads, nor what follows
/// the request.
pub proof fn lemma_reply_is_final(state: ConnectionState, outcome: Result<Seq<u8>, ReadFailure>)
    requires
        reply_of(state) is Some,
    ensures
        reply_of(after_read(state, outcome)) == reply_of(state),
{
    if state.status == StreamStatus::Open {
        let next = after_read(state, outcome);
        let more = match outcome {
            Ok(bytes) => bytes,
            Err(_) => Seq::empty(),
        };
        assert(next.received =~= state.received + more);
        lemma_parse_is_final(state.received, more, next.status, state.budget);
    }
}

/// A connection.
pub struct Connection {
    received: Vec<u8>,
    status: StreamStatus,
    budget: usize,
}

impl View for Connection {
    type V = ConnectionState;

    closed spec fn view(&self) -> ConnectionState {
        ConnectionState {
            received: self.received@,
            status: self.status,
            budget: self.budget as nat,
        }
    }
}

impl Connection {
    /// A connection on which nothing has been received. The request line
    /// must end within `budget` bytes.
    pub fn new(budget: usize) -> (r: Connection)
        ensures
            r@ == opened(budget as nat),
    {
        Connection { received: Vec::new(), status: StreamStatus::Open, budget }
    }

    /// Takes note of the outcome of a read from the peer: the bytes it gave,
    /// none at the end of the stream, or the reason why it gave none.
    pub fn on_read(&mut self, outcome: Result<&[u8], ReadFailure>)
        ensures
            final(self)@ == after_read(
                old(self)@,
                match outcome {
                    Ok(bytes) => Ok(bytes@),
                    Err(failure) => Err(failure),
                },
            ),
    {
        match self.status {
            StreamStatus::Open => match outcome {
                Ok(bytes) => {
                    if bytes.len() == 0 {
                        self.status = StreamStatus::Eof;
                    } else {
                        self.received.extend_from_slice(bytes);
                        assert(self@.received =~= old(self)@.received + bytes@);
                    }
                },
                Err(ReadFailure::Interrupted) => {},
                Err(ReadFailure::Broken) => {
                    self.status = StreamStatus::Failed;
                },
            },
            _ => {},
        }
    }

    /// What is known of the bytes that follow those received.
    pub fn status(&self) -> (s: StreamStatus)
        ensures
            s == self@.status,
    {
        self.status
    }

    /// How far parsing gets on what has been received.
    pub fn request(&self) -> (r: Parsed)
        ensures
            r@ == parse(self@.received, self@.status, self@.budget),
    {
        Request::parse_available(self.received.as_slice(), self.status, self.budget)
    }

    /// The bytes to send and then close, or `None` where it is time to read
    /// again.
    pub fn reply(&self) -> (r: Option<Vec<u8>>)
        ensures
            match r {
                Some(bytes) => reply_of(self@) == Some(bytes@),
                None => reply_of(self@).is_none() && self@.status == StreamStatus::Open,
            },
    {
        proof {
            lemma_every_connection_is_answered(self@.received, self@.status, self@.budget);
        }
        respond(self.received.as_slice(), self.status, self.budget)
    }
}

} // verus!
