//! The per-connection descriptor: identity, the single-request-in-flight
//! flag, the pending response buffer, and the two queues that carry request
//! and response text between the reactor and the external processor.

use vstd::prelude::*;

verus! {

/// State kept for one client connection.
///
/// `requests` models the channel that moves decoded request text from the
/// reactor to the processor; `responses` models the channel that moves
/// response text from the processor back to the connection's waiter.  Both
/// are unbounded queues, pushed at the back and popped at the front.
pub struct ConnectionState {
    /// The connection's identity, as issued at accept time.
    pub token: usize,
    /// True from the moment a request is dispatched until its response has
    /// been written back; no further read happens while it is set.
    pub in_flight: bool,
    /// The response that waits to be written out on the next writable event.
    pub pending_response: Vec<u8>,
    /// Requests decoded from the socket, not yet taken by the processor.
    pub requests: Vec<Vec<u8>>,
    /// Responses delivered by the processor, not yet picked up by the waiter.
    pub responses: Vec<Vec<u8>>,
    /// True while a waiter task for this connection may still be running.
    pub has_waiter: bool,
}

impl ConnectionState {
    /// The request queue as a sequence of byte strings.
    pub open spec fn reqs(self) -> Seq<Seq<u8>> {
        self.requests.deep_view()
    }

    /// The response queue as a sequence of byte strings.
    pub open spec fn resps(self) -> Seq<Seq<u8>> {
        self.responses.deep_view()
    }

    /// The pending response as a byte string.
    pub open spec fn pending(self) -> Seq<u8> {
        self.pending_response@
    }

    /// A descriptor as built at accept time: idle, with empty buffers.
    pub open spec fn is_fresh(self, token: usize) -> bool {
        &&& self.token == token
        &&& !self.in_flight
        &&& self.pending().len() == 0
        &&& self.reqs().len() == 0
        &&& self.resps().len() == 0
        &&& !self.has_waiter
    }

    /// Builds the descriptor for a just-accepted connection.
    pub fn fresh(token: usize) -> (c: ConnectionState)
        ensures
            c.is_fresh(token),
    {
        ConnectionState {
            token,
            in_flight: false,
            pending_response: Vec::new(),
            requests: Vec::new(),
            responses: Vec::new(),
            has_waiter: false,
        }
    }
}

} // verus!
