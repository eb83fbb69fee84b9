//! The reactor's decision core.
//!
//! `TcpServer` owns the whole logical state of the server: the connection
//! registry, the model of the readiness registrations, the token counter,
//! the notification queue towards the external processor, and the shutdown
//! flag.  The surrounding I/O shell observes socket events, reads and writes
//! bytes, and reports them here; every decision — what a request means, when
//! a connection closes, what is written back, when the loop stops — is made
//! by these functions.

use vstd::prelude::*;
use crate::conn::ConnectionState;
use crate::readiness::{Interest, Readiness};
use crate::registry::Registry;
use crate::request::{classify, classify_request, request_payload, trim_end, RequestClass};

verus! {

/// The token reserved for the listening socket itself.
pub const LISTENER_TOKEN: usize = 0;

/// Bytes appended to the read buffer whenever it runs full.
pub const READ_CHUNK: usize = 1024;

/// Initial size of the per-event read buffer.
pub const INITIAL_READ_BUFFER: usize = 4096;

/// Bound, in seconds, of every blocking wait, so that the shutdown flag is
/// observed promptly.
pub const WAIT_BOUND_SECS: u64 = 5;

/// What the reactor decided about a readable event.
pub struct ReadStep {
    /// The event belonged to a live connection with no request in flight;
    /// when false, nothing was changed at all.
    pub handled: bool,
    /// A request was framed and handed to the processor.
    pub dispatched: bool,
    /// A waiter from an earlier request still existed and must be joined
    /// before the new one starts.
    pub had_prior_waiter: bool,
    /// The connection is to be closed (end of stream or close keyword).
    pub close: bool,
}

/// What the I/O shell observed when writing the pending response.
#[derive(Clone, Copy, Debug)]
pub enum WriteOutcome {
    /// This many bytes were written.
    Wrote(usize),
    /// The socket was not ready; nothing was written.
    WouldBlock,
    /// A fatal error for this connection.
    Failed,
}

/// The logical state of the server.
pub struct TcpServer {
    /// The connection registry.
    pub registry: Registry,
    /// The registrations held by the readiness primitive.
    pub readiness: Readiness,
    /// The next token to issue; tokens only ever grow.
    pub next_token: usize,
    /// Tokens with a fully framed request ready for the processor, oldest
    /// first.
    pub notifications: Vec<usize>,
    /// Once true, the reactor and every waiter wind down; never reset.
    pub shutdown: bool,
    /// Every token issued so far, in order.
    pub issued: Ghost<Seq<usize>>,
}

impl TcpServer {
    /// A connection with token `t` exists.
    pub open spec fn has_conn(self, t: usize) -> bool {
        self.registry.has(t)
    }

    /// The descriptor of connection `t`.
    pub open spec fn conn(self, t: usize) -> ConnectionState {
        self.registry.get(t)
    }

    /// The reactor loop keeps running until shutdown.
    pub open spec fn may_run(self) -> bool {
        !self.shutdown
    }

    /// The reactor may read from connection `t` only while it exists and no
    /// request of its is in flight.
    pub open spec fn may_read(self, t: usize) -> bool {
        self.has_conn(t) && !self.conn(t).in_flight
    }

    /// The server's invariant: the registry and the readiness registrations
    /// agree (every connection's socket is registered, and no registration
    /// is orphaned), tokens are issued below the counter and in increasing
    /// order, and the notification queue only names issued tokens.
    pub open spec fn wf(self) -> bool {
        &&& self.registry.wf()
        &&& self.readiness.wf()
        &&& self.next_token >= 1
        &&& !self.registry.has(LISTENER_TOKEN)
        &&& self.readiness.has(LISTENER_TOKEN)
        &&& forall|t: usize|
            t != LISTENER_TOKEN ==> #[trigger] self.readiness.has(t) == self.registry.has(t)
        &&& forall|t: usize| #[trigger] self.registry.has(t) ==> 1 <= t < self.next_token
        &&& forall|i: int|
            0 <= i < self.issued@.len() ==> 1 <= #[trigger] self.issued@[i] < self.next_token
        &&& forall|i: int|
            0 <= i < self.issued@.len() - 1 ==> #[trigger] self.issued@[i] < self.issued@[i + 1]
        &&& forall|t: usize| #[trigger] self.registry.has(t) ==> self.issued@.contains(t)
        &&& forall|i: int|
            0 <= i < self.notifications@.len() ==> 1 <= #[trigger] self.notifications@[i]
                < self.next_token
    }

    /// A fresh server: no connections, no notifications, the listener
    /// registered, token counting starting right after the listener's.
    pub fn new() -> (s: TcpServer)
        ensures
            s.wf(),
            s.next_token == 1,
            !s.shutdown,
            s.notifications@.len() == 0,
            s.issued@.len() == 0,
            forall|t: usize| !s.has_conn(t),
            s.readiness.has(LISTENER_TOKEN),
    {
        let registry = Registry::new();
        let mut readiness = Readiness::new();
        readiness.register(LISTENER_TOKEN, Interest::Both);
        TcpServer {
            registry,
            readiness,
            next_token: 1,
            notifications: Vec::new(),
            shutdown: false,
            issued: Ghost(Seq::empty()),
        }
    }

    /// Whether the reactor loop is to keep running.
    pub fn should_run(&self) -> (r: bool)
        ensures
            r == self.may_run(),
    {
        !self.shutdown
    }

    /// Whether another connection can still be accepted (the token counter
    /// has room).
    pub fn can_accept(&self) -> (r: bool)
        ensures
            r == (self.next_token < usize::MAX),
    {
        self.next_token < usize::MAX
    }

    /// How many connections are open.
    pub fn connection_count(&self) -> (n: usize)
        ensures
            n == self.registry.conns@.len(),
    {
        self.registry.count()
    }

    /// Whether connection `t` is open.
    pub fn has_connection(&self, t: usize) -> (r: bool)
        requires
            self.wf(),
        ensures
            r == self.has_conn(t),
    {
        self.registry.contains(t)
    }

    /// Whether connection `t` exists with a request in flight.
    pub fn in_flight(&self, t: usize) -> (r: bool)
        requires
            self.wf(),
        ensures
            r == (self.has_conn(t) && self.conn(t).in_flight),
    {
        self.registry.is_in_flight(t)
    }

    /// How many notifications wait for the processor.
    pub fn notification_count(&self) -> (n: usize)
        ensures
            n == self.notifications@.len(),
    {
        self.notifications.len()
    }

    /// Whether a socket is registered with the readiness primitive under
    /// token `t`.
    pub fn is_registered(&self, t: usize) -> (r: bool)
        requires
            self.wf(),
        ensures
            r == self.readiness.has(t),
    {
        self.readiness.contains(t)
    }

    /// The interest the socket of token `t` is registered with.
    pub fn registered_interest(&self, t: usize) -> (r: Option<Interest>)
        requires
            self.wf(),
        ensures
            r is Some <==> self.readiness.has(t),
            self.readiness.has(t) ==> r == Some(self.readiness.interest_of(t)),
    {
        self.readiness.get_interest(t)
    }

    /// Raises the shutdown flag.  Idempotent; nothing else changes, and the
    /// flag never goes back.
    pub fn raise_shutdown(&mut self)
        requires
            old(self).wf(),
        ensures
            final(self).wf(),
            final(self).shutdown,
            final(self).registry == old(self).registry,
            final(self).readiness == old(self).readiness,
            final(self).next_token == old(self).next_token,
            final(self).notifications == old(self).notifications,
            final(self).issued == old(self).issued,
    {
        self.shutdown = true;
    }

    /// Accepts one connection: issues the next token, registers the socket
    /// for reading, and places a fresh descriptor in the registry.
    pub fn accept_connection(&mut self) -> (t: usize)
        requires
            old(self).wf(),
            old(self).next_token < usize::MAX,
        ensures
            final(self).wf(),
            t == old(self).next_token,
            1 <= t,
            final(self).next_token == t + 1,
            final(self).has_conn(t),
            final(self).conn(t).is_fresh(t),
            final(self).readiness.has(t),
            final(self).readiness.interest_of(t) == Interest::Readable,
            forall|t2: usize|
                t2 != t ==> #[trigger] final(self).has_conn(t2) == old(self).has_conn(t2),
            forall|t2: usize|
                t2 != t && old(self).has_conn(t2) ==> #[trigger] final(self).conn(t2) == old(self).conn(t2),
            forall|t2: usize|
                t2 != t && old(self).readiness.has(t2) ==> #[trigger] final(self).readiness.interest_of(t2) == old(self).readiness.interest_of(t2),
            final(self).notifications == old(self).notifications,
            final(self).shutdown == old(self).shutdown,
            final(self).issued@ == old(self).issued@.push(t),
    {
        let t = self.next_token;
        proof {
            if self.registry.has(t) {
                assert(1 <= t < self.next_token);
            }
            if self.readiness.has(t) {
                assert(t != LISTENER_TOKEN);
            }
        }
        self.next_token = self.next_token + 1;
        self.registry.insert(ConnectionState::fresh(t));
        self.readiness.register(t, Interest::Readable);
        proof {
            self.issued@ = self.issued@.push(t);
        }
        proof {
            let iss0 = old(self).issued@;
            assert(forall|i: int|
                0 <= i < iss0.len() ==> #[trigger] self.issued@[i] == iss0[i]);
            assert(self.issued@[iss0.len() as int] == t);
            assert forall|t2: usize| #[trigger] self.registry.has(t2) implies self.issued@.contains(
                t2,
            ) by {
                if t2 == t {
                    assert(self.issued@[iss0.len() as int] == t2);
                } else {
                    assert(old(self).registry.has(t2));
                    let j = choose|j: int| 0 <= j < iss0.len() && iss0[j] == t2;
                    assert(self.issued@[j] == t2);
                }
            }
        }
        t
    }

    /// Whether the reactor may read from connection `t`: it must exist and
    /// have no request in flight.
    pub fn should_read(&self, t: usize) -> (r: bool)
        requires
            self.wf(),
        ensures
            r == self.may_read(t),
    {
        self.registry.contains(t) && !self.registry.is_in_flight(t)
    }

    /// Reacts to a readable event on connection `t`.  `data` is everything
    /// read until the socket would block; `eof` reports a read of zero
    /// bytes.  Nothing happens unless the connection exists and is not in
    /// flight; a non-UTF-8 request is dropped; a request containing the
    /// close keyword, or an end of stream, marks the connection for closure;
    /// any other request is framed, queued for the processor, and announced
    /// on the notification queue.
    pub fn handle_readable(&mut self, t: usize, data: Vec<u8>, eof: bool) -> (step: ReadStep)
        requires
            old(self).wf(),
        ensures
            final(self).wf(),
            step.handled == (old(self).has_conn(t) && !old(self).conn(t).in_flight),
            !step.handled ==> *final(self) == *old(self) && !step.dispatched && !step.close,
            forall|t2: usize| #[trigger] final(self).has_conn(t2) == old(self).has_conn(t2),
            forall|t2: usize|
                t2 != t && old(self).has_conn(t2) ==> #[trigger] final(self).conn(t2) == old(self).conn(t2),
            final(self).readiness == old(self).readiness,
            final(self).next_token == old(self).next_token,
            final(self).shutdown == old(self).shutdown,
            final(self).issued == old(self).issued,
            step.handled ==> step.close == (eof || (data@.len() > 0 && classify(data@)
                == RequestClass::Close)),
            step.handled ==> step.dispatched == (data@.len() > 0 && classify(data@)
                == RequestClass::Dispatch),
            step.handled && !step.dispatched ==> final(self).notifications == old(self).notifications && final(self).conn(t) == old(self).conn(t),
            step.handled && step.dispatched ==> ({
                let c0 = old(self).conn(t);
                let c1 = final(self).conn(t);
                &&& final(self).notifications@ == old(self).notifications@.push(t)
                &&& c1.in_flight
                &&& c1.has_waiter
                &&& c1.reqs() == c0.reqs().push(trim_end(data@))
                &&& c1.resps() == c0.resps()
                &&& c1.pending() == c0.pending()
                &&& step.had_prior_waiter == c0.has_waiter
            }),
    {
        if !self.should_read(t) {
            return ReadStep { handled: false, dispatched: false, had_prior_waiter: false, close: false };
        }
        let mut close = eof;
        if data.len() > 0 {
            match classify_request(data.as_slice()) {
                RequestClass::Invalid => {},
                RequestClass::Close => {
                    close = true;
                },
                RequestClass::Dispatch => {
                    let payload = request_payload(data.as_slice());
                    let had_prior = self.registry.dispatch_request(t, payload);
                    self.notifications.push(t);
                    return ReadStep { handled: true, dispatched: true, had_prior_waiter: had_prior, close };
                },
            }
        }
        ReadStep { handled: true, dispatched: false, had_prior_waiter: false, close }
    }

    /// Closes connection `t`: in one step it leaves the registry and its
    /// socket registration is dropped, so the two always agree.
    pub fn close_connection(&mut self, t: usize) -> (existed: bool)
        requires
            old(self).wf(),
            t != LISTENER_TOKEN,
        ensures
            final(self).wf(),
            existed == old(self).has_conn(t),
            !final(self).has_conn(t),
            !final(self).readiness.has(t),
            forall|t2: usize| t2 != t ==> #[trigger] final(self).has_conn(t2) == old(self).has_conn(t2),
            forall|t2: usize|
                t2 != t && old(self).has_conn(t2) ==> #[trigger] final(self).conn(t2) == old(self).conn(t2),
            forall|t2: usize|
                t2 != t && old(self).readiness.has(t2) ==> #[trigger] final(self).readiness.interest_of(t2) == old(self).readiness.interest_of(t2),
            final(self).next_token == old(self).next_token,
            final(self).notifications == old(self).notifications,
            final(self).shutdown == old(self).shutdown,
            final(self).issued == old(self).issued,
            old(self).has_conn(t) ==> final(self).registry.conns@.len() == old(
                self,
            ).registry.conns@.len() - 1,
            !old(self).has_conn(t) ==> final(self).registry.conns@.len() == old(
                self,
            ).registry.conns@.len(),
    {
        let r = self.registry.remove(t);
        self.readiness.deregister(t);
        r.is_some()
    }

    /// A copy of what is to be written on a writable event for connection
    /// `t`: its pending response.
    pub fn handle_writable(&self, t: usize) -> (r: Option<Vec<u8>>)
        requires
            self.wf(),
        ensures
            r is Some <==> self.has_conn(t),
            self.has_conn(t) ==> (r matches Some(v) && v@ == self.conn(t).pending()),
    {
        self.registry.pending_of(t)
    }

    /// Reacts to the outcome of writing the pending response of connection
    /// `t`.  A complete write ends the in-flight state, drains the buffer
    /// and re-arms the socket for reading; a short write or an error is
    /// fatal for the connection (the caller closes it); would-block leaves
    /// everything unchanged for the next writable event.
    pub fn handle_write_result(&mut self, t: usize, outcome: WriteOutcome) -> (close: bool)
        requires
            old(self).wf(),
        ensures
            final(self).wf(),
            forall|t2: usize| #[trigger] final(self).has_conn(t2) == old(self).has_conn(t2),
            forall|t2: usize|
                t2 != t && old(self).has_conn(t2) ==> #[trigger] final(self).conn(t2) == old(self).conn(t2),
            forall|t2: usize|
                t2 != t && old(self).readiness.has(t2) ==> #[trigger] final(self).readiness.interest_of(t2) == old(self).readiness.interest_of(t2),
            forall|t2: usize| #[trigger] final(self).readiness.has(t2) == old(self).readiness.has(t2),
            final(self).next_token == old(self).next_token,
            final(self).notifications == old(self).notifications,
            final(self).shutdown == old(self).shutdown,
            final(self).issued == old(self).issued,
            !old(self).has_conn(t) ==> *final(self) == *old(self) && !close,
            old(self).has_conn(t) ==> ({
                let c0 = old(self).conn(t);
                let done = outcome matches WriteOutcome::Wrote(n) && n >= c0.pending().len();
                let short = outcome matches WriteOutcome::Wrote(n) && n < c0.pending().len();
                &&& close == (short || outcome matches WriteOutcome::Failed)
                &&& done ==> ({
                    let c1 = final(self).conn(t);
                    &&& !c1.in_flight
                    &&& c1.pending().len() == 0
                    &&& c1.reqs() == c0.reqs()
                    &&& c1.resps() == c0.resps()
                    &&& c1.has_waiter == c0.has_waiter
                    &&& final(self).readiness.interest_of(t) == Interest::Readable
                })
                &&& !done ==> *final(self) == *old(self)
            }),
    {
        if !self.registry.contains(t) {
            return false;
        }
        match outcome {
            WriteOutcome::Wrote(n) => {
                let pending_len = self.registry.pending_of(t).unwrap().len();
                if n < pending_len {
                    true
                } else {
                    self.registry.complete_write(t);
                    proof {
                        assert(self.readiness.has(t));
                    }
                    self.readiness.reregister(t, Interest::Readable);
                    false
                }
            },
            WriteOutcome::WouldBlock => false,
            WriteOutcome::Failed => true,
        }
    }

    /// One waiter poll on connection `t`: when the processor has queued a
    /// response, it becomes the pending response, the waiter retires, and
    /// the socket is re-armed for writing.  The shutdown flag is consulted
    /// first: once it stands, the waiter leaves the descriptor untouched.
    pub fn waiter_poll(&mut self, t: usize) -> (got: bool)
        requires
            old(self).wf(),
        ensures
            final(self).wf(),
            got == (!old(self).shutdown && old(self).has_conn(t) && old(self).conn(
                t,
            ).resps().len() > 0),
            forall|t2: usize| #[trigger] final(self).has_conn(t2) == old(self).has_conn(t2),
            forall|t2: usize|
                t2 != t && old(self).has_conn(t2) ==> #[trigger] final(self).conn(t2) == old(self).conn(t2),
            forall|t2: usize|
                t2 != t && old(self).readiness.has(t2) ==> #[trigger] final(self).readiness.interest_of(t2) == old(self).readiness.interest_of(t2),
            forall|t2: usize| #[trigger] final(self).readiness.has(t2) == old(self).readiness.has(t2),
            final(self).next_token == old(self).next_token,
            final(self).notifications == old(self).notifications,
            final(self).shutdown == old(self).shutdown,
            final(self).issued == old(self).issued,
            !got ==> *final(self) == *old(self),
            got ==> ({
                let c0 = old(self).conn(t);
                let c1 = final(self).conn(t);
                &&& c1.pending() == c0.resps()[0]
                &&& c1.resps() == c0.resps().subrange(1, c0.resps().len() as int)
                &&& c1.reqs() == c0.reqs()
                &&& c1.in_flight == c0.in_flight
                &&& !c1.has_waiter
                &&& final(self).readiness.interest_of(t) == Interest::Writable
            }),
    {
        if !self.should_run() {
            return false;
        }
        let got = self.registry.waiter_receive(t);
        if got {
            proof {
                assert(self.readiness.has(t));
            }
            self.readiness.reregister(t, Interest::Writable);
        }
        got
    }

    /// Tears every remaining connection down: at exit of the reactor loop,
    /// the registry empties and only the listener stays registered.
    #[verifier::rlimit(60)]
    pub fn drain_connections(&mut self)
        requires
            old(self).wf(),
        ensures
            final(self).wf(),
            final(self).registry.conns@.len() == 0,
            forall|t: usize| !final(self).has_conn(t),
            forall|t: usize| t != LISTENER_TOKEN ==> !final(self).readiness.has(t),
            final(self).next_token == old(self).next_token,
            final(self).notifications == old(self).notifications,
            final(self).shutdown == old(self).shutdown,
            final(self).issued == old(self).issued,
    {
        loop
            invariant
                self.wf(),
                self.next_token == old(self).next_token,
                self.notifications == old(self).notifications,
                self.shutdown == old(self).shutdown,
                self.issued == old(self).issued,
            ensures
                self.wf(),
                self.registry.conns@.len() == 0,
                self.next_token == old(self).next_token,
                self.notifications == old(self).notifications,
                self.shutdown == old(self).shutdown,
                self.issued == old(self).issued,
            decreases self.registry.conns@.len(),
        {
            if self.registry.count() == 0 {
                break;
            }
            let t = self.registry.conns[0].token;
            proof {
                self.registry.lemma_idx(0, t);
                assert(self.registry.has(t));
            }
            self.close_connection(t);
        }
        proof {
            assert forall|t: usize| !self.has_conn(t) by {
                if self.registry.has(t) {
                    let w = self.registry.idx_of(t);
                    assert(self.registry.token_at(w) == t);
                }
            }
        }
    }
}

/// Grows the read buffer by one chunk when it has been filled completely,
/// the policy used between reads of one readable event.
pub fn grow_buffer(buf: &mut Vec<u8>, filled: usize)
    requires
        filled <= old(buf)@.len(),
        old(buf)@.len() + READ_CHUNK <= usize::MAX,
    ensures
        filled < old(buf)@.len() ==> *final(buf) == *old(buf),
        filled == old(buf)@.len() ==> ({
            &&& final(buf)@.len() == old(buf)@.len() + READ_CHUNK
            &&& final(buf)@.subrange(0, old(buf)@.len() as int) == old(buf)@
            &&& forall|i: int|
                old(buf)@.len() <= i < final(buf)@.len() ==> #[trigger] final(buf)@[i] == 0u8
        }),
{
    if filled == buf.len() {
        let ghost b0 = buf@;
        let mut i: usize = 0;
        while i < READ_CHUNK
            invariant
                i <= READ_CHUNK,
                b0.len() + READ_CHUNK <= usize::MAX,
                buf@.len() == b0.len() + i,
                buf@.subrange(0, b0.len() as int) == b0,
                forall|j: int| b0.len() <= j < buf@.len() ==> #[trigger] buf@[j] == 0u8,
            decreases READ_CHUNK - i,
        {
            buf.push(0u8);
            proof {
                assert(buf@.subrange(0, b0.len() as int) =~= b0);
            }
            i = i + 1;
        }
    }
}

} // verus!
