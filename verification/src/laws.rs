//! The ordering and liveness guarantees of the server, written out and
//! proved as statements of their own.

use vstd::prelude::*;
use crate::reactor::{TcpServer, LISTENER_TOKEN};
use crate::waiter::{waiter_next, WaiterState};

verus! {

/// At most one request is in flight per connection: while a connection's
/// in-flight flag stands, the reactor may not read from it.  (And by the
/// contract of `TcpServer::handle_readable`, an event on a connection it may
/// not read from changes nothing: no notification appears, no request is
/// queued.)
pub proof fn lemma_at_most_one_in_flight(s: TcpServer, t: usize)
    requires
        s.has_conn(t),
        s.conn(t).in_flight,
    ensures
        !s.may_read(t),
{
}

/// Tokens are issued in strictly increasing order.
pub proof fn lemma_tokens_monotonic(s: TcpServer, i: int, j: int)
    requires
        s.wf(),
        0 <= i < j < s.issued@.len(),
    ensures
        s.issued@[i] < s.issued@[j],
    decreases j - i,
{
    if i + 1 < j {
        lemma_tokens_monotonic(s, i, j - 1);
    }
}

/// No token is ever issued twice, even after its connection closes.
pub proof fn lemma_tokens_never_reused(s: TcpServer, i: int, j: int)
    requires
        s.wf(),
        0 <= i < s.issued@.len(),
        0 <= j < s.issued@.len(),
        i != j,
    ensures
        s.issued@[i] != s.issued@[j],
{
    if i < j {
        lemma_tokens_monotonic(s, i, j);
    } else {
        lemma_tokens_monotonic(s, j, i);
    }
}

/// Registry and readiness primitive agree: a connection token is in the
/// registry exactly when its socket is registered, and the only other
/// registration is the listener's.
pub proof fn lemma_registry_readiness_consistent(s: TcpServer, t: usize)
    requires
        s.wf(),
        t != LISTENER_TOKEN,
    ensures
        s.has_conn(t) <==> s.readiness.has(t),
        s.readiness.has(LISTENER_TOKEN),
        !s.has_conn(LISTENER_TOKEN),
{
}

/// Once the shutdown flag is raised, the reactor's loop condition is false,
/// and every waiter — whatever it has seen — is `Terminated` within three
/// decision steps, that is, within a bounded number of bounded waits.
pub proof fn lemma_shutdown_terminates(s: TcpServer, w: WaiterState, g1: bool, g2: bool, g3: bool)
    requires
        s.shutdown,
    ensures
        !s.may_run(),
        waiter_next(waiter_next(waiter_next(w, g1, true), g2, true), g3, true)
            == WaiterState::Terminated,
{
}

} // verus!
