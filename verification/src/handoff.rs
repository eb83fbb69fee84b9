//! The worker boundary: the operations the external request processor uses
//! to learn of ready requests, fetch their text, and deliver responses.
//!
//! A blocking wait around these operations belongs to the caller's side; each
//! operation here is one bounded attempt that never blocks, so the shutdown
//! flag can be observed between attempts.

use vstd::prelude::*;
use crate::reactor::TcpServer;

verus! {

/// What `receive` hands to the processor: either one request (its text and
/// the token of the connection it arrived on), or nothing.
pub struct Shared {
    /// The request text.
    pub value: Vec<u8>,
    /// True when no request is being handed over.
    pub null: bool,
    /// Token of the connection that sent the request.
    pub token: usize,
}

impl Shared {
    /// The empty handover.
    pub fn null() -> (s: Shared)
        ensures
            s.null,
            s.token == 0,
            s.value@.len() == 0,
    {
        Shared { value: Vec::new(), null: true, token: 0 }
    }
}

/// One attempt to learn which connection has a request ready: pops the
/// oldest entry of the notification queue, if any.  Once the shutdown flag
/// stands, nothing more is handed out, even while notifications are still
/// queued.
pub fn poll_notification(server: &mut TcpServer) -> (r: Option<usize>)
    requires
        old(server).wf(),
    ensures
        final(server).wf(),
        old(server).shutdown ==> r is None && *final(server) == *old(server),
        !old(server).shutdown && old(server).notifications@.len() == 0 ==> r is None && *final(server) == *old(server),
        !old(server).shutdown && old(server).notifications@.len() > 0 ==> ({
            &&& r matches Some(t) && t == old(server).notifications@[0]
            &&& final(server).notifications@ == old(server).notifications@.subrange(
                1,
                old(server).notifications@.len() as int,
            )
            &&& final(server).registry == old(server).registry
            &&& final(server).readiness == old(server).readiness
            &&& final(server).next_token == old(server).next_token
            &&& final(server).shutdown == old(server).shutdown
            &&& final(server).issued == old(server).issued
        }),
{
    if !server.should_run() {
        return None;
    }
    if server.notifications.len() == 0 {
        None
    } else {
        let t = server.notifications.remove(0);
        proof {
            assert(server.notifications@ =~= old(server).notifications@.subrange(
                1,
                old(server).notifications@.len() as int,
            ));
        }
        Some(t)
    }
}

/// One attempt to fetch the request text of connection `t`: pops the oldest
/// queued request, if the connection still exists and has one.  Once the
/// shutdown flag stands, nothing more is handed out.
pub fn take_request(server: &mut TcpServer, t: usize) -> (r: Option<Vec<u8>>)
    requires
        old(server).wf(),
    ensures
        final(server).wf(),
        old(server).shutdown ==> r is None && *final(server) == *old(server),
        forall|t2: usize| #[trigger] final(server).has_conn(t2) == old(server).has_conn(t2),
        forall|t2: usize|
            t2 != t && old(server).has_conn(t2) ==> #[trigger] final(server).conn(t2) == old(server).conn(t2),
        final(server).readiness == old(server).readiness,
        final(server).next_token == old(server).next_token,
        final(server).notifications == old(server).notifications,
        final(server).shutdown == old(server).shutdown,
        final(server).issued == old(server).issued,
        !(old(server).has_conn(t) && old(server).conn(t).reqs().len() > 0) ==> (r is None && *final(server) == *old(server)),
        !old(server).shutdown && old(server).has_conn(t) && old(server).conn(t).reqs().len() > 0
            ==> ({
            let c0 = old(server).conn(t);
            let c1 = final(server).conn(t);
            &&& r matches Some(v) && v@ == c0.reqs()[0]
            &&& c1.reqs() == c0.reqs().subrange(1, c0.reqs().len() as int)
            &&& c1.resps() == c0.resps()
            &&& c1.pending() == c0.pending()
            &&& c1.in_flight == c0.in_flight
            &&& c1.has_waiter == c0.has_waiter
        }),
{
    if !server.should_run() {
        return None;
    }
    server.registry.pop_request(t)
}

/// Attempts to deliver a response for connection `t`.  When the connection
/// has already gone, nothing happens and `false` comes back; no error is
/// raised for a dead connection.
pub fn give_response(server: &mut TcpServer, t: usize, msg: Vec<u8>) -> (ok: bool)
    requires
        old(server).wf(),
    ensures
        final(server).wf(),
        ok == old(server).has_conn(t),
        forall|t2: usize| #[trigger] final(server).has_conn(t2) == old(server).has_conn(t2),
        forall|t2: usize|
            t2 != t && old(server).has_conn(t2) ==> #[trigger] final(server).conn(t2) == old(server).conn(t2),
        final(server).readiness == old(server).readiness,
        final(server).next_token == old(server).next_token,
        final(server).notifications == old(server).notifications,
        final(server).shutdown == old(server).shutdown,
        final(server).issued == old(server).issued,
        !ok ==> *final(server) == *old(server),
        ok ==> ({
            let c0 = old(server).conn(t);
            let c1 = final(server).conn(t);
            &&& c1.resps() == c0.resps().push(msg@)
            &&& c1.reqs() == c0.reqs()
            &&& c1.pending() == c0.pending()
            &&& c1.in_flight == c0.in_flight
            &&& c1.has_waiter == c0.has_waiter
        }),
{
    server.registry.push_response(t, msg)
}

/// Delivers the processor's message for connection `t`; `false` when that
/// connection no longer exists.
pub fn communicate(server: &mut TcpServer, t: usize, msg: Vec<u8>) -> (ok: bool)
    requires
        old(server).wf(),
    ensures
        final(server).wf(),
        ok == old(server).has_conn(t),
        forall|t2: usize| #[trigger] final(server).has_conn(t2) == old(server).has_conn(t2),
        !ok ==> *final(server) == *old(server),
        ok ==> final(server).conn(t).resps() == old(server).conn(t).resps().push(msg@),
        forall|t2: usize|
            t2 != t && old(server).has_conn(t2) ==> #[trigger] final(server).conn(t2) == old(server).conn(t2),
        final(server).readiness == old(server).readiness,
        final(server).next_token == old(server).next_token,
        final(server).notifications == old(server).notifications,
        final(server).shutdown == old(server).shutdown,
        final(server).issued == old(server).issued,
{
    give_response(server, t, msg)
}

/// One attempt of the processor to receive work: pops the oldest
/// notification and fetches that connection's request.  The handover is
/// empty when the shutdown flag stands (whatever is still queued), when no
/// request is ready, or when the announced connection has already been
/// closed; an empty handover carries token 0 and no text.
pub fn receive(server: &mut TcpServer) -> (s: Shared)
    requires
        old(server).wf(),
    ensures
        final(server).wf(),
        s.null ==> s.token == 0 && s.value@.len() == 0,
        old(server).shutdown ==> s.null && *final(server) == *old(server),
        !old(server).shutdown && old(server).notifications@.len() == 0 ==> s.null && *final(server) == *old(server),
        !old(server).shutdown && old(server).notifications@.len() > 0 ==> ({
            let t = old(server).notifications@[0];
            &&& final(server).notifications@ == old(server).notifications@.subrange(
                1,
                old(server).notifications@.len() as int,
            )
            &&& forall|t2: usize| #[trigger] final(server).has_conn(t2) == old(server).has_conn(t2)
            &&& forall|t2: usize|
                t2 != t && old(server).has_conn(t2) ==> #[trigger] final(server).conn(t2) == old(server).conn(t2)
            &&& final(server).readiness == old(server).readiness
            &&& final(server).next_token == old(server).next_token
            &&& final(server).shutdown == old(server).shutdown
            &&& final(server).issued == old(server).issued
            &&& (old(server).has_conn(t) && old(server).conn(t).reqs().len() > 0) ==> ({
                let c0 = old(server).conn(t);
                &&& !s.null
                &&& s.token == t
                &&& s.value@ == c0.reqs()[0]
                &&& final(server).conn(t).reqs() == c0.reqs().subrange(1, c0.reqs().len() as int)
                &&& final(server).conn(t).resps() == c0.resps()
                &&& final(server).conn(t).pending() == c0.pending()
                &&& final(server).conn(t).in_flight == c0.in_flight
            })
            &&& !(old(server).has_conn(t) && old(server).conn(t).reqs().len() > 0) ==> ({
                &&& s.null
                &&& old(server).has_conn(t) ==> final(server).conn(t) == old(server).conn(t)
            })
        }),
{
    let polled = poll_notification(server);
    match polled {
        None => Shared::null(),
        Some(t) => {
            match take_request(server, t) {
                None => Shared::null(),
                Some(value) => Shared { value, null: false, token: t },
            }
        },
    }
}

} // verus!
