//! The connection registry: the single table mapping each token to its
//! connection descriptor.  Tokens in the table are unique; look-ups on a
//! missing token never panic, they report absence and leave the table alone.

use vstd::prelude::*;
use crate::conn::ConnectionState;

verus! {

/// A copy of a byte string.
pub fn clone_bytes(v: &Vec<u8>) -> (r: Vec<u8>)
    ensures
        r@ == v@,
{
    let n = v.len();
    let mut r: Vec<u8> = Vec::new();
    let mut i: usize = 0;
    while i < n
        invariant
            i <= n,
            n == v@.len(),
            r@ == v@.subrange(0, i as int),
        decreases n - i,
    {
        r.push(v[i]);
        proof {
            assert(r@ =~= v@.subrange(0, i + 1));
        }
        i = i + 1;
    }
    proof {
        assert(r@ =~= v@);
    }
    r
}

/// After replacing the descriptor at position `i` (token `t`) by another
/// descriptor with the same token, the rest of the registry reads the same.
proof fn lemma_update_frame(r0: Registry, r1: Registry, i: int, t: usize)
    requires
        r0.wf(),
        0 <= i < r0.conns@.len(),
        r0.token_at(i) == t,
        r1.conns@ == r0.conns@.update(i, r1.conns@[i]),
        r1.token_at(i) == t,
    ensures
        r1.wf(),
        r1.conns@.len() == r0.conns@.len(),
        forall|t2: usize| #[trigger] r1.has(t2) == r0.has(t2),
        forall|t2: usize| t2 != t && r0.has(t2) ==> #[trigger] r1.get(t2) == r0.get(t2),
        r0.has(t),
        r1.has(t),
        r1.get(t) == r1.conns@[i],
        r0.get(t) == r0.conns@[i],
{
    let n = r0.conns@.len() as int;
    assert forall|j: int| 0 <= j < n implies #[trigger] r1.token_at(j) == r0.token_at(j) by {
        if j != i {
            assert(r1.conns@[j] == r0.conns@[j]);
        }
    }
    assert(r1.wf());
    r0.lemma_idx(i, t);
    r1.lemma_idx(i, t);
    assert forall|t2: usize| #[trigger] r1.has(t2) == r0.has(t2) by {
        if r0.has(t2) {
            let j = r0.idx_of(t2);
            assert(r0.token_at(j) == t2);
            assert(r1.token_at(j) == t2);
            assert(r1.has(t2));
        }
        if r1.has(t2) {
            let j = r1.idx_of(t2);
            assert(r1.token_at(j) == t2);
            assert(r0.token_at(j) == t2);
            assert(r0.has(t2));
        }
    }
    assert forall|t2: usize| t2 != t && r0.has(t2) implies #[trigger] r1.get(t2) == r0.get(t2) by {
        let j = r0.idx_of(t2);
        assert(r0.token_at(j) == t2);
        r0.lemma_idx(j, t2);
        assert(j != i);
        assert(r1.conns@[j] == r0.conns@[j]);
        r1.lemma_idx(j, t2);
    }
}

/// Mapping from token to connection descriptor.
pub struct Registry {
    /// The descriptors, at most one per token.
    pub conns: Vec<ConnectionState>,
}

impl Registry {
    /// The token stored at position `i` of the table.
    pub open spec fn token_at(self, i: int) -> usize {
        self.conns@[i].token
    }

    /// Tokens are unique: the table is a map.
    pub open spec fn wf(self) -> bool {
        forall|i: int, j: int|
            0 <= i < self.conns@.len() && 0 <= j < self.conns@.len() && i != j ==> #[trigger] self.token_at(i)
                != #[trigger] self.token_at(j)
    }

    /// A connection with this token is present.
    pub open spec fn has(self, t: usize) -> bool {
        exists|i: int| 0 <= i < self.conns@.len() && #[trigger] self.token_at(i) == t
    }

    /// The position of the connection with token `t`.
    pub open spec fn idx_of(self, t: usize) -> int {
        choose|i: int| 0 <= i < self.conns@.len() && #[trigger] self.token_at(i) == t
    }

    /// The descriptor of the connection with token `t`.
    pub open spec fn get(self, t: usize) -> ConnectionState {
        self.conns@[self.idx_of(t)]
    }

    /// An empty registry.
    pub fn new() -> (r: Registry)
        ensures
            r.wf(),
            r.conns@.len() == 0,
            forall|t: usize| !r.has(t),
    {
        Registry { conns: Vec::new() }
    }

    /// How many connections are present.
    pub fn count(&self) -> (n: usize)
        ensures
            n == self.conns@.len(),
    {
        self.conns.len()
    }

    /// Whether a connection with token `t` is present.
    pub fn contains(&self, t: usize) -> (r: bool)
        requires
            self.wf(),
        ensures
            r == self.has(t),
    {
        let n = self.conns.len();
        let mut i: usize = 0;
        while i < n
            invariant
                n == self.conns@.len(),
                i <= n,
                forall|j: int| 0 <= j < i ==> #[trigger] self.token_at(j) != t,
            decreases n - i,
        {
            if self.conns[i].token == t {
                proof {
                    assert(self.token_at(i as int) == t);
                }
                return true;
            }
            i = i + 1;
        }
        proof {
            if self.has(t) {
                let w = self.idx_of(t);
                assert(self.token_at(w) == t);
            }
        }
        false
    }

    /// The position of token `t`, which must be present.
    fn find_idx(&self, t: usize) -> (i: usize)
        requires
            self.wf(),
            self.has(t),
        ensures
            i < self.conns@.len(),
            self.token_at(i as int) == t,
            i as int == self.idx_of(t),
            self.get(t) == self.conns@[i as int],
    {
        let n = self.conns.len();
        let mut i: usize = 0;
        while i < n
            invariant
                n == self.conns@.len(),
                i <= n,
                self.wf(),
                self.has(t),
                forall|j: int| 0 <= j < i ==> #[trigger] self.token_at(j) != t,
            decreases n - i,
        {
            if self.conns[i].token == t {
                proof {
                    self.lemma_idx(i as int, t);
                }
                return i;
            }
            i = i + 1;
        }
        proof {
            let w = self.idx_of(t);
            assert(self.token_at(w) == t);
            assert(false);
        }
        0
    }

    /// Position `i` holding token `t` is the place the registry reports.
    pub proof fn lemma_idx(self, i: int, t: usize)
        requires
            self.wf(),
            0 <= i < self.conns@.len(),
            self.token_at(i) == t,
        ensures
            self.has(t),
            self.idx_of(t) == i,
            self.get(t) == self.conns@[i],
    {
        assert(self.has(t));
        let w = self.idx_of(t);
        assert(self.token_at(w) == t);
        if w != i {
            assert(self.token_at(w) != self.token_at(i));
        }
    }

    /// Inserts a descriptor whose token is not yet present.
    pub fn insert(&mut self, c: ConnectionState)
        requires
            old(self).wf(),
            !old(self).has(c.token),
        ensures
            final(self).wf(),
            final(self).conns@.len() == old(self).conns@.len() + 1,
            forall|t2: usize| #[trigger] final(self).has(t2) == (old(self).has(t2) || t2 == c.token),
            forall|t2: usize|
                t2 != c.token && old(self).has(t2) ==> #[trigger] final(self).get(t2) == old(self).get(
                    t2,
                ),
            final(self).has(c.token),
            final(self).get(c.token) == c,
    {
        let ghost r0 = *self;
        let ghost t = c.token;
        self.conns.push(c);
        proof {
            let n = r0.conns@.len() as int;
            assert forall|j: int| 0 <= j < n implies #[trigger] self.token_at(j) == r0.token_at(
                j,
            ) by {
                assert(self.conns@[j] == r0.conns@[j]);
            }
            assert(self.token_at(n) == t);
            assert forall|j: int| 0 <= j < n implies #[trigger] r0.token_at(j) != t by {
                if r0.token_at(j) == t {
                    r0.lemma_idx(j, t);
                }
            }
            assert(self.wf());
            self.lemma_idx(n, t);
            assert forall|t2: usize| #[trigger] self.has(t2) == (r0.has(t2) || t2 == t) by {
                if r0.has(t2) {
                    let j = r0.idx_of(t2);
                    assert(r0.token_at(j) == t2);
                    assert(self.token_at(j) == t2);
                    assert(self.has(t2));
                }
                if t2 == t {
                    assert(self.has(t2));
                }
                if self.has(t2) && t2 != t {
                    let j = self.idx_of(t2);
                    assert(self.token_at(j) == t2);
                    assert(j != n);
                    assert(r0.token_at(j) == t2);
                    assert(r0.has(t2));
                }
            }
            assert forall|t2: usize| t2 != t && r0.has(t2) implies #[trigger] self.get(t2)
                == r0.get(t2) by {
                let j = r0.idx_of(t2);
                assert(r0.token_at(j) == t2);
                assert(self.token_at(j) == t2);
                self.lemma_idx(j, t2);
                r0.lemma_idx(j, t2);
            }
        }
    }

    /// Removes and returns the descriptor with token `t`, if present.
    pub fn remove(&mut self, t: usize) -> (r: Option<ConnectionState>)
        requires
            old(self).wf(),
        ensures
            final(self).wf(),
            !final(self).has(t),
            forall|t2: usize| t2 != t ==> #[trigger] final(self).has(t2) == old(self).has(t2),
            forall|t2: usize|
                t2 != t && old(self).has(t2) ==> #[trigger] final(self).get(t2) == old(self).get(t2),
            old(self).has(t) ==> (r matches Some(c) && c == old(self).get(t)
                && final(self).conns@.len() == old(self).conns@.len() - 1),
            !old(self).has(t) ==> r is None && *final(self) == *old(self),
    {
        let present = self.contains(t);
        if !present {
            return None;
        }
        let i = self.find_idx(t);
        let ghost r0 = *self;
        let c = self.conns.remove(i);
        proof {
            let n = r0.conns@.len() as int;
            let iw = i as int;
            assert forall|j: int| 0 <= j < n - 1 implies #[trigger] self.conns@[j] == (if j < iw {
                r0.conns@[j]
            } else {
                r0.conns@[j + 1]
            }) by {
                assert(self.conns@ == r0.conns@.remove(iw));
            }
            assert forall|j: int| 0 <= j < n - 1 implies #[trigger] self.token_at(j) == (if j < iw {
                r0.token_at(j)
            } else {
                r0.token_at(j + 1)
            }) by {}
            assert(self.wf());
            assert forall|j: int| 0 <= j < n - 1 implies #[trigger] self.token_at(j) != t by {
                if j < iw {
                    if r0.token_at(j) == t {
                        r0.lemma_idx(j, t);
                    }
                } else {
                    if r0.token_at(j + 1) == t {
                        r0.lemma_idx(j + 1, t);
                    }
                }
            }
            if self.has(t) {
                let w = self.idx_of(t);
                assert(self.token_at(w) == t);
            }
            assert forall|t2: usize| t2 != t implies #[trigger] self.has(t2) == r0.has(t2) by {
                if r0.has(t2) {
                    let j = r0.idx_of(t2);
                    assert(r0.token_at(j) == t2);
                    assert(j != iw);
                    if j < iw {
                        assert(self.token_at(j) == t2);
                    } else {
                        assert(self.token_at(j - 1) == t2);
                    }
                    assert(self.has(t2));
                }
                if self.has(t2) {
                    let j = self.idx_of(t2);
                    assert(self.token_at(j) == t2);
                    assert(r0.has(t2)) by {
                        if j < iw {
                            assert(r0.token_at(j) == t2);
                        } else {
                            assert(r0.token_at(j + 1) == t2);
                        }
                    }
                }
            }
            assert forall|t2: usize| t2 != t && r0.has(t2) implies #[trigger] self.get(t2)
                == r0.get(t2) by {
                let j = r0.idx_of(t2);
                assert(r0.token_at(j) == t2);
                r0.lemma_idx(j, t2);
                assert(j != iw);
                if j < iw {
                    self.lemma_idx(j, t2);
                } else {
                    self.lemma_idx(j - 1, t2);
                }
            }
        }
        Some(c)
    }

    /// Whether connection `t` is present with a request in flight.
    pub fn is_in_flight(&self, t: usize) -> (r: bool)
        requires
            self.wf(),
        ensures
            r == (self.has(t) && self.get(t).in_flight),
    {
        if !self.contains(t) {
            return false;
        }
        let i = self.find_idx(t);
        self.conns[i].in_flight
    }

    /// Records a dispatched request on connection `t`: the request text joins
    /// the queue to the processor, the connection becomes in-flight and a
    /// waiter is recorded.  Reports whether a prior waiter existed.
    pub fn dispatch_request(&mut self, t: usize, payload: Vec<u8>) -> (had_prior: bool)
        requires
            old(self).wf(),
            old(self).has(t),
        ensures
            final(self).wf(),
            forall|t2: usize| #[trigger] final(self).has(t2) == old(self).has(t2),
            forall|t2: usize|
                t2 != t && old(self).has(t2) ==> #[trigger] final(self).get(t2) == old(self).get(
                    t2,
                ),
            ({
                let c0 = old(self).get(t);
                let c1 = final(self).get(t);
                &&& c1.token == t
                &&& c1.in_flight
                &&& c1.has_waiter
                &&& c1.reqs() == c0.reqs().push(payload@)
                &&& c1.resps() == c0.resps()
                &&& c1.pending() == c0.pending()
                &&& had_prior == c0.has_waiter
            }),
    {
        let ghost r0 = *self;
        let ghost pv = payload@;
        let i = self.find_idx(t);
        let c = &mut self.conns[i];
        let had_prior = c.has_waiter;
        c.in_flight = true;
        c.has_waiter = true;
        c.requests.push(payload);
        proof {
            lemma_update_frame(r0, *self, i as int, t);
            assert(pv =~= r0.conns@[i as int].requests@.push(
                self.conns@[i as int].requests@.last(),
            ).last().deep_view());
            assert(self.conns@[i as int].reqs() =~= r0.conns@[i as int].reqs().push(pv));
        }
        had_prior
    }

    /// Takes the oldest not-yet-taken request of connection `t`, if any.
    pub fn pop_request(&mut self, t: usize) -> (r: Option<Vec<u8>>)
        requires
            old(self).wf(),
        ensures
            final(self).wf(),
            forall|t2: usize| #[trigger] final(self).has(t2) == old(self).has(t2),
            forall|t2: usize|
                t2 != t && old(self).has(t2) ==> #[trigger] final(self).get(t2) == old(self).get(
                    t2,
                ),
            !(old(self).has(t) && old(self).get(t).reqs().len() > 0) ==> (r is None && *final(self)
                == *old(self)),
            old(self).has(t) && old(self).get(t).reqs().len() > 0 ==> ({
                let c0 = old(self).get(t);
                let c1 = final(self).get(t);
                &&& r matches Some(v) && v@ == c0.reqs()[0]
                &&& c1.token == t
                &&& c1.reqs() == c0.reqs().subrange(1, c0.reqs().len() as int)
                &&& c1.resps() == c0.resps()
                &&& c1.pending() == c0.pending()
                &&& c1.in_flight == c0.in_flight
                &&& c1.has_waiter == c0.has_waiter
            }),
    {
        if !self.contains(t) {
            return None;
        }
        let i = self.find_idx(t);
        if self.conns[i].requests.len() == 0 {
            proof {
                assert(old(self).get(t).reqs().len() == 0);
            }
            return None;
        }
        let ghost r0 = *self;
        let c = &mut self.conns[i];
        let v = c.requests.remove(0);
        proof {
            lemma_update_frame(r0, *self, i as int, t);
            let c0 = r0.conns@[i as int];
            let c1 = self.conns@[i as int];
            assert(v@ =~= c0.reqs()[0]);
            assert(c1.reqs() =~= c0.reqs().subrange(1, c0.reqs().len() as int));
        }
        Some(v)
    }

    /// Queues a response for connection `t`; reports `false` and does nothing
    /// when the connection no longer exists.
    pub fn push_response(&mut self, t: usize, msg: Vec<u8>) -> (ok: bool)
        requires
            old(self).wf(),
        ensures
            final(self).wf(),
            ok == old(self).has(t),
            forall|t2: usize| #[trigger] final(self).has(t2) == old(self).has(t2),
            forall|t2: usize|
                t2 != t && old(self).has(t2) ==> #[trigger] final(self).get(t2) == old(self).get(
                    t2,
                ),
            !old(self).has(t) ==> *final(self) == *old(self),
            old(self).has(t) ==> ({
                let c0 = old(self).get(t);
                let c1 = final(self).get(t);
                &&& c1.token == t
                &&& c1.resps() == c0.resps().push(msg@)
                &&& c1.reqs() == c0.reqs()
                &&& c1.pending() == c0.pending()
                &&& c1.in_flight == c0.in_flight
                &&& c1.has_waiter == c0.has_waiter
            }),
    {
        if !self.contains(t) {
            return false;
        }
        let ghost r0 = *self;
        let ghost mv = msg@;
        let i = self.find_idx(t);
        let c = &mut self.conns[i];
        c.responses.push(msg);
        proof {
            lemma_update_frame(r0, *self, i as int, t);
            assert(mv =~= self.conns@[i as int].responses@.last().deep_view());
            assert(self.conns@[i as int].resps() =~= r0.conns@[i as int].resps().push(mv));
        }
        true
    }

    /// One waiter poll: when a response is queued for connection `t`, moves
    /// the oldest one into the pending-response buffer and retires the
    /// waiter.  Reports whether a response was picked up.
    pub fn waiter_receive(&mut self, t: usize) -> (got: bool)
        requires
            old(self).wf(),
        ensures
            final(self).wf(),
            got == (old(self).has(t) && old(self).get(t).resps().len() > 0),
            forall|t2: usize| #[trigger] final(self).has(t2) == old(self).has(t2),
            forall|t2: usize|
                t2 != t && old(self).has(t2) ==> #[trigger] final(self).get(t2) == old(self).get(
                    t2,
                ),
            !got ==> *final(self) == *old(self),
            got ==> ({
                let c0 = old(self).get(t);
                let c1 = final(self).get(t);
                &&& c1.token == t
                &&& c1.pending() == c0.resps()[0]
                &&& c1.resps() == c0.resps().subrange(1, c0.resps().len() as int)
                &&& c1.reqs() == c0.reqs()
                &&& c1.in_flight == c0.in_flight
                &&& !c1.has_waiter
            }),
    {
        if !self.contains(t) {
            return false;
        }
        let i = self.find_idx(t);
        if self.conns[i].responses.len() == 0 {
            proof {
                assert(old(self).get(t).resps().len() == 0);
            }
            return false;
        }
        let ghost r0 = *self;
        let c = &mut self.conns[i];
        let resp = c.responses.remove(0);
        c.pending_response = resp;
        c.has_waiter = false;
        proof {
            lemma_update_frame(r0, *self, i as int, t);
            let c0 = r0.conns@[i as int];
            let c1 = self.conns@[i as int];
            assert(c1.pending() =~= c0.resps()[0]);
            assert(c1.resps() =~= c0.resps().subrange(1, c0.resps().len() as int));
            assert(c1.reqs() =~= c0.reqs());
        }
        true
    }

    /// A copy of the response waiting to be written on connection `t`.
    pub fn pending_of(&self, t: usize) -> (r: Option<Vec<u8>>)
        requires
            self.wf(),
        ensures
            r is Some <==> self.has(t),
            self.has(t) ==> (r matches Some(v) && v@ == self.get(t).pending()),
    {
        if !self.contains(t) {
            return None;
        }
        let i = self.find_idx(t);
        Some(clone_bytes(&self.conns[i].pending_response))
    }

    /// The response of connection `t` has been fully written: the connection
    /// leaves the in-flight state and its pending buffer is drained.
    pub fn complete_write(&mut self, t: usize)
        requires
            old(self).wf(),
            old(self).has(t),
        ensures
            final(self).wf(),
            forall|t2: usize| #[trigger] final(self).has(t2) == old(self).has(t2),
            forall|t2: usize|
                t2 != t && old(self).has(t2) ==> #[trigger] final(self).get(t2) == old(self).get(
                    t2,
                ),
            ({
                let c0 = old(self).get(t);
                let c1 = final(self).get(t);
                &&& c1.token == t
                &&& !c1.in_flight
                &&& c1.pending().len() == 0
                &&& c1.reqs() == c0.reqs()
                &&& c1.resps() == c0.resps()
                &&& c1.has_waiter == c0.has_waiter
            }),
    {
        let ghost r0 = *self;
        let i = self.find_idx(t);
        let c = &mut self.conns[i];
        c.in_flight = false;
        c.pending_response = Vec::new();
        proof {
            lemma_update_frame(r0, *self, i as int, t);
            assert(self.conns@[i as int].reqs() =~= r0.conns@[i as int].reqs());
            assert(self.conns@[i as int].resps() =~= r0.conns@[i as int].resps());
        }
    }
}

} // verus!
