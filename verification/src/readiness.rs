//! A model of the readiness primitive's registration table: which sockets
//! are registered, under which token, and with which interest.  The reactor
//! keeps this table in lock step with the real registrations it performs, so
//! that the registry/readiness consistency invariant can be stated and
//! checked.

use vstd::prelude::*;

verus! {

/// The readiness interest a socket is registered with.
#[derive(Clone, Copy, Debug, PartialEq, Eq, Structural)]
pub enum Interest {
    /// Wake on readable data.
    Readable,
    /// Wake when the socket can be written.
    Writable,
    /// Wake on either.
    Both,
}

/// One socket registration.
pub struct Registration {
    /// The token under which events for this socket are reported.
    pub token: usize,
    /// The interest the socket is registered with.
    pub interest: Interest,
}

/// The registration table of the readiness primitive.
pub struct Readiness {
    /// The registrations, at most one per token.
    pub regs: Vec<Registration>,
}

impl Readiness {
    /// The token stored at position `i` of the table.
    pub open spec fn token_at(self, i: int) -> usize {
        self.regs@[i].token
    }

    /// Tokens are unique.
    pub open spec fn wf(self) -> bool {
        forall|i: int, j: int|
            0 <= i < self.regs@.len() && 0 <= j < self.regs@.len() && i != j ==> #[trigger] self.token_at(i)
                != #[trigger] self.token_at(j)
    }

    /// A socket is registered under token `t`.
    pub open spec fn has(self, t: usize) -> bool {
        exists|i: int| 0 <= i < self.regs@.len() && #[trigger] self.token_at(i) == t
    }

    /// The position of the registration with token `t`.
    pub open spec fn idx_of(self, t: usize) -> int {
        choose|i: int| 0 <= i < self.regs@.len() && #[trigger] self.token_at(i) == t
    }

    /// The interest token `t` is registered with.
    pub open spec fn interest_of(self, t: usize) -> Interest {
        self.regs@[self.idx_of(t)].interest
    }

    /// An empty table.
    pub fn new() -> (r: Readiness)
        ensures
            r.wf(),
            r.regs@.len() == 0,
            forall|t: usize| !r.has(t),
    {
        Readiness { regs: Vec::new() }
    }

    /// Position `i` holding token `t` is the place the table reports.
    pub proof fn lemma_idx(self, i: int, t: usize)
        requires
            self.wf(),
            0 <= i < self.regs@.len(),
            self.token_at(i) == t,
        ensures
            self.has(t),
            self.idx_of(t) == i,
            self.interest_of(t) == self.regs@[i].interest,
    {
        assert(self.has(t));
        let w = self.idx_of(t);
        assert(self.token_at(w) == t);
        if w != i {
            assert(self.token_at(w) != self.token_at(i));
        }
    }

    /// Whether a socket is registered under token `t`.
    pub fn contains(&self, t: usize) -> (r: bool)
        requires
            self.wf(),
        ensures
            r == self.has(t),
    {
        let n = self.regs.len();
        let mut i: usize = 0;
        while i < n
            invariant
                n == self.regs@.len(),
                i <= n,
                forall|j: int| 0 <= j < i ==> #[trigger] self.token_at(j) != t,
            decreases n - i,
        {
            if self.regs[i].token == t {
                proof {
                    assert(self.token_at(i as int) == t);
                }
                return true;
            }
            i = i + 1;
        }
        proof {
            if self.has(t) {
                let w = self.idx_of(t);
                assert(self.token_at(w) == t);
            }
        }
        false
    }

    /// The position of token `t`, which must be present.
    fn find_idx(&self, t: usize) -> (i: usize)
        requires
            self.wf(),
            self.has(t),
        ensures
            i < self.regs@.len(),
            self.token_at(i as int) == t,
            i as int == self.idx_of(t),
    {
        let n = self.regs.len();
        let mut i: usize = 0;
        while i < n
            invariant
                n == self.regs@.len(),
                i <= n,
                self.wf(),
                self.has(t),
                forall|j: int| 0 <= j < i ==> #[trigger] self.token_at(j) != t,
            decreases n - i,
        {
            if self.regs[i].token == t {
                proof {
                    self.lemma_idx(i as int, t);
                }
                return i;
            }
            i = i + 1;
        }
        proof {
            let w = self.idx_of(t);
            assert(self.token_at(w) == t);
            assert(false);
        }
        0
    }

    /// The interest token `t` is registered with, if it is registered.
    pub fn get_interest(&self, t: usize) -> (r: Option<Interest>)
        requires
            self.wf(),
        ensures
            r is Some <==> self.has(t),
            self.has(t) ==> r == Some(self.interest_of(t)),
    {
        if !self.contains(t) {
            return None;
        }
        let i = self.find_idx(t);
        proof {
            self.lemma_idx(i as int, t);
        }
        Some(self.regs[i].interest)
    }

    /// Registers a socket under a token not yet present.
    pub fn register(&mut self, t: usize, interest: Interest)
        requires
            old(self).wf(),
            !old(self).has(t),
        ensures
            final(self).wf(),
            forall|t2: usize| #[trigger] final(self).has(t2) == (old(self).has(t2) || t2 == t),
            forall|t2: usize|
                t2 != t && old(self).has(t2) ==> #[trigger] final(self).interest_of(t2) == old(
                    self,
                ).interest_of(t2),
            final(self).has(t),
            final(self).interest_of(t) == interest,
    {
        let ghost r0 = *self;
        self.regs.push(Registration { token: t, interest });
        proof {
            let n = r0.regs@.len() as int;
            assert forall|j: int| 0 <= j < n implies #[trigger] self.token_at(j) == r0.token_at(
                j,
            ) by {
                assert(self.regs@[j] == r0.regs@[j]);
            }
            assert(self.token_at(n) == t);
            assert forall|j: int| 0 <= j < n implies #[trigger] r0.token_at(j) != t by {
                if r0.token_at(j) == t {
                    r0.lemma_idx(j, t);
                }
            }
            assert(self.wf());
            self.lemma_idx(n, t);
            assert forall|t2: usize| #[trigger] self.has(t2) == (r0.has(t2) || t2 == t) by {
                if r0.has(t2) {
                    let j = r0.idx_of(t2);
                    assert(r0.token_at(j) == t2);
                    assert(self.token_at(j) == t2);
                }
                if self.has(t2) && t2 != t {
                    let j = self.idx_of(t2);
                    assert(self.token_at(j) == t2);
                    assert(j != n);
                    assert(r0.token_at(j) == t2);
                }
            }
            assert forall|t2: usize| t2 != t && r0.has(t2) implies #[trigger] self.interest_of(t2)
                == r0.interest_of(t2) by {
                let j = r0.idx_of(t2);
                assert(r0.token_at(j) == t2);
                r0.lemma_idx(j, t2);
                assert(self.token_at(j) == t2);
                self.lemma_idx(j, t2);
            }
        }
    }

    /// Changes the interest of a token that is registered.
    pub fn reregister(&mut self, t: usize, interest: Interest)
        requires
            old(self).wf(),
            old(self).has(t),
        ensures
            final(self).wf(),
            forall|t2: usize| #[trigger] final(self).has(t2) == old(self).has(t2),
            forall|t2: usize|
                t2 != t && old(self).has(t2) ==> #[trigger] final(self).interest_of(t2) == old(
                    self,
                ).interest_of(t2),
            final(self).interest_of(t) == interest,
    {
        let ghost r0 = *self;
        let i = self.find_idx(t);
        let c = &mut self.regs[i];
        c.interest = interest;
        proof {
            let n = r0.regs@.len() as int;
            let iw = i as int;
            assert forall|j: int| 0 <= j < n implies #[trigger] self.token_at(j) == r0.token_at(
                j,
            ) by {
                if j != iw {
                    assert(self.regs@[j] == r0.regs@[j]);
                }
            }
            assert(self.wf());
            r0.lemma_idx(iw, t);
            self.lemma_idx(iw, t);
            assert forall|t2: usize| #[trigger] self.has(t2) == r0.has(t2) by {
                if r0.has(t2) {
                    let j = r0.idx_of(t2);
                    assert(r0.token_at(j) == t2);
                    assert(self.token_at(j) == t2);
                }
                if self.has(t2) {
                    let j = self.idx_of(t2);
                    assert(self.token_at(j) == t2);
                    assert(r0.token_at(j) == t2);
                    assert(r0.has(t2));
                }
            }
            assert forall|t2: usize| t2 != t && r0.has(t2) implies #[trigger] self.interest_of(t2)
                == r0.interest_of(t2) by {
                let j = r0.idx_of(t2);
                assert(r0.token_at(j) == t2);
                r0.lemma_idx(j, t2);
                assert(j != iw);
                assert(self.regs@[j] == r0.regs@[j]);
                self.lemma_idx(j, t2);
            }
        }
    }

    /// Drops the registration of token `t`, if present.
    pub fn deregister(&mut self, t: usize) -> (existed: bool)
        requires
            old(self).wf(),
        ensures
            final(self).wf(),
            existed == old(self).has(t),
            !final(self).has(t),
            forall|t2: usize| t2 != t ==> #[trigger] final(self).has(t2) == old(self).has(t2),
            forall|t2: usize|
                t2 != t && old(self).has(t2) ==> #[trigger] final(self).interest_of(t2) == old(
                    self,
                ).interest_of(t2),
            !old(self).has(t) ==> *final(self) == *old(self),
    {
        let present = self.contains(t);
        if !present {
            return false;
        }
        let i = self.find_idx(t);
        let ghost r0 = *self;
        self.regs.remove(i);
        proof {
            let n = r0.regs@.len() as int;
            let iw = i as int;
            assert forall|j: int| 0 <= j < n - 1 implies #[trigger] self.regs@[j] == (if j < iw {
                r0.regs@[j]
            } else {
                r0.regs@[j + 1]
            }) by {
                assert(self.regs@ == r0.regs@.remove(iw));
            }
            assert forall|j: int| 0 <= j < n - 1 implies #[trigger] self.token_at(j) == (if j < iw {
                r0.token_at(j)
            } else {
                r0.token_at(j + 1)
            }) by {}
            assert(self.wf());
            assert forall|j: int| 0 <= j < n - 1 implies #[trigger] self.token_at(j) != t by {
                if j < iw {
                    if r0.token_at(j) == t {
                        r0.lemma_idx(j, t);
                    }
                } else {
                    if r0.token_at(j + 1) == t {
                        r0.lemma_idx(j + 1, t);
                    }
                }
            }
            if self.has(t) {
                let w = self.idx_of(t);
                assert(self.token_at(w) == t);
            }
            assert forall|t2: usize| t2 != t implies #[trigger] self.has(t2) == r0.has(t2) by {
                if r0.has(t2) {
                    let j = r0.idx_of(t2);
                    assert(r0.token_at(j) == t2);
                    assert(j != iw);
                    if j < iw {
                        assert(self.token_at(j) == t2);
                    } else {
                        assert(self.token_at(j - 1) == t2);
                    }
                }
                if self.has(t2) {
                    let j = self.idx_of(t2);
                    assert(self.token_at(j) == t2);
                    assert(r0.has(t2)) by {
                        if j < iw {
                            assert(r0.token_at(j) == t2);
                        } else {
                            assert(r0.token_at(j + 1) == t2);
                        }
                    }
                }
            }
            assert forall|t2: usize| t2 != t && r0.has(t2) implies #[trigger] self.interest_of(t2)
                == r0.interest_of(t2) by {
                let j = r0.idx_of(t2);
                assert(r0.token_at(j) == t2);
                r0.lemma_idx(j, t2);
                assert(j != iw);
                if j < iw {
                    self.lemma_idx(j, t2);
                } else {
                    self.lemma_idx(j - 1, t2);
                }
            }
        }
        true
    }
}

} // verus!
