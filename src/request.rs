//! Bookkeeping of the requests a sync client sends: pending requests wait until there is
//! room in flight for their kind (index or block); a request in flight without response
//! for longer than the timeout is sent again once, and a second timeout fails the link.

use vstd::prelude::*;

verus! {

#[derive(Clone, Copy, Debug, PartialEq, Eq, Structural)]
pub enum RequestKind {
    Index,
    Block,
}

/// A request and whether it timed out once already.
#[derive(Clone, Copy, Debug, PartialEq, Eq, Structural)]
pub struct Request {
    pub id: u64,
    pub kind: RequestKind,
    pub retried: bool,
}

/// A request in flight and when it was sent, in milliseconds.
#[derive(Clone, Copy, Debug, PartialEq, Eq, Structural)]
pub struct InFlight {
    pub request: Request,
    pub sent_at: u64,
}

/// What a tick of the clock brought.
#[derive(Clone, Copy, Debug, PartialEq, Eq, Structural)]
pub enum TickOutcome {
    /// Timed-out requests, if any, were queued again.
    Continue,
    /// A request timed out a second time: the link fails.
    FailLink,
}

/// Whether a request sent at `sent_at` has timed out at `now`.
pub open spec fn expired(sent_at: u64, now: u64, timeout: u64) -> bool {
    now >= sent_at && now - sent_at > timeout
}

/// The requests of `s` that time out at `now` for the first time, marked as retried.
pub open spec fn requeued(s: Seq<InFlight>, now: u64, timeout: u64) -> Seq<Request>
    decreases s.len(),
{
    if s.len() == 0 {
        Seq::empty()
    } else {
        let f = s.last();
        let rest = requeued(s.drop_last(), now, timeout);
        if expired(f.sent_at, now, timeout) && !f.request.retried {
            rest.push(Request { retried: true, ..f.request })
        } else {
            rest
        }
    }
}

/// Number of requests of `kind` in `s`.
pub open spec fn count_kind(s: Seq<InFlight>, kind: RequestKind) -> nat
    decreases s.len(),
{
    if s.len() == 0 {
        0
    } else {
        count_kind(s.drop_last(), kind) + if s.last().request.kind == kind {
            1nat
        } else {
            0nat
        }
    }
}

pub struct RequestTracker {
    pending: Vec<Request>,
    inflight: Vec<InFlight>,
    max_index_inflight: usize,
    max_block_inflight: usize,
    timeout: u64,
}

impl RequestTracker {
    pub closed spec fn spec_pending(&self) -> Seq<Request> {
        self.pending@
    }

    pub closed spec fn spec_inflight(&self) -> Seq<InFlight> {
        self.inflight@
    }

    pub closed spec fn spec_limit(&self, kind: RequestKind) -> usize {
        match kind {
            RequestKind::Index => self.max_index_inflight,
            RequestKind::Block => self.max_block_inflight,
        }
    }

    pub closed spec fn spec_timeout(&self) -> u64 {
        self.timeout
    }

    /// No kind has more requests in flight than its limit.
    pub open spec fn wf(&self) -> bool {
        &&& count_kind(self.spec_inflight(), RequestKind::Index) <= self.spec_limit(RequestKind::Index)
        &&& count_kind(self.spec_inflight(), RequestKind::Block) <= self.spec_limit(RequestKind::Block)
    }

    pub fn new(max_index_inflight: usize, max_block_inflight: usize, timeout: u64) -> (r: RequestTracker)
        ensures
            r.wf(),
            r.spec_pending().len() == 0,
            r.spec_inflight().len() == 0,
            r.spec_limit(RequestKind::Index) == max_index_inflight,
            r.spec_limit(RequestKind::Block) == max_block_inflight,
            r.spec_timeout() == timeout,
    {
        RequestTracker { pending: Vec::new(), inflight: Vec::new(), max_index_inflight, max_block_inflight, timeout }
    }

    /// Queues a new request.
    pub fn enqueue(&mut self, id: u64, kind: RequestKind)
        requires
            old(self).wf(),
        ensures
            final(self).wf(),
            final(self).spec_pending() == old(self).spec_pending().push(Request { id, kind, retried: false }),
            final(self).spec_inflight() == old(self).spec_inflight(),
            forall|k: RequestKind| #[trigger] final(self).spec_limit(k) == old(self).spec_limit(k),
            final(self).spec_timeout() == old(self).spec_timeout(),
    {
        self.pending.push(Request { id, kind, retried: false });
    }

    fn count(&self, kind: RequestKind) -> (r: usize)
        requires
            self.wf(),
        ensures
            r == count_kind(self.spec_inflight(), kind),
    {
        let mut n: usize = 0;
        let mut i: usize = 0;
        while i < self.inflight.len()
            invariant
                i <= self.inflight@.len(),
                self.wf(),
                n == count_kind(self.inflight@.subrange(0, i as int), kind),
                n <= i,
            decreases self.inflight@.len() - i,
        {
            proof {
                let t = self.inflight@.subrange(0, i + 1);
                assert(t.drop_last() =~= self.inflight@.subrange(0, i as int));
            }
            if self.inflight[i].request.kind == kind {
                n = n + 1;
            }
            i = i + 1;
        }
        assert(self.inflight@.subrange(0, self.inflight@.len() as int) =~= self.inflight@);
        n
    }

    /// Sends the oldest pending request whose kind has room in flight, if any: it moves to
    /// the requests in flight, sent at `now`, and its id is returned.
    pub fn next_to_send(&mut self, now: u64) -> (r: Option<u64>)
        requires
            old(self).wf(),
        ensures
            final(self).wf(),
            forall|k: RequestKind| #[trigger] final(self).spec_limit(k) == old(self).spec_limit(k),
            final(self).spec_timeout() == old(self).spec_timeout(),
            r is None ==> final(self).spec_pending() == old(self).spec_pending()
                && final(self).spec_inflight() == old(self).spec_inflight()
                && forall|i: int| 0 <= i < old(self).spec_pending().len() ==> count_kind(
                    old(self).spec_inflight(),
                    #[trigger] old(self).spec_pending()[i].kind,
                ) >= old(self).spec_limit(old(self).spec_pending()[i].kind),
            r matches Some(id) ==> exists|i: int|
                0 <= i < old(self).spec_pending().len() && #[trigger] old(self).spec_pending()[i].id == id
                    && final(self).spec_pending() == old(self).spec_pending().remove(i)
                    && final(self).spec_inflight() == old(self).spec_inflight().push(
                    InFlight { request: old(self).spec_pending()[i], sent_at: now },
                ),
    {
        let index_count = self.count(RequestKind::Index);
        let block_count = self.count(RequestKind::Block);
        let mut i: usize = 0;
        while i < self.pending.len()
            invariant
                i <= self.pending@.len(),
                self.pending@ == old(self).pending@,
                self.inflight@ == old(self).inflight@,
                self.max_index_inflight == old(self).max_index_inflight,
                self.max_block_inflight == old(self).max_block_inflight,
                self.timeout == old(self).timeout,
                self.wf(),
                index_count == count_kind(self.inflight@, RequestKind::Index),
                block_count == count_kind(self.inflight@, RequestKind::Block),
                forall|k: int| 0 <= k < i ==> count_kind(
                    self.inflight@,
                    #[trigger] self.pending@[k].kind,
                ) >= self.spec_limit(self.pending@[k].kind),
            decreases self.pending@.len() - i,
        {
            let request = self.pending[i];
            let room = match request.kind {
                RequestKind::Index => index_count < self.max_index_inflight,
                RequestKind::Block => block_count < self.max_block_inflight,
            };
            if room {
                self.pending.remove(i);
                self.inflight.push(InFlight { request, sent_at: now });
                proof {
                    let s = self.inflight@;
                    assert(s.drop_last() =~= old(self).inflight@);
                    assert(old(self).pending@[i as int].id == request.id);
                }
                return Some(request.id);
            }
            i = i + 1;
        }
        None
    }

    /// A response to request `id` arrived: it leaves the requests in flight. Returns whether
    /// it was in flight.
    pub fn on_response(&mut self, id: u64) -> (r: bool)
        requires
            old(self).wf(),
        ensures
            final(self).wf(),
            forall|k: RequestKind| #[trigger] final(self).spec_limit(k) == old(self).spec_limit(k),
            final(self).spec_timeout() == old(self).spec_timeout(),
            final(self).spec_pending() == old(self).spec_pending(),
            r == exists|i: int| 0 <= i < old(self).spec_inflight().len() && #[trigger] old(self).spec_inflight()[i].request.id == id,
            r ==> exists|i: int|
                0 <= i < old(self).spec_inflight().len() && #[trigger] old(self).spec_inflight()[i].request.id == id
                    && final(self).spec_inflight() == old(self).spec_inflight().remove(i),
            !r ==> final(self).spec_inflight() == old(self).spec_inflight(),
    {
        let mut i: usize = 0;
        while i < self.inflight.len()
            invariant
                i <= self.inflight@.len(),
                self.inflight@ == old(self).inflight@,
                self.pending@ == old(self).pending@,
                self.max_index_inflight == old(self).max_index_inflight,
                self.max_block_inflight == old(self).max_block_inflight,
                self.timeout == old(self).timeout,
                old(self).wf(),
                forall|k: int| 0 <= k < i ==> #[trigger] self.inflight@[k].request.id != id,
            decreases self.inflight@.len() - i,
        {
            if self.inflight[i].request.id == id {
                self.inflight.remove(i);
                proof {
                    assert(self.inflight@ == old(self).inflight@.remove(i as int));
                    lemma_count_remove(old(self).inflight@, i as int, RequestKind::Index);
                    lemma_count_remove(old(self).inflight@, i as int, RequestKind::Block);
                    assert(old(self).wf());
                    assert(count_kind(self.inflight@, RequestKind::Index) <= old(self).max_index_inflight);
                    assert(count_kind(self.inflight@, RequestKind::Block) <= old(self).max_block_inflight);
                }
                return true;
            }
            i = i + 1;
        }
        false
    }

    /// The clock reads `now`: every request in flight that timed out leaves the requests in
    /// flight; one that timed out for the first time is queued again, marked as retried. If
    /// one had been retried already, the link fails.
    pub fn on_tick(&mut self, now: u64) -> (r: TickOutcome)
        requires
            old(self).wf(),
        ensures
            final(self).wf(),
            forall|k: RequestKind| #[trigger] final(self).spec_limit(k) == old(self).spec_limit(k),
            final(self).spec_timeout() == old(self).spec_timeout(),
            r == TickOutcome::FailLink <==> exists|i: int|
                0 <= i < old(self).spec_inflight().len() && expired(
                    #[trigger] old(self).spec_inflight()[i].sent_at,
                    now,
                    old(self).spec_timeout(),
                ) && old(self).spec_inflight()[i].request.retried,
            final(self).spec_inflight() == old(self).spec_inflight().filter(
                |f: InFlight| !expired(f.sent_at, now, old(self).spec_timeout()),
            ),
            final(self).spec_pending() == old(self).spec_pending() + requeued(
                old(self).spec_inflight(),
                now,
                old(self).spec_timeout(),
            ),
    {
        let ghost keep = |f: InFlight| !expired(f.sent_at, now, self.timeout);
        let mut kept: Vec<InFlight> = Vec::new();
        let mut fail = false;
        let mut i: usize = 0;
        while i < self.inflight.len()
            invariant
                i <= self.inflight@.len(),
                self.inflight@ == old(self).inflight@,
                self.max_index_inflight == old(self).max_index_inflight,
                self.max_block_inflight == old(self).max_block_inflight,
                self.timeout == old(self).timeout,
                keep == (|f: InFlight| !expired(f.sent_at, now, old(self).timeout)),
                kept@ == self.inflight@.subrange(0, i as int).filter(keep),
                self.pending@ == old(self).pending@ + requeued(self.inflight@.subrange(0, i as int), now, self.timeout),
                count_kind(kept@, RequestKind::Index) <= count_kind(self.inflight@.subrange(0, i as int), RequestKind::Index),
                count_kind(kept@, RequestKind::Block) <= count_kind(self.inflight@.subrange(0, i as int), RequestKind::Block),
                fail == exists|k: int|
                    0 <= k < i && expired(#[trigger] self.inflight@[k].sent_at, now, self.timeout)
                        && self.inflight@[k].request.retried,
            decreases self.inflight@.len() - i,
        {
            let f = self.inflight[i];
            proof {
                reveal(Seq::filter);
                let t = self.inflight@.subrange(0, i + 1);
                assert(t.drop_last() =~= self.inflight@.subrange(0, i as int));
                assert(t.last() == f);
            }
            if now >= f.sent_at && now - f.sent_at > self.timeout {
                if f.request.retried {
                    fail = true;
                } else {
                    self.pending.push(Request { retried: true, ..f.request });
                    proof {
                        let t = self.inflight@.subrange(0, i + 1);
                        assert(self.pending@ =~= old(self).pending@ + requeued(t, now, self.timeout));
                    }
                }
            } else {
                kept.push(f);
                proof {
                    assert(kept@.drop_last() =~= self.inflight@.subrange(0, i as int).filter(keep));
                }
            }
            i = i + 1;
        }
        assert(self.inflight@.subrange(0, self.inflight@.len() as int) =~= self.inflight@);
        self.inflight = kept;
        if fail {
            TickOutcome::FailLink
        } else {
            TickOutcome::Continue
        }
    }
}

proof fn lemma_count_remove(s: Seq<InFlight>, i: int, kind: RequestKind)
    requires
        0 <= i < s.len(),
    ensures
        count_kind(s.remove(i), kind) <= count_kind(s, kind),
    decreases s.len(),
{
    if i == s.len() - 1 {
        assert(s.remove(i) =~= s.drop_last());
    } else {
        lemma_count_remove(s.drop_last(), i, kind);
        assert(s.remove(i).drop_last() =~= s.drop_last().remove(i));
        assert(s.remove(i).last() == s.last());
    }
}

} // verus!
