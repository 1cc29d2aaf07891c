//! Peer exchange: telling the peers of a repository about each other.

use vstd::prelude::*;
use crate::peer_addr::{is_global, spec_is_global, PeerAddr};
use crate::replica_id::bytes_equal;

verus! {

/// Largest number of contacts sent in one announcement; from more, a random subset of this
/// size is sent.
pub const MAX_CONTACTS_PER_MESSAGE: usize = 25;

/// Time after a contact was announced to a peer during which it is not announced to that
/// peer again, in milliseconds.
pub const CONTACT_EXPIRY_MS: u64 = 600_000;

/// Size of a runtime id in bytes.
pub const RUNTIME_ID_SIZE: usize = 32;

/// Public key that identifies a running node.
#[derive(Clone, Copy, Debug, PartialEq, Eq, Hash)]
pub struct RuntimeId(pub [u8; RUNTIME_ID_SIZE]);

/// Who opened a connection.
#[derive(Clone, Copy, Debug, PartialEq, Eq, Hash, Structural)]
pub enum ConnectionDirection {
    Incoming,
    Outgoing,
}

/// One live connection to a peer.
#[derive(Clone, Copy, Debug, PartialEq, Eq, Hash, Structural)]
pub struct ConnectionInfo {
    pub addr: PeerAddr,
    pub dir: ConnectionDirection,
}

/// Whether `info` may be announced to a recipient that is local (`to_local`) or not:
/// global addresses go to everyone, others only to local recipients, and an incoming TCP
/// connection is never announced, as its port cannot be dialed.
pub open spec fn announceable(info: ConnectionInfo, to_local: bool) -> bool {
    &&& to_local || spec_is_global(info.addr.spec_socket_addr().ip)
    &&& !(info.addr is Tcp) || info.dir == ConnectionDirection::Outgoing
}

/// Live connections of each peer bound to a repository.
pub struct ContactSet {
    entries: Vec<(RuntimeId, Vec<ConnectionInfo>)>,
}

impl ContactSet {
    /// Peer ids and their connections.
    pub closed spec fn spec_entries(&self) -> Seq<(Seq<u8>, Seq<ConnectionInfo>)> {
        self.entries@.map_values(|e: (RuntimeId, Vec<ConnectionInfo>)| (e.0.0@, e.1@))
    }

    /// Every peer appears once.
    pub open spec fn wf(&self) -> bool {
        forall|i: int, j: int|
            0 <= i < j < self.spec_entries().len() ==> #[trigger] self.spec_entries()[i].0
                != #[trigger] self.spec_entries()[j].0
    }

    /// Connections of peer `id`, if it is in the set.
    pub open spec fn spec_get(&self, id: Seq<u8>) -> Option<Seq<ConnectionInfo>> {
        if exists|i: int| 0 <= i < self.spec_entries().len() && self.spec_entries()[i].0 == id {
            let i = choose|i: int| 0 <= i < self.spec_entries().len() && self.spec_entries()[i].0 == id;
            Some(self.spec_entries()[i].1)
        } else {
            None
        }
    }

    /// A peer is local to this node when one of its connections is at a non-global address.
    pub open spec fn spec_is_local(&self, id: Seq<u8>) -> bool {
        match self.spec_get(id) {
            Some(conns) => exists|j: int|
                0 <= j < conns.len() && !spec_is_global(conns[j].addr.spec_socket_addr().ip),
            None => false,
        }
    }

    pub fn new() -> (r: ContactSet)
        ensures
            r.wf(),
            r.spec_entries().len() == 0,
    {
        let r = ContactSet { entries: Vec::new() };
        assert(r.spec_entries() =~= Seq::<(Seq<u8>, Seq<ConnectionInfo>)>::empty());
        r
    }

    fn find(&self, id: &RuntimeId) -> (r: Option<usize>)
        ensures
            match r {
                Some(i) => i < self.spec_entries().len() && self.spec_entries()[i as int].0
                    == id.0@,
                None => forall|i: int|
                    0 <= i < self.spec_entries().len() ==> self.spec_entries()[i].0 != id.0@,
            },
    {
        let mut i: usize = 0;
        while i < self.entries.len()
            invariant
                i <= self.entries@.len(),
                forall|k: int| 0 <= k < i ==> self.spec_entries()[k].0 != id.0@,
            decreases self.entries@.len() - i,
        {
            if bytes_equal(self.entries[i].0.0.as_slice(), id.0.as_slice()) {
                return Some(i);
            }
            i = i + 1;
        }
        None
    }

    /// Sets the connections of `peer_id`, replacing those it had.
    pub fn insert(&mut self, peer_id: RuntimeId, connections: Vec<ConnectionInfo>)
        requires
            old(self).wf(),
        ensures
            final(self).wf(),
            final(self).spec_get(peer_id.0@) == Some(connections@),
            forall|id: Seq<u8>| id != peer_id.0@ ==> final(self).spec_get(id) == old(self).spec_get(id),
    {
        let ghost conns = connections@;
        let ghost idx: int;
        match self.find(&peer_id) {
            Some(i) => {
                self.entries.set(i, (peer_id, connections));
                proof {
                    idx = i as int;
                    assert(self.spec_entries() =~= old(self).spec_entries().update(
                        i as int,
                        (peer_id.0@, conns),
                    ));
                }
            },
            None => {
                self.entries.push((peer_id, connections));
                proof {
                    idx = old(self).spec_entries().len() as int;
                    assert(self.spec_entries() =~= old(self).spec_entries().push(
                        (peer_id.0@, conns),
                    ));
                }
            },
        }
        proof {
            assert(self.spec_entries()[idx] == (peer_id.0@, conns));
            assert(self.wf());
            let c = choose|c: int| 0 <= c < self.spec_entries().len() && self.spec_entries()[c].0 == peer_id.0@;
            assert(c == idx);
            assert forall|id: Seq<u8>| id != peer_id.0@ implies self.spec_get(id) == old(
                self,
            ).spec_get(id) by {
                if exists|k: int| 0 <= k < old(self).spec_entries().len() && old(self).spec_entries()[k].0 == id {
                    let k = choose|k: int| 0 <= k < old(self).spec_entries().len() && old(self).spec_entries()[k].0 == id;
                    assert(self.spec_entries()[k].0 == id);
                    let c2 = choose|c2: int| 0 <= c2 < self.spec_entries().len() && self.spec_entries()[c2].0 == id;
                    assert(c2 == k);
                } else {
                    assert forall|k: int| 0 <= k < self.spec_entries().len() implies self.spec_entries()[k].0 != id by {
                        if k != idx {
                            assert(self.spec_entries()[k] == old(self).spec_entries()[k]);
                        }
                    }
                }
            }
        }
    }

    spec fn index_of(&self, id: Seq<u8>) -> int {
        choose|i: int| 0 <= i < self.spec_entries().len() && self.spec_entries()[i].0 == id
    }

    /// Removes `peer_id` and its connections.
    pub fn remove(&mut self, peer_id: &RuntimeId)
        requires
            old(self).wf(),
        ensures
            final(self).wf(),
            final(self).spec_get(peer_id.0@) is None,
            forall|id: Seq<u8>| id != peer_id.0@ ==> final(self).spec_get(id) == old(self).spec_get(id),
    {
        match self.find(peer_id) {
            Some(i) => {
                self.entries.remove(i);
                proof {
                    let o = old(self).spec_entries();
                    assert(self.spec_entries() =~= o.remove(i as int));
                    assert(self.wf()) by {
                        assert forall|p: int, q: int| 0 <= p < q < self.spec_entries().len() implies #[trigger] self.spec_entries()[p].0 != #[trigger] self.spec_entries()[q].0 by {
                            let pp = if p < i { p } else { p + 1 };
                            let qq = if q < i { q } else { q + 1 };
                            assert(o[pp].0 != o[qq].0);
                        }
                    }
                    assert forall|id: Seq<u8>| id != peer_id.0@ implies self.spec_get(id) == old(
                        self,
                    ).spec_get(id) by {
                        if exists|k: int| 0 <= k < o.len() && o[k].0 == id {
                            let k = choose|k: int| 0 <= k < o.len() && o[k].0 == id;
                            let kk = if k < i { k } else { k - 1 };
                            assert(self.spec_entries()[kk].0 == id);
                            let c2 = choose|c2: int| 0 <= c2 < self.spec_entries().len() && self.spec_entries()[c2].0 == id;
                            let cc = if c2 < i { c2 } else { c2 + 1 };
                            assert(o[cc].0 == id);
                            assert(cc == k);
                        } else {
                            assert forall|k: int| 0 <= k < self.spec_entries().len() implies self.spec_entries()[k].0 != id by {
                                let kk = if k < i { k } else { k + 1 };
                                assert(self.spec_entries()[k] == o[kk]);
                            }
                        }
                    }
                    assert forall|k: int| 0 <= k < self.spec_entries().len() implies self.spec_entries()[k].0 != peer_id.0@ by {
                        let kk = if k < i { k } else { k + 1 };
                        assert(self.spec_entries()[k] == o[kk]);
                        assert(kk != i);
                    }
                }
            },
            None => {},
        }
    }

    /// Addresses to announce to `recipient`: those of every other peer that may be
    /// announced to it (see `announceable`), where the recipient counts as local when one
    /// of its own connections is at a non-global address.
    pub fn iter_for(&self, recipient: &RuntimeId) -> (r: Vec<PeerAddr>)
        requires
            self.wf(),
        ensures
            forall|a: PeerAddr|
                r@.contains(a) <==> exists|p: int, q: int|
                    #![trigger self.spec_entries()[p].1[q]]
                    listed(
                        self.spec_entries(),
                        recipient.0@,
                        self.spec_is_local(recipient.0@),
                        p,
                        q,
                        a,
                    ),
    {
        let ghost entries = self.spec_entries();
        let is_local = match self.find(recipient) {
            Some(k) => {
                let conns = &self.entries[k].1;
                let mut found = false;
                let mut j: usize = 0;
                while j < conns.len()
                    invariant
                        j <= conns@.len(),
                        conns@ == entries[k as int].1,
                        found == exists|m: int|
                            0 <= m < j && !spec_is_global(conns@[m].addr.spec_socket_addr().ip),
                    decreases conns@.len() - j,
                {
                    if !is_global(&conns[j].addr.socket_addr().ip) {
                        found = true;
                    }
                    j = j + 1;
                }
                proof {
                    assert(entries[k as int].0 == recipient.0@);
                    let c = choose|c: int| 0 <= c < entries.len() && entries[c].0 == recipient.0@;
                    assert(c == k);
                }
                found
            },
            None => false,
        };
        let mut r: Vec<PeerAddr> = Vec::new();
        let mut i: usize = 0;
        while i < self.entries.len()
            invariant
                i <= entries.len(),
                entries == self.spec_entries(),
                self.entries@.len() == entries.len(),
                is_local == self.spec_is_local(recipient.0@),
                forall|a: PeerAddr|
                    r@.contains(a) <==> exists|p: int, q: int|
                        #![trigger entries[p].1[q]]
                        0 <= p < i && listed(entries, recipient.0@, is_local, p, q, a),
            decreases entries.len() - i,
        {
            let skip = bytes_equal(self.entries[i].0.0.as_slice(), recipient.0.as_slice());
            let conns = &self.entries[i].1;
            assert(conns@ == entries[i as int].1);
            let mut j: usize = 0;
            while j < conns.len()
                invariant
                    j <= conns@.len(),
                    i < entries.len(),
                    conns@ == entries[i as int].1,
                    skip == (entries[i as int].0 == recipient.0@),
                    forall|a: PeerAddr|
                        r@.contains(a) <==> exists|p: int, q: int|
                            #![trigger entries[p].1[q]]
                            (0 <= p < i || (p == i && q < j)) && listed(
                                entries,
                                recipient.0@,
                                is_local,
                                p,
                                q,
                                a,
                            ),
                decreases conns@.len() - j,
            {
                let info = conns[j];
                let wanted = !skip && (is_local || is_global(&info.addr.socket_addr().ip)) && (
                !info.addr.is_tcp() || info.dir == ConnectionDirection::Outgoing);
                let ghost prev = r@;
                if wanted {
                    r.push(info.addr);
                }
                proof {
                    assert forall|a: PeerAddr| r@.contains(a) <==> exists|p: int, q: int|
                        #![trigger entries[p].1[q]]
                        (0 <= p < i || (p == i && q < j + 1)) && listed(
                            entries,
                            recipient.0@,
                            is_local,
                            p,
                            q,
                            a,
                        ) by {
                        if wanted {
                            lemma_push_contains(prev, info.addr, a);
                        }
                        if listed(entries, recipient.0@, is_local, i as int, j as int, a) {
                            assert(entries[i as int].1[j as int] == info);
                        }
                        if r@.contains(a) && !prev.contains(a) {
                            assert(listed(entries, recipient.0@, is_local, i as int, j as int, a));
                        }
                        if exists|p: int, q: int|
                            #![trigger entries[p].1[q]]
                            (0 <= p < i || (p == i && q < j + 1)) && listed(
                                entries,
                                recipient.0@,
                                is_local,
                                p,
                                q,
                                a,
                            ) {
                            let (p, q) = choose|p: int, q: int|
                                #![trigger entries[p].1[q]]
                                (0 <= p < i || (p == i && q < j + 1)) && listed(
                                    entries,
                                    recipient.0@,
                                    is_local,
                                    p,
                                    q,
                                    a,
                                );
                            if p == i && q == j {
                                assert(entries[i as int].1[j as int] == info);
                            } else {
                                assert(prev.contains(a));
                            }
                        }
                    }
                }
                j = j + 1;
            }
            proof {
                assert forall|a: PeerAddr| r@.contains(a) <==> exists|p: int, q: int|
                    #![trigger entries[p].1[q]]
                    0 <= p < i + 1 && listed(entries, recipient.0@, is_local, p, q, a) by {
                    if exists|p: int, q: int|
                        #![trigger entries[p].1[q]]
                        0 <= p < i + 1 && listed(entries, recipient.0@, is_local, p, q, a) {
                        let (p, q) = choose|p: int, q: int|
                            #![trigger entries[p].1[q]]
                            0 <= p < i + 1 && listed(entries, recipient.0@, is_local, p, q, a);
                        assert((0 <= p < i || (p == i && q < j)) && listed(
                            entries,
                            recipient.0@,
                            is_local,
                            p,
                            q,
                            a,
                        ));
                    }
                }
            }
            i = i + 1;
        }
        r
    }
}

/// Whether connection `q` of entry `p` is announced, with address `a`, to `recipient`.
pub open spec fn listed(
    entries: Seq<(Seq<u8>, Seq<ConnectionInfo>)>,
    recipient: Seq<u8>,
    to_local: bool,
    p: int,
    q: int,
    a: PeerAddr,
) -> bool {
    &&& 0 <= p < entries.len()
    &&& entries[p].0 != recipient
    &&& 0 <= q < entries[p].1.len()
    &&& announceable(entries[p].1[q], to_local)
    &&& entries[p].1[q].addr == a
}

proof fn lemma_push_contains(s: Seq<PeerAddr>, x: PeerAddr, a: PeerAddr)
    ensures
        s.push(x).contains(a) <==> (s.contains(a) || a == x),
{
    if s.push(x).contains(a) {
        let t = choose|t: int| 0 <= t < s.push(x).len() && s.push(x)[t] == a;
        if t < s.len() {
            assert(s[t] == a);
        }
    }
    if s.contains(a) {
        let t = choose|t: int| 0 <= t < s.len() && s[t] == a;
        assert(s.push(x)[t] == a);
    }
    if a == x {
        assert(s.push(x)[s.len() as int] == x);
    }
}

/// Remembers which contacts were announced recently, so that each is announced again only
/// after the expiry time.
pub struct RecentFilter {
    seen: Vec<(PeerAddr, u64)>,
    expiry: u64,
}

/// Whether a contact announced at `timestamp` is still recent at `now`.
pub open spec fn is_recent(timestamp: u64, now: u64, expiry: u64) -> bool {
    timestamp > now || now - timestamp <= expiry
}

/// The test of `is_recent` as a predicate on remembered contacts.
pub open spec fn recent_at(now: u64, expiry: u64) -> spec_fn((PeerAddr, u64)) -> bool {
    |e: (PeerAddr, u64)| is_recent(e.1, now, expiry)
}

impl RecentFilter {
    /// Contacts with the time they were announced, in milliseconds.
    pub closed spec fn spec_seen(&self) -> Seq<(PeerAddr, u64)> {
        self.seen@
    }

    pub closed spec fn spec_expiry(&self) -> u64 {
        self.expiry
    }

    pub fn new(expiry: u64) -> (r: RecentFilter)
        ensures
            r.spec_seen().len() == 0,
            r.spec_expiry() == expiry,
    {
        RecentFilter { seen: Vec::new(), expiry }
    }

    /// Drops the contacts that are no longer recent at `now`.
    fn cleanup(&mut self, now: u64)
        ensures
            final(self).expiry == old(self).expiry,
            final(self).seen@ == old(self).seen@.filter(recent_at(now, old(self).expiry)),
    {
        let mut kept: Vec<(PeerAddr, u64)> = Vec::new();
        let mut i: usize = 0;
        let ghost f = recent_at(now, self.expiry);
        while i < self.seen.len()
            invariant
                i <= self.seen@.len(),
                self.seen@ == old(self).seen@,
                self.expiry == old(self).expiry,
                f == recent_at(now, old(self).expiry),
                kept@ == self.seen@.subrange(0, i as int).filter(f),
            decreases self.seen@.len() - i,
        {
            let e = self.seen[i];
            proof {
                reveal(Seq::filter);
                let t = self.seen@.subrange(0, i + 1);
                assert(t.drop_last() =~= self.seen@.subrange(0, i as int));
                assert(t.last() == e);
            }
            if e.1 > now || now - e.1 <= self.expiry {
                kept.push(e);
            }
            i = i + 1;
        }
        assert(self.seen@.subrange(0, self.seen@.len() as int) =~= self.seen@);
        self.seen = kept;
    }

    /// Whether `addr` may be announced at `now`: true, and remembered, when it was not
    /// announced within the expiry time; false otherwise. Contacts that are no longer
    /// recent are forgotten either way.
    pub fn apply(&mut self, addr: PeerAddr, now: u64) -> (r: bool)
        ensures
            final(self).spec_expiry() == old(self).spec_expiry(),
            r == !(exists|i: int|
                0 <= i < old(self).spec_seen().len() && old(self).spec_seen()[i].0 == addr
                    && is_recent(old(self).spec_seen()[i].1, now, old(self).spec_expiry())),
            r ==> final(self).spec_seen() == old(self).spec_seen().filter(
                recent_at(now, old(self).spec_expiry()),
            ).push((addr, now)),
            !r ==> final(self).spec_seen() == old(self).spec_seen().filter(
                recent_at(now, old(self).spec_expiry()),
            ),
    {
        self.cleanup(now);
        let ghost f = recent_at(now, old(self).expiry);
        let mut i: usize = 0;
        while i < self.seen.len()
            invariant
                i <= self.seen@.len(),
                self.seen@ == old(self).seen@.filter(f),
                self.expiry == old(self).expiry,
                f == recent_at(now, old(self).expiry),
                forall|k: int| 0 <= k < i ==> self.seen@[k].0 != addr,
            decreases self.seen@.len() - i,
        {
            if self.seen[i].0 == addr {
                proof {
                    let e = self.seen@[i as int];
                    old(self).seen@.lemma_filter_pred(f, i as int);
                    old(self).seen@.lemma_filter_contains_rev(f, e);
                    let t = choose|t: int| 0 <= t < old(self).seen@.len() && old(self).seen@[t] == e;
                    assert(old(self).seen@[t].0 == addr);
                }
                return false;
            }
            i = i + 1;
        }
        proof {
            assert forall|k: int|
                0 <= k < old(self).seen@.len() && old(self).seen@[k].0 == addr implies !is_recent(
                old(self).seen@[k].1,
                now,
                old(self).expiry,
            ) by {
                if is_recent(old(self).seen@[k].1, now, old(self).expiry) {
                    old(self).seen@.lemma_filter_contains(f, k);
                    let t = choose|t: int| 0 <= t < self.seen@.len() && self.seen@[t] == old(self).seen@[k];
                    assert(self.seen@[t].0 == addr);
                }
            }
        }
        self.seen.push((addr, now));
        true
    }
}

/// Relies on rand::seq::index::sample with the thread-local generator: `amount` distinct
/// indices below `length`, in random order. It panics when `amount > length`.
#[verifier::external_body]
fn sample_indices(length: usize, amount: usize) -> (r: Vec<usize>)
    requires
        amount <= length,
    ensures
        r@.len() == amount,
        forall|i: int| 0 <= i < r@.len() ==> r@[i] < length,
        forall|i: int, j: int| 0 <= i < j < r@.len() ==> r@[i] != r@[j],
{
    rand::seq::index::sample(&mut rand::thread_rng(), length, amount).into_vec()
}

/// The contacts at `indices`, in that order.
pub fn pick(contacts: &Vec<PeerAddr>, indices: &Vec<usize>) -> (r: Vec<PeerAddr>)
    requires
        forall|i: int| 0 <= i < indices@.len() ==> indices@[i] < contacts@.len(),
    ensures
        r@.len() == indices@.len(),
        forall|i: int| 0 <= i < r@.len() ==> r@[i] == contacts@[indices@[i] as int],
{
    let mut r: Vec<PeerAddr> = Vec::new();
    let mut i: usize = 0;
    while i < indices.len()
        invariant
            i <= indices@.len(),
            forall|k: int| 0 <= k < indices@.len() ==> indices@[k] < contacts@.len(),
            r@.len() == i,
            forall|k: int| 0 <= k < i ==> r@[k] == contacts@[indices@[k] as int],
        decreases indices@.len() - i,
    {
        r.push(contacts[indices[i]]);
        i = i + 1;
    }
    r
}

/// Group of announcers of one repository, one per linked peer, sharing the contact set.
pub struct PexAnnouncerGroup {
    pub contacts: ContactSet,
}

/// Announces the repository's contacts to one peer.
#[derive(Clone, Copy, Debug, PartialEq, Eq)]
pub struct PexAnnouncer {
    pub peer_id: RuntimeId,
}

impl PexAnnouncerGroup {
    pub fn new() -> (r: PexAnnouncerGroup)
        ensures
            r.contacts.wf(),
            r.contacts.spec_entries().len() == 0,
    {
        PexAnnouncerGroup { contacts: ContactSet::new() }
    }

    /// Adds a peer with its live connections and returns the announcer for it.
    pub fn bind(&mut self, peer_id: RuntimeId, connections: Vec<ConnectionInfo>) -> (r: PexAnnouncer)
        requires
            old(self).contacts.wf(),
        ensures
            final(self).contacts.wf(),
            r.peer_id == peer_id,
            final(self).contacts.spec_get(peer_id.0@) == Some(connections@),
            forall|id: Seq<u8>|
                id != peer_id.0@ ==> final(self).contacts.spec_get(id) == old(self).contacts.spec_get(id),
    {
        self.contacts.insert(peer_id, connections);
        PexAnnouncer { peer_id }
    }

    /// Removes the peer of `announcer` when its link goes away.
    pub fn unbind(&mut self, announcer: PexAnnouncer)
        requires
            old(self).contacts.wf(),
        ensures
            final(self).contacts.wf(),
            final(self).contacts.spec_get(announcer.peer_id.0@) is None,
            forall|id: Seq<u8>|
                id != announcer.peer_id.0@ ==> final(self).contacts.spec_get(id) == old(self).contacts.spec_get(id),
    {
        self.contacts.remove(&announcer.peer_id);
    }
}

/// What to announce from `candidates`: all of them when they fit in one message, otherwise
/// the ones at `chosen`, which must be `MAX_CONTACTS_PER_MESSAGE` distinct indices.
pub fn limit_contacts(candidates: Vec<PeerAddr>, chosen: &Vec<usize>) -> (r: Vec<PeerAddr>)
    requires
        candidates@.len() > MAX_CONTACTS_PER_MESSAGE ==> chosen@.len() == MAX_CONTACTS_PER_MESSAGE
            && forall|i: int| 0 <= i < chosen@.len() ==> chosen@[i] < candidates@.len(),
    ensures
        candidates@.len() <= MAX_CONTACTS_PER_MESSAGE ==> r@ == candidates@,
        candidates@.len() > MAX_CONTACTS_PER_MESSAGE ==> r@.len() == MAX_CONTACTS_PER_MESSAGE
            && forall|i: int| 0 <= i < r@.len() ==> r@[i] == candidates@[chosen@[i] as int],
{
    if candidates.len() <= MAX_CONTACTS_PER_MESSAGE {
        candidates
    } else {
        pick(&candidates, chosen)
    }
}

/// Whether `filter` holds `addr` as announced recently at `now`.
pub open spec fn recently_announced(filter: RecentFilter, addr: PeerAddr, now: u64) -> bool {
    exists|j: int|
        0 <= j < filter.spec_seen().len() && filter.spec_seen()[j].0 == addr && is_recent(
            #[trigger] filter.spec_seen()[j].1,
            now,
            filter.spec_expiry(),
        )
}

/// Whether `addr` may be announced to the peer of `announcer`.
pub open spec fn announceable_to(group: &PexAnnouncerGroup, announcer: &PexAnnouncer, addr: PeerAddr) -> bool {
    exists|p: int, q: int|
        #![trigger group.contacts.spec_entries()[p].1[q]]
        listed(
            group.contacts.spec_entries(),
            announcer.peer_id.0@,
            group.contacts.spec_is_local(announcer.peer_id.0@),
            p,
            q,
            addr,
        )
}

/// Contacts to announce to `announcer`'s peer at `now`: the addresses that may be announced
/// to it (see `ContactSet::iter_for`), each once, that `filter` lets through, at most
/// `MAX_CONTACTS_PER_MESSAGE` of them, drawn at random when there are more. Every address
/// that may be announced and was not announced recently is in the result, unless the
/// result is full.
pub fn announce(group: &PexAnnouncerGroup, announcer: &PexAnnouncer, filter: &mut RecentFilter, now: u64) -> (r: Vec<PeerAddr>)
    requires
        group.contacts.wf(),
    ensures
        r@.len() <= MAX_CONTACTS_PER_MESSAGE,
        r@.no_duplicates(),
        forall|a: PeerAddr| #[trigger] r@.contains(a) ==> announceable_to(group, announcer, a),
        r@.len() < MAX_CONTACTS_PER_MESSAGE ==> forall|a: PeerAddr|
            announceable_to(group, announcer, a) && !recently_announced(*old(filter), a, now)
                ==> #[trigger] r@.contains(a),
        forall|a: PeerAddr| #[trigger] r@.contains(a) ==> !recently_announced(*old(filter), a, now),
        forall|a: PeerAddr| #[trigger] r@.contains(a) ==> final(filter).spec_seen().contains((a, now)),
        forall|a: PeerAddr| #[trigger] r@.contains(a) ==> recently_announced(*final(filter), a, now),
        final(filter).spec_expiry() == old(filter).spec_expiry(),
{
    let all = group.contacts.iter_for(&announcer.peer_id);
    let ghost all_view = all@;
    let ghost exp = filter.spec_expiry();
    let mut fresh: Vec<PeerAddr> = Vec::new();
    let mut i: usize = 0;
    while i < all.len()
        invariant
            i <= all@.len(),
            all@ == all_view,
            fresh@.no_duplicates(),
            forall|a: PeerAddr| fresh@.contains(a) ==> all@.contains(a),
            filter.spec_expiry() == exp,
            old(filter).spec_expiry() == exp,
            forall|e: (PeerAddr, u64)|
                #[trigger] filter.spec_seen().contains(e) && is_recent(e.1, now, exp) ==> old(
                    filter,
                ).spec_seen().contains(e) || (fresh@.contains(e.0) && e.1 == now),
            forall|k: int|
                0 <= k < i ==> fresh@.contains(#[trigger] all@[k]) || recently_announced(
                    *old(filter),
                    all@[k],
                    now,
                ),
            forall|e: (PeerAddr, u64)|
                #[trigger] old(filter).spec_seen().contains(e) && is_recent(e.1, now, exp) ==> filter.spec_seen().contains(e),
            forall|b: PeerAddr| #[trigger] fresh@.contains(b) ==> !recently_announced(*old(filter), b, now),
            forall|b: PeerAddr| #[trigger] fresh@.contains(b) ==> filter.spec_seen().contains((b, now)),
        decreases all@.len() - i,
    {
        let a = all[i];
        let mut present = false;
        let mut k: usize = 0;
        while k < fresh.len()
            invariant
                k <= fresh@.len(),
                present == exists|m: int| 0 <= m < k && fresh@[m] == a,
            decreases fresh@.len() - k,
        {
            if fresh[k] == a {
                present = true;
            }
            k = k + 1;
        }
        let ghost prev = fresh@;
        let ghost state = *filter;
        if present {
            proof {
                let m = choose|m: int| 0 <= m < k && fresh@[m] == a;
                assert(fresh@.contains(all@[i as int]));
            }
        } else if filter.apply(a, now) {
            fresh.push(a);
            proof {
                assert forall|p: int, q: int| 0 <= p < q < fresh@.len() implies fresh@[p] != fresh@[q] by {
                    if q == fresh@.len() - 1 {
                        assert(fresh@[q] == a);
                        assert(prev[p] == fresh@[p]);
                    }
                }
                assert forall|b: PeerAddr| fresh@.contains(b) implies all@.contains(b) by {
                    lemma_push_contains(prev, a, b);
                    if b == a {
                        assert(all@[i as int] == b);
                    }
                }
                let f = recent_at(now, exp);
                let kept = state.spec_seen().filter(f);
                assert forall|e: (PeerAddr, u64)|
                    #[trigger] filter.spec_seen().contains(e) && is_recent(e.1, now, exp) implies old(
                    filter,
                ).spec_seen().contains(e) || (fresh@.contains(e.0) && e.1 == now) by {
                    lemma_push_contains_pair(kept, (a, now), e);
                    if kept.contains(e) {
                        state.spec_seen().lemma_filter_contains_rev(f, e);
                        lemma_push_contains(prev, a, e.0);
                    } else {
                        lemma_push_contains(prev, a, a);
                    }
                }
                assert forall|kk: int|
                    0 <= kk < i + 1 implies fresh@.contains(#[trigger] all@[kk]) || recently_announced(
                    *old(filter),
                    all@[kk],
                    now,
                ) by {
                    lemma_push_contains(prev, a, all@[kk]);
                }
                assert forall|e: (PeerAddr, u64)|
                    #[trigger] old(filter).spec_seen().contains(e) && is_recent(e.1, now, exp) implies filter.spec_seen().contains(e) by {
                    let t = choose|t: int| 0 <= t < state.spec_seen().len() && state.spec_seen()[t] == e;
                    state.spec_seen().lemma_filter_contains(f, t);
                    lemma_push_contains_pair(kept, (a, now), e);
                }
                assert(!recently_announced(*old(filter), a, now)) by {
                    if recently_announced(*old(filter), a, now) {
                        let j = choose|j: int|
                            0 <= j < old(filter).spec_seen().len() && old(filter).spec_seen()[j].0 == a && is_recent(
                                #[trigger] old(filter).spec_seen()[j].1,
                                now,
                                old(filter).spec_expiry(),
                            );
                        let e = old(filter).spec_seen()[j];
                        assert(old(filter).spec_seen().contains(e));
                        let t = choose|t: int| 0 <= t < state.spec_seen().len() && state.spec_seen()[t] == e;
                        assert(state.spec_seen()[t].0 == a);
                    }
                }
                assert forall|b: PeerAddr| #[trigger] fresh@.contains(b) implies !recently_announced(*old(filter), b, now)
                    && filter.spec_seen().contains((b, now)) by {
                    lemma_push_contains(prev, a, b);
                    lemma_push_contains_pair(kept, (a, now), (b, now));
                    if b != a {
                        let t = choose|t: int| 0 <= t < state.spec_seen().len() && state.spec_seen()[t] == (b, now);
                        state.spec_seen().lemma_filter_contains(f, t);
                    }
                }
            }
        } else {
            proof {
                let f = recent_at(now, exp);
                let j = choose|j: int|
                    0 <= j < state.spec_seen().len() && state.spec_seen()[j].0 == a && is_recent(
                        state.spec_seen()[j].1,
                        now,
                        exp,
                    );
                let e = state.spec_seen()[j];
                assert(state.spec_seen().contains(e));
                if old(filter).spec_seen().contains(e) {
                    let t = choose|t: int| 0 <= t < old(filter).spec_seen().len() && old(filter).spec_seen()[t] == e;
                    assert(recently_announced(*old(filter), a, now));
                } else {
                    assert(fresh@.contains(a));
                    let m = choose|m: int| 0 <= m < fresh@.len() && fresh@[m] == a;
                    assert(false);
                }
                assert forall|e2: (PeerAddr, u64)|
                    #[trigger] filter.spec_seen().contains(e2) && is_recent(e2.1, now, exp) implies old(
                    filter,
                ).spec_seen().contains(e2) || (fresh@.contains(e2.0) && e2.1 == now) by {
                    state.spec_seen().lemma_filter_contains_rev(f, e2);
                }
                assert forall|e2: (PeerAddr, u64)|
                    #[trigger] old(filter).spec_seen().contains(e2) && is_recent(e2.1, now, exp) implies filter.spec_seen().contains(e2) by {
                    let t = choose|t: int| 0 <= t < state.spec_seen().len() && state.spec_seen()[t] == e2;
                    state.spec_seen().lemma_filter_contains(f, t);
                }
                assert forall|b: PeerAddr| #[trigger] fresh@.contains(b) implies filter.spec_seen().contains((b, now)) by {
                    let t = choose|t: int| 0 <= t < state.spec_seen().len() && state.spec_seen()[t] == (b, now);
                    state.spec_seen().lemma_filter_contains(f, t);
                }
            }
        }
        i = i + 1;
    }
    let ghost fresh_view = fresh@;
    let r = if fresh.len() <= MAX_CONTACTS_PER_MESSAGE {
        fresh
    } else {
        let chosen = sample_indices(fresh.len(), MAX_CONTACTS_PER_MESSAGE);
        let r = limit_contacts(fresh, &chosen);
        proof {
            assert forall|p: int, q: int| 0 <= p < q < r@.len() implies r@[p] != r@[q] by {
                assert(chosen@[p] != chosen@[q]);
            }
            assert forall|b: PeerAddr| r@.contains(b) implies all_view.contains(b) && fresh_view.contains(b) by {
                let t = choose|t: int| 0 <= t < r@.len() && r@[t] == b;
                assert(fresh@.contains(b)) by {
                    assert(fresh@[chosen@[t] as int] == b);
                }
            }
        }
        r
    };
    proof {
        assert forall|a: PeerAddr| #[trigger] r@.contains(a) implies announceable_to(group, announcer, a)
            && !recently_announced(*old(filter), a, now) && filter.spec_seen().contains((a, now))
            && recently_announced(*filter, a, now) by {
            assert(all_view.contains(a));
            assert(fresh_view.contains(a));
            let t = choose|t: int| 0 <= t < filter.spec_seen().len() && filter.spec_seen()[t] == (a, now);
            assert(filter.spec_seen()[t].0 == a);
            assert(is_recent(filter.spec_seen()[t].1, now, filter.spec_expiry()));
        }
        if r@.len() < MAX_CONTACTS_PER_MESSAGE {
            assert forall|a: PeerAddr|
                announceable_to(group, announcer, a) && !recently_announced(*old(filter), a, now) implies #[trigger] r@.contains(a) by {
                assert(all_view.contains(a));
                let k = choose|k: int| 0 <= k < all_view.len() && all_view[k] == a;
                assert(fresh@.contains(all_view[k]) || recently_announced(*old(filter), all_view[k], now));
            }
        }
    }
    r
}

proof fn lemma_push_contains_pair(s: Seq<(PeerAddr, u64)>, x: (PeerAddr, u64), a: (PeerAddr, u64))
    ensures
        s.push(x).contains(a) <==> (s.contains(a) || a == x),
{
    if s.push(x).contains(a) {
        let t = choose|t: int| 0 <= t < s.push(x).len() && s.push(x)[t] == a;
        if t < s.len() {
            assert(s[t] == a);
        }
    }
    if s.contains(a) {
        let t = choose|t: int| 0 <= t < s.len() && s[t] == a;
        assert(s.push(x)[t] == a);
    }
    if a == x {
        assert(s.push(x)[s.len() as int] == x);
    }
}

} // verus!
