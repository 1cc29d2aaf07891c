//! Links between local and remote repositories over one peer connection.
//!
//! A link is created once both sides asked for it: the local side by name of the remote
//! repository, the remote side by name of the local one. Until then the request waits as
//! pending. At most one link exists per local repository, and each link gets an id never
//! used before, so that tearing down a link that has meanwhile been replaced leaves the
//! replacement alone.

use vstd::prelude::*;
use crate::table::ByteTable;

verus! {

/// An established link.
pub struct Link {
    pub id: u64,
    pub remote_id: Vec<u8>,
}

/// A link the local repository asked for.
pub struct PendingOutgoingLink {
    pub local_id: Vec<u8>,
}

/// A link the remote repository asked for.
pub struct PendingIncomingLink {
    pub remote_id: Vec<u8>,
}

/// What to do with a request for an outgoing link.
#[derive(Clone, Copy, Debug, PartialEq, Eq, Structural)]
pub enum OutgoingStep {
    /// The local repository is linked already.
    AlreadyActive,
    /// A request from it is pending already.
    AlreadyPending,
    /// Send the request to the peer, then report with `finish_outgoing`.
    Send,
}

/// What became of a request for a link.
#[derive(Clone, Copy, Debug, PartialEq, Eq, Structural)]
pub enum LinkOutcome {
    /// The request could not be sent: the connection is gone.
    Failed,
    /// The link was created, with this id.
    Linked(u64),
    /// The request waits for the other side.
    Pending,
}

pub struct Links {
    active: ByteTable<Link>,
    pending_outgoing: ByteTable<PendingOutgoingLink>,
    pending_incoming: ByteTable<PendingIncomingLink>,
    next_link_id: u64,
}

impl Links {
    pub closed spec fn spec_active(&self) -> Map<Seq<u8>, Link> {
        self.active.view()
    }

    pub closed spec fn spec_pending_outgoing(&self) -> Map<Seq<u8>, PendingOutgoingLink> {
        self.pending_outgoing.view()
    }

    pub closed spec fn spec_pending_incoming(&self) -> Map<Seq<u8>, PendingIncomingLink> {
        self.pending_incoming.view()
    }

    /// The id the next link gets.
    pub closed spec fn spec_next_link_id(&self) -> u64 {
        self.next_link_id
    }

    /// The tables are well formed and every link id is below the next one.
    pub closed spec fn wf(&self) -> bool {
        &&& self.active.wf()
        &&& self.pending_outgoing.wf()
        &&& self.pending_incoming.wf()
        &&& forall|k: Seq<u8>| #[trigger]
            self.active.view().contains_key(k) ==> self.active.view()[k].id < self.next_link_id
    }

    pub fn new() -> (r: Links)
        ensures
            r.wf(),
            r.spec_active().is_empty(),
            r.spec_pending_outgoing().is_empty(),
            r.spec_pending_incoming().is_empty(),
            r.spec_next_link_id() == 0,
    {
        Links {
            active: ByteTable::new(),
            pending_outgoing: ByteTable::new(),
            pending_incoming: ByteTable::new(),
            next_link_id: 0,
        }
    }

    fn generate_link_id(&mut self) -> (r: u64)
        requires
            old(self).next_link_id < u64::MAX,
        ensures
            r == old(self).next_link_id,
            final(self).next_link_id == old(self).next_link_id + 1,
            final(self).active == old(self).active,
            final(self).pending_outgoing == old(self).pending_outgoing,
            final(self).pending_incoming == old(self).pending_incoming,
    {
        let id = self.next_link_id;
        self.next_link_id = self.next_link_id + 1;
        id
    }

    /// Links `local_id` to `remote_id` under a new id, replacing a link it had.
    pub fn insert_active(&mut self, local_id: Vec<u8>, remote_id: Vec<u8>) -> (r: u64)
        requires
            old(self).wf(),
            old(self).spec_next_link_id() < u64::MAX,
        ensures
            final(self).wf(),
            r == old(self).spec_next_link_id(),
            final(self).spec_next_link_id() == r + 1,
            final(self).spec_active() == old(self).spec_active().insert(
                local_id@,
                Link { id: r, remote_id },
            ),
            final(self).spec_pending_outgoing() == old(self).spec_pending_outgoing(),
            final(self).spec_pending_incoming() == old(self).spec_pending_incoming(),
    {
        let link_id = self.generate_link_id();
        self.active.insert(local_id, Link { id: link_id, remote_id });
        link_id
    }

    /// Id of the link of `local_id`, if it has one.
    pub fn get_request_link(&self, local_id: &[u8]) -> (r: Option<u64>)
        requires
            self.wf(),
        ensures
            match r {
                Some(id) => self.spec_active().contains_key(local_id@) && self.spec_active()[local_id@].id
                    == id,
                None => !self.spec_active().contains_key(local_id@),
            },
    {
        match self.active.get(local_id) {
            Some(link) => Some(link.id),
            None => None,
        }
    }

    /// Id of the link of `local_id`, if it has one; responses travel over the same link as
    /// requests.
    pub fn get_response_link(&self, local_id: &[u8]) -> (r: Option<u64>)
        requires
            self.wf(),
        ensures
            match r {
                Some(id) => self.spec_active().contains_key(local_id@) && self.spec_active()[local_id@].id
                    == id,
                None => !self.spec_active().contains_key(local_id@),
            },
    {
        self.get_request_link(local_id)
    }

    /// Tears down the link of `local_id`; when `link_id` is given, only if the link still
    /// has that id.
    pub fn destroy_one(&mut self, local_id: &[u8], link_id: Option<u64>)
        requires
            old(self).wf(),
        ensures
            final(self).wf(),
            final(self).spec_active() == if old(self).spec_active().contains_key(local_id@) && (
            link_id is None || old(self).spec_active()[local_id@].id == link_id->Some_0) {
                old(self).spec_active().remove(local_id@)
            } else {
                old(self).spec_active()
            },
            final(self).spec_pending_outgoing() == old(self).spec_pending_outgoing(),
            final(self).spec_pending_incoming() == old(self).spec_pending_incoming(),
            final(self).spec_next_link_id() == old(self).spec_next_link_id(),
    {
        let matches = match self.active.get(local_id) {
            Some(link) => match link_id {
                Some(id) => link.id == id,
                None => true,
            },
            None => false,
        };
        if matches {
            self.active.remove(local_id);
        }
    }

    /// First step of linking `local_id`, known to the peer by `local_name`: nothing to do
    /// when it is linked or its request is pending already, otherwise send the request.
    pub fn begin_outgoing(&self, local_id: &[u8], local_name: &[u8]) -> (r: OutgoingStep)
        requires
            self.wf(),
        ensures
            r == if self.spec_active().contains_key(local_id@) {
                OutgoingStep::AlreadyActive
            } else if self.spec_pending_outgoing().contains_key(local_name@) {
                OutgoingStep::AlreadyPending
            } else {
                OutgoingStep::Send
            },
    {
        if self.active.contains_key(local_id) {
            OutgoingStep::AlreadyActive
        } else if self.pending_outgoing.contains_key(local_name) {
            OutgoingStep::AlreadyPending
        } else {
            OutgoingStep::Send
        }
    }

    /// Second step of linking `local_id`, after the request was sent (`sent`) or could not
    /// be: if the peer asked for the same link already, the link is created; otherwise the
    /// request waits.
    pub fn finish_outgoing(&mut self, local_id: Vec<u8>, local_name: Vec<u8>, sent: bool) -> (r: LinkOutcome)
        requires
            old(self).wf(),
            old(self).spec_next_link_id() < u64::MAX,
        ensures
            final(self).wf(),
            !sent ==> r == LinkOutcome::Failed && final(self).spec_active() == old(self).spec_active()
                && final(self).spec_pending_outgoing() == old(self).spec_pending_outgoing()
                && final(self).spec_pending_incoming() == old(self).spec_pending_incoming(),
            sent && old(self).spec_pending_incoming().contains_key(local_name@) ==> {
                let remote = old(self).spec_pending_incoming()[local_name@].remote_id;
                &&& r == LinkOutcome::Linked(old(self).spec_next_link_id())
                &&& final(self).spec_active() == old(self).spec_active().insert(
                    local_id@,
                    Link { id: old(self).spec_next_link_id(), remote_id: remote },
                )
                &&& final(self).spec_pending_incoming() == old(self).spec_pending_incoming().remove(
                    local_name@,
                )
                &&& final(self).spec_pending_outgoing() == old(self).spec_pending_outgoing()
            },
            sent && !old(self).spec_pending_incoming().contains_key(local_name@) ==> {
                &&& r == LinkOutcome::Pending
                &&& final(self).spec_active() == old(self).spec_active()
                &&& final(self).spec_pending_incoming() == old(self).spec_pending_incoming()
                &&& final(self).spec_pending_outgoing() == old(self).spec_pending_outgoing().insert(
                    local_name@,
                    PendingOutgoingLink { local_id },
                )
            },
    {
        if !sent {
            return LinkOutcome::Failed;
        }
        match self.pending_incoming.remove(local_name.as_slice()) {
            Some(pending) => {
                let id = self.insert_active(local_id, pending.remote_id);
                LinkOutcome::Linked(id)
            },
            None => {
                self.pending_outgoing.insert(local_name, PendingOutgoingLink { local_id });
                LinkOutcome::Pending
            },
        }
    }

    /// The peer asked to link its repository `remote_id` to ours named `local_name`: if we
    /// asked for the same link already, it is created; otherwise the request waits.
    pub fn create_incoming_link(&mut self, local_name: Vec<u8>, remote_id: Vec<u8>) -> (r: LinkOutcome)
        requires
            old(self).wf(),
            old(self).spec_next_link_id() < u64::MAX,
        ensures
            final(self).wf(),
            old(self).spec_pending_outgoing().contains_key(local_name@) ==> {
                let local = old(self).spec_pending_outgoing()[local_name@].local_id;
                &&& r == LinkOutcome::Linked(old(self).spec_next_link_id())
                &&& final(self).spec_active() == old(self).spec_active().insert(
                    local@,
                    Link { id: old(self).spec_next_link_id(), remote_id },
                )
                &&& final(self).spec_pending_outgoing() == old(self).spec_pending_outgoing().remove(
                    local_name@,
                )
                &&& final(self).spec_pending_incoming() == old(self).spec_pending_incoming()
            },
            !old(self).spec_pending_outgoing().contains_key(local_name@) ==> {
                &&& r == LinkOutcome::Pending
                &&& final(self).spec_active() == old(self).spec_active()
                &&& final(self).spec_pending_outgoing() == old(self).spec_pending_outgoing()
                &&& final(self).spec_pending_incoming() == old(self).spec_pending_incoming().insert(
                    local_name@,
                    PendingIncomingLink { remote_id },
                )
            },
    {
        match self.pending_outgoing.remove(local_name.as_slice()) {
            Some(pending) => {
                let id = self.insert_active(pending.local_id, remote_id);
                LinkOutcome::Linked(id)
            },
            None => {
                self.pending_incoming.insert(local_name, PendingIncomingLink { remote_id });
                LinkOutcome::Pending
            },
        }
    }
}

/// A teardown addressed to a link that has since been replaced leaves the replacement in
/// place: the replacement's id is new, so it differs from the stale one.
pub proof fn lemma_stale_teardown_keeps_replacement(before: Links, after: Links, local_id: Seq<u8>, stale: u64)
    requires
        before.wf(),
        before.spec_active().contains_key(local_id),
        before.spec_active()[local_id].id == stale,
        after.wf(),
        after.spec_active().contains_key(local_id),
        after.spec_active()[local_id].id == before.spec_next_link_id(),
    ensures
        after.spec_active()[local_id].id != stale,
{
}

} // verus!
