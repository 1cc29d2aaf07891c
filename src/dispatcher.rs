//! Message framing and the bookkeeping of the message dispatcher: per-channel receive
//! queues and fail-over among the streams to one peer.
//!
//! On the wire every frame is a 32-bit length, little-endian, followed by that many bytes
//! of payload. A message payload is the 32-byte channel tag followed by the content.

use vstd::prelude::*;
use vstd::bytes::{spec_u32_from_le_bytes, spec_u32_to_le_bytes, u32_from_le_bytes, u32_to_le_bytes, lemma_auto_spec_u32_to_from_le_bytes};
use vstd::slice::{slice_subrange, slice_to_vec};
use crate::error::Error;
use crate::table::ByteTable;

verus! {

/// Size of the length prefix of a frame.
pub const LENGTH_PREFIX_SIZE: usize = 4;

/// Size of a channel tag.
pub const CHANNEL_SIZE: usize = 32;

/// The frame that carries `payload`.
pub open spec fn frame_of(payload: Seq<u8>) -> Seq<u8> {
    spec_u32_to_le_bytes(payload.len() as u32) + payload
}

fn append(dst: &mut Vec<u8>, src: &[u8])
    ensures
        final(dst)@ == old(dst)@ + src@,
{
    let mut i: usize = 0;
    while i < src.len()
        invariant
            i <= src@.len(),
            dst@ == old(dst)@ + src@.subrange(0, i as int),
        decreases src@.len() - i,
    {
        dst.push(src[i]);
        i = i + 1;
        assert(dst@ =~= old(dst)@ + src@.subrange(0, i as int));
    }
    assert(src@.subrange(0, src@.len() as int) =~= src@);
}

/// The frame for `payload`. Fails with `InvalidArgument` when the payload is too long for
/// the length prefix.
pub fn encode_frame(payload: &[u8]) -> (r: Result<Vec<u8>, Error>)
    ensures
        r is Ok <==> payload@.len() <= u32::MAX,
        r matches Ok(f) ==> f@ == frame_of(payload@),
        r is Err ==> r == Err::<Vec<u8>, Error>(Error::InvalidArgument),
{
    if payload.len() > u32::MAX as usize {
        return Err(Error::InvalidArgument);
    }
    let mut frame = u32_to_le_bytes(payload.len() as u32);
    append(&mut frame, payload);
    Ok(frame)
}

/// Reads one frame from the start of `bytes`: its payload and the number of bytes it
/// took, or nothing when `bytes` does not hold a whole frame yet.
pub fn decode_frame(bytes: &[u8]) -> (r: Option<(Vec<u8>, usize)>)
    ensures
        bytes@.len() < LENGTH_PREFIX_SIZE ==> r is None,
        bytes@.len() >= LENGTH_PREFIX_SIZE ==> {
            let len = spec_u32_from_le_bytes(bytes@.subrange(0, LENGTH_PREFIX_SIZE as int)) as int;
            &&& bytes@.len() < LENGTH_PREFIX_SIZE + len ==> r is None
            &&& bytes@.len() >= LENGTH_PREFIX_SIZE + len ==> (r matches Some((p, n)) && n
                == LENGTH_PREFIX_SIZE + len && p@ == bytes@.subrange(
                LENGTH_PREFIX_SIZE as int,
                n as int,
            ))
        },
{
    if bytes.len() < LENGTH_PREFIX_SIZE {
        return None;
    }
    let len = u32_from_le_bytes(slice_subrange(bytes, 0, LENGTH_PREFIX_SIZE)) as usize;
    if bytes.len() - LENGTH_PREFIX_SIZE < len {
        return None;
    }
    let end = LENGTH_PREFIX_SIZE + len;
    let mut payload: Vec<u8> = Vec::new();
    append(&mut payload, slice_subrange(bytes, LENGTH_PREFIX_SIZE, end));
    assert(payload@ =~= bytes@.subrange(LENGTH_PREFIX_SIZE as int, end as int));
    Some((payload, end))
}

/// A frame read back gives the payload it was made from, whatever follows it.
pub proof fn lemma_frame_round_trip(payload: Seq<u8>, rest: Seq<u8>)
    requires
        payload.len() <= u32::MAX,
    ensures
        ({
            let bytes = frame_of(payload) + rest;
            &&& bytes.len() >= LENGTH_PREFIX_SIZE
            &&& spec_u32_from_le_bytes(bytes.subrange(0, LENGTH_PREFIX_SIZE as int)) == payload.len()
            &&& bytes.subrange(
                LENGTH_PREFIX_SIZE as int,
                LENGTH_PREFIX_SIZE + payload.len(),
            ) == payload
        }),
{
    lemma_auto_spec_u32_to_from_le_bytes();
    let prefix = spec_u32_to_le_bytes(payload.len() as u32);
    let bytes = frame_of(payload) + rest;
    assert(bytes.subrange(0, LENGTH_PREFIX_SIZE as int) =~= prefix);
    assert(bytes.subrange(LENGTH_PREFIX_SIZE as int, LENGTH_PREFIX_SIZE + payload.len())
        =~= payload);
}

/// A message for one channel.
pub struct Message {
    pub channel: [u8; CHANNEL_SIZE],
    pub content: Vec<u8>,
}

/// Payload of the frame that carries `m`: the channel, then the content.
pub fn encode_message(m: &Message) -> (r: Vec<u8>)
    ensures
        r@ == m.channel@ + m.content@,
{
    let mut r: Vec<u8> = Vec::new();
    append(&mut r, m.channel.as_slice());
    append(&mut r, m.content.as_slice());
    assert(r@ =~= m.channel@ + m.content@);
    r
}

/// The message in a frame payload. Fails with `Corrupt` when the payload is shorter than a
/// channel tag.
pub fn decode_message(payload: &[u8]) -> (r: Result<Message, Error>)
    ensures
        r is Ok <==> payload@.len() >= CHANNEL_SIZE,
        r matches Ok(m) ==> m.channel@ == payload@.subrange(0, CHANNEL_SIZE as int)
            && m.content@ == payload@.subrange(CHANNEL_SIZE as int, payload@.len() as int),
        r is Err ==> r == Err::<Message, Error>(Error::Corrupt),
{
    if payload.len() < CHANNEL_SIZE {
        return Err(Error::Corrupt);
    }
    let mut channel = [0u8; CHANNEL_SIZE];
    let mut i: usize = 0;
    while i < CHANNEL_SIZE
        invariant
            i <= CHANNEL_SIZE,
            payload@.len() >= CHANNEL_SIZE,
            channel@.len() == CHANNEL_SIZE,
            forall|k: int| 0 <= k < i ==> channel@[k] == payload@[k],
        decreases CHANNEL_SIZE - i,
    {
        channel[i] = payload[i];
        i = i + 1;
    }
    assert(channel@ =~= payload@.subrange(0, CHANNEL_SIZE as int));
    let mut content: Vec<u8> = Vec::new();
    append(&mut content, slice_subrange(payload, CHANNEL_SIZE, payload.len()));
    Ok(Message { channel, content })
}

/// Messages waiting for a receiver, one queue per channel, each holding at most
/// `capacity` messages.
pub struct RecvQueues {
    queues: ByteTable<Vec<Vec<u8>>>,
    capacity: usize,
}

impl RecvQueues {
    pub closed spec fn wf(&self) -> bool {
        self.queues.wf()
    }

    /// Content of the messages waiting on `channel`, oldest first.
    pub closed spec fn spec_queue(&self, channel: Seq<u8>) -> Seq<Seq<u8>> {
        if self.queues.view().contains_key(channel) {
            self.queues.view()[channel]@.map_values(|m: Vec<u8>| m@)
        } else {
            Seq::empty()
        }
    }

    pub closed spec fn spec_capacity(&self) -> usize {
        self.capacity
    }

    pub fn new(capacity: usize) -> (r: RecvQueues)
        ensures
            r.wf(),
            r.spec_capacity() == capacity,
            forall|c: Seq<u8>| #[trigger] r.spec_queue(c).len() == 0,
    {
        RecvQueues { queues: ByteTable::new(), capacity }
    }

    /// Queues `content` on `channel`. Returns false, dropping the message, when the queue
    /// is full.
    pub fn push(&mut self, channel: &[u8], content: Vec<u8>) -> (r: bool)
        requires
            old(self).wf(),
        ensures
            final(self).wf(),
            final(self).spec_capacity() == old(self).spec_capacity(),
            r == (old(self).spec_queue(channel@).len() < old(self).spec_capacity()),
            final(self).spec_queue(channel@) == if r {
                old(self).spec_queue(channel@).push(content@)
            } else {
                old(self).spec_queue(channel@)
            },
            forall|c: Seq<u8>| c != channel@ ==> #[trigger] final(self).spec_queue(c) == old(self).spec_queue(c),
    {
        let ghost content_view = content@;
        let mut queue = match self.queues.remove(channel) {
            Some(q) => q,
            None => Vec::new(),
        };
        let ghost before = queue@;
        let accepted = queue.len() < self.capacity;
        if accepted {
            queue.push(content);
        }
        let key = slice_to_vec(channel);
        self.queues.insert(key, queue);
        proof {
            if accepted {
                assert(queue@.map_values(|m: Vec<u8>| m@) =~= before.map_values(|m: Vec<u8>| m@).push(
                    content_view,
                ));
            }
        }
        accepted
    }

    /// Takes the oldest message waiting on `channel`, if any.
    pub fn pop(&mut self, channel: &[u8]) -> (r: Option<Vec<u8>>)
        requires
            old(self).wf(),
        ensures
            final(self).wf(),
            final(self).spec_capacity() == old(self).spec_capacity(),
            old(self).spec_queue(channel@).len() == 0 ==> r is None && final(self).spec_queue(channel@).len() == 0,
            old(self).spec_queue(channel@).len() > 0 ==> (r matches Some(m) && m@ == old(self).spec_queue(
                channel@,
            )[0] && final(self).spec_queue(channel@) == old(self).spec_queue(channel@).drop_first()),
            forall|c: Seq<u8>| c != channel@ ==> #[trigger] final(self).spec_queue(c) == old(self).spec_queue(c),
    {
        match self.queues.remove(channel) {
            Some(mut queue) => {
                if queue.len() == 0 {
                    return None;
                }
                let ghost before = queue@;
                let first = queue.remove(0);
                let key = slice_to_vec(channel);
                self.queues.insert(key, queue);
                proof {
                    assert(queue@.map_values(|m: Vec<u8>| m@) =~= before.map_values(|m: Vec<u8>| m@).drop_first());
                }
                Some(first)
            },
            None => None,
        }
    }
}

/// What happened to one attempt to send a frame.
#[derive(Clone, Copy, Debug, PartialEq, Eq, Structural)]
pub enum SendStep {
    /// The stream accepted the frame.
    Delivered,
    /// The stream failed and was dropped; try the next one.
    Retry,
    /// The stream failed and no stream is left.
    Failed,
}

/// The writable streams to one peer, by id, in the order they were added.
pub struct Sinks {
    ids: Vec<u64>,
    next_id: u64,
}

impl Sinks {
    pub closed spec fn spec_ids(&self) -> Seq<u64> {
        self.ids@
    }

    pub closed spec fn spec_next_id(&self) -> u64 {
        self.next_id
    }

    pub closed spec fn wf(&self) -> bool {
        &&& forall|i: int| 0 <= i < self.ids@.len() ==> #[trigger] self.ids@[i] < self.next_id
        &&& forall|i: int, j: int| 0 <= i < j < self.ids@.len() ==> #[trigger] self.ids@[i] < #[trigger] self.ids@[j]
    }

    pub fn new() -> (r: Sinks)
        ensures
            r.wf(),
            r.spec_ids().len() == 0,
            r.spec_next_id() == 0,
    {
        Sinks { ids: Vec::new(), next_id: 0 }
    }

    /// Adds a stream and returns its id.
    pub fn add(&mut self) -> (r: u64)
        requires
            old(self).wf(),
            old(self).spec_next_id() < u64::MAX,
        ensures
            final(self).wf(),
            r == old(self).spec_next_id(),
            final(self).spec_next_id() == r + 1,
            final(self).spec_ids() == old(self).spec_ids().push(r),
    {
        let id = self.next_id;
        self.ids.push(id);
        self.next_id = self.next_id + 1;
        id
    }

    /// The stream to try first: the oldest one left.
    pub fn pick(&self) -> (r: Option<u64>)
        ensures
            self.spec_ids().len() == 0 ==> r is None,
            self.spec_ids().len() > 0 ==> r == Some(self.spec_ids()[0]),
    {
        if self.ids.len() == 0 {
            None
        } else {
            Some(self.ids[0])
        }
    }

    /// Whether no stream is left; the dispatcher is then closed for sending.
    pub fn is_empty(&self) -> (r: bool)
        ensures
            r == (self.spec_ids().len() == 0),
    {
        self.ids.len() == 0
    }

    /// Records how sending over stream `id` went: a stream that failed is dropped.
    pub fn after_send(&mut self, id: u64, accepted: bool) -> (r: SendStep)
        requires
            old(self).wf(),
        ensures
            final(self).wf(),
            final(self).spec_next_id() == old(self).spec_next_id(),
            accepted ==> r == SendStep::Delivered && final(self).spec_ids() == old(self).spec_ids(),
            !accepted ==> final(self).spec_ids() == old(self).spec_ids().filter(|x: u64| x != id),
            !accepted ==> (r == SendStep::Failed <==> final(self).spec_ids().len() == 0),
            !accepted ==> (r == SendStep::Retry <==> final(self).spec_ids().len() > 0),
    {
        if accepted {
            return SendStep::Delivered;
        }
        let ghost f = |x: u64| x != id;
        let mut kept: Vec<u64> = Vec::new();
        let mut i: usize = 0;
        while i < self.ids.len()
            invariant
                i <= self.ids@.len(),
                self.ids@ == old(self).ids@,
                self.next_id == old(self).next_id,
                old(self).wf(),
                f == (|x: u64| x != id),
                kept@ == self.ids@.subrange(0, i as int).filter(f),
                forall|k: int| 0 <= k < kept@.len() ==> #[trigger] kept@[k] < self.next_id,
                forall|k: int, m: int| 0 <= k < m < kept@.len() ==> #[trigger] kept@[k] < #[trigger] kept@[m],
                forall|k: int| 0 <= k < kept@.len() ==> exists|t: int| 0 <= t < i && self.ids@[t] == #[trigger] kept@[k],
            decreases self.ids@.len() - i,
        {
            let x = self.ids[i];
            proof {
                reveal(Seq::filter);
                let t = self.ids@.subrange(0, i + 1);
                assert(t.drop_last() =~= self.ids@.subrange(0, i as int));
                assert(t.last() == x);
            }
            if x != id {
                let ghost before = kept@;
                kept.push(x);
                proof {
                    assert forall|k: int, m: int| 0 <= k < m < kept@.len() implies #[trigger] kept@[k] < #[trigger] kept@[m] by {
                        if m == kept@.len() - 1 {
                            let t = choose|t: int| 0 <= t < i && self.ids@[t] == before[k];
                            assert(kept@[k] == before[k]);
                        }
                    }
                    assert forall|k: int| 0 <= k < kept@.len() implies exists|t: int| 0 <= t < i + 1 && self.ids@[t] == #[trigger] kept@[k] by {
                        if k < kept@.len() - 1 {
                            assert(kept@[k] == before[k]);
                            let t = choose|t: int| 0 <= t < i && self.ids@[t] == before[k];
                        } else {
                            assert(self.ids@[i as int] == kept@[k]);
                        }
                    }
                }
            }
            i = i + 1;
        }
        assert(self.ids@.subrange(0, self.ids@.len() as int) =~= self.ids@);
        self.ids = kept;
        if self.ids.len() == 0 {
            SendStep::Failed
        } else {
            SendStep::Retry
        }
    }
}

} // verus!
