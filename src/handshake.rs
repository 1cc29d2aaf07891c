//! Decisions taken around a peer connection: the protocol version check of the handshake,
//! the self-connection guard, duplicate connections, and the state of a connection.

use vstd::prelude::*;
use crate::peer_addr::{PeerAddr, PeerSource};
use crate::peer_exchange::RuntimeId;
use crate::replica_id::bytes_equal;
use vstd::bytes::{spec_u32_from_le_bytes, spec_u32_to_le_bytes, u32_from_le_bytes, u32_to_le_bytes, lemma_auto_spec_u32_to_from_le_bytes};
use vstd::slice::slice_subrange;

verus! {

/// How a handshake ended.
#[derive(Clone, Copy, Debug, PartialEq, Eq)]
pub enum HandshakeResult {
    /// The peer proved it holds this runtime id.
    Verified(RuntimeId),
    /// The peer speaks a newer protocol version.
    ProtocolVersionMismatch(u32),
    /// The peer did not start with the magic bytes.
    BadMagic,
    /// The stream failed.
    Fatal,
}

/// The version check of the handshake: a peer whose version is above ours is refused with
/// its version.
pub fn check_version(this_version: u32, that_version: u32) -> (r: Result<(), u32>)
    ensures
        r == if that_version > this_version {
            Err::<(), u32>(that_version)
        } else {
            Ok::<(), u32>(())
        },
{
    if that_version > this_version {
        Err(that_version)
    } else {
        Ok(())
    }
}

/// What to do with a connection after its handshake.
#[derive(Clone, Copy, Debug, PartialEq, Eq)]
pub enum ConnectionDecision {
    /// Hand the connection to the message broker of this peer.
    Activate(RuntimeId),
    /// Close the connection and do not dial the address again; tell the user about an
    /// outdated build when `protocol_mismatch` is set.
    Close { protocol_mismatch: bool },
}

/// What to do when an address is already being connected to.
#[derive(Clone, Copy, Debug, PartialEq, Eq, Structural)]
pub enum DuplicateAction {
    /// The same source reported it again: ignore it.
    Ignore,
    /// Another source holds it: wait until that one releases it, then try again.
    WaitForRelease,
}

/// What to do with an address that another source of `their_source` is already
/// connecting to.
pub fn on_duplicate(source: PeerSource, their_source: PeerSource) -> (r: DuplicateAction)
    ensures
        r == if source == their_source {
            DuplicateAction::Ignore
        } else {
            DuplicateAction::WaitForRelease
        },
{
    if source == their_source {
        DuplicateAction::Ignore
    } else {
        DuplicateAction::WaitForRelease
    }
}

/// State of a connection to a peer.
#[derive(Clone, Copy, Debug, PartialEq, Eq, Structural)]
pub enum ConnectionState {
    Connecting,
    Handshaking,
    Active,
    Draining,
    Closed,
}

/// What happened to a connection.
#[derive(Clone, Copy, Debug, PartialEq, Eq, Structural)]
pub enum ConnectionEvent {
    /// The byte stream is established.
    StreamEstablished,
    /// Runtime ids were exchanged and the versions agree.
    HandshakeSucceeded,
    /// The handshake failed, for a version mismatch or otherwise.
    HandshakeFailed,
    /// Reading or writing failed.
    IoError,
    /// Every request in flight has settled.
    Settled,
    /// The hard timeout for draining expired.
    HardTimeout,
}

/// The transitions of a connection: connecting, then handshaking once the stream is up,
/// then active once the handshake succeeds; any state but closed drains on an I/O error;
/// draining ends, closed, when all in flight settled or the hard timeout expires. A failed
/// handshake closes the connection. Other events change nothing.
pub open spec fn spec_next_state(state: ConnectionState, event: ConnectionEvent) -> ConnectionState {
    match (state, event) {
        (ConnectionState::Closed, _) => ConnectionState::Closed,
        (_, ConnectionEvent::IoError) => ConnectionState::Draining,
        (ConnectionState::Connecting, ConnectionEvent::StreamEstablished) => ConnectionState::Handshaking,
        (ConnectionState::Handshaking, ConnectionEvent::HandshakeSucceeded) => ConnectionState::Active,
        (ConnectionState::Handshaking, ConnectionEvent::HandshakeFailed) => ConnectionState::Closed,
        (ConnectionState::Draining, ConnectionEvent::Settled) => ConnectionState::Closed,
        (ConnectionState::Draining, ConnectionEvent::HardTimeout) => ConnectionState::Closed,
        (s, _) => s,
    }
}

/// Next state of a connection; see `spec_next_state`.
pub fn next_state(state: ConnectionState, event: ConnectionEvent) -> (r: ConnectionState)
    ensures
        r == spec_next_state(state, event),
{
    match (state, event) {
        (ConnectionState::Closed, _) => ConnectionState::Closed,
        (_, ConnectionEvent::IoError) => ConnectionState::Draining,
        (ConnectionState::Connecting, ConnectionEvent::StreamEstablished) => ConnectionState::Handshaking,
        (ConnectionState::Handshaking, ConnectionEvent::HandshakeSucceeded) => ConnectionState::Active,
        (ConnectionState::Handshaking, ConnectionEvent::HandshakeFailed) => ConnectionState::Closed,
        (ConnectionState::Draining, ConnectionEvent::Settled) => ConnectionState::Closed,
        (ConnectionState::Draining, ConnectionEvent::HardTimeout) => ConnectionState::Closed,
        (s, _) => s,
    }
}

/// What a node remembers across its connections: its own runtime id and protocol version,
/// the highest version a peer announced, and the addresses that turned out to be its own.
pub struct PeerGuard {
    this_runtime_id: RuntimeId,
    this_version: u32,
    highest_seen_protocol_version: u32,
    our_addresses: Vec<PeerAddr>,
}

impl PeerGuard {
    pub closed spec fn spec_this_version(&self) -> u32 {
        self.this_version
    }

    pub closed spec fn spec_highest_seen(&self) -> u32 {
        self.highest_seen_protocol_version
    }

    pub closed spec fn spec_this_runtime_id(&self) -> RuntimeId {
        self.this_runtime_id
    }

    pub closed spec fn spec_our_addresses(&self) -> Seq<PeerAddr> {
        self.our_addresses@
    }

    pub fn new(this_runtime_id: RuntimeId, this_version: u32) -> (r: PeerGuard)
        ensures
            r.spec_this_version() == this_version,
            r.spec_highest_seen() == this_version,
            r.spec_this_runtime_id() == this_runtime_id,
            r.spec_our_addresses().len() == 0,
    {
        PeerGuard {
            this_runtime_id,
            this_version,
            highest_seen_protocol_version: this_version,
            our_addresses: Vec::new(),
        }
    }

    /// The highest protocol version seen: ours, or a higher one a peer announced.
    pub fn highest_seen_protocol_version(&self) -> (r: u32)
        ensures
            r == self.spec_highest_seen(),
    {
        self.highest_seen_protocol_version
    }

    /// Whether `addr` turned out to be this node itself; such an address is not dialed.
    pub fn is_our_address(&self, addr: &PeerAddr) -> (r: bool)
        ensures
            r == self.spec_our_addresses().contains(*addr),
    {
        let mut i: usize = 0;
        while i < self.our_addresses.len()
            invariant
                i <= self.our_addresses@.len(),
                forall|k: int| 0 <= k < i ==> self.our_addresses@[k] != *addr,
            decreases self.our_addresses@.len() - i,
        {
            if self.our_addresses[i] == *addr {
                assert(self.our_addresses@[i as int] == *addr);
                return true;
            }
            i = i + 1;
        }
        false
    }

    /// A peer announced `their_version`, above ours. Returns whether to notify the user:
    /// yes exactly when the version is higher than every one seen before.
    pub fn on_protocol_mismatch(&mut self, their_version: u32) -> (r: bool)
        requires
            their_version > old(self).spec_this_version(),
        ensures
            r == (their_version > old(self).spec_highest_seen()),
            final(self).spec_highest_seen() == if r {
                their_version
            } else {
                old(self).spec_highest_seen()
            },
            final(self).spec_this_version() == old(self).spec_this_version(),
            final(self).spec_this_runtime_id() == old(self).spec_this_runtime_id(),
            final(self).spec_our_addresses() == old(self).spec_our_addresses(),
    {
        if self.highest_seen_protocol_version < their_version {
            self.highest_seen_protocol_version = their_version;
            true
        } else {
            false
        }
    }

    /// Decides what to do with the connection to `addr` after the handshake: activate it,
    /// unless the handshake failed, or the peer speaks a newer protocol (the user is told
    /// once per higher version), or the peer is this node itself, whose address is then
    /// remembered so that it is not dialed again.
    pub fn handle_handshake(&mut self, addr: PeerAddr, result: HandshakeResult) -> (r: ConnectionDecision)
        ensures
            final(self).spec_this_version() == old(self).spec_this_version(),
            final(self).spec_this_runtime_id() == old(self).spec_this_runtime_id(),
            match result {
                HandshakeResult::Verified(id) => if id.0@ == old(self).spec_this_runtime_id().0@ {
                    &&& r == ConnectionDecision::Close { protocol_mismatch: false }
                    &&& final(self).spec_our_addresses() == old(self).spec_our_addresses().push(addr)
                    &&& final(self).spec_highest_seen() == old(self).spec_highest_seen()
                } else {
                    &&& r == ConnectionDecision::Activate(id)
                    &&& final(self).spec_our_addresses() == old(self).spec_our_addresses()
                    &&& final(self).spec_highest_seen() == old(self).spec_highest_seen()
                },
                HandshakeResult::ProtocolVersionMismatch(v) => {
                    let notify = v > old(self).spec_this_version() && v > old(self).spec_highest_seen();
                    &&& r == ConnectionDecision::Close { protocol_mismatch: notify }
                    &&& final(self).spec_highest_seen() == if notify {
                        v
                    } else {
                        old(self).spec_highest_seen()
                    }
                    &&& final(self).spec_our_addresses() == old(self).spec_our_addresses()
                },
                _ => {
                    &&& r == ConnectionDecision::Close { protocol_mismatch: false }
                    &&& final(self).spec_our_addresses() == old(self).spec_our_addresses()
                    &&& final(self).spec_highest_seen() == old(self).spec_highest_seen()
                },
            },
    {
        match result {
            HandshakeResult::Verified(id) => {
                if bytes_equal(id.0.as_slice(), self.this_runtime_id.0.as_slice()) {
                    self.our_addresses.push(addr);
                    ConnectionDecision::Close { protocol_mismatch: false }
                } else {
                    ConnectionDecision::Activate(id)
                }
            },
            HandshakeResult::ProtocolVersionMismatch(v) => {
                let notify = if v > self.this_version {
                    self.on_protocol_mismatch(v)
                } else {
                    false
                };
                ConnectionDecision::Close { protocol_mismatch: notify }
            },
            _ => ConnectionDecision::Close { protocol_mismatch: false },
        }
    }
}

/// The user hears of each higher protocol version once: after a mismatch with version `v`
/// has been handled, another with the same version is not reported again.
pub proof fn lemma_mismatch_reported_once(highest: u32, v: u32)
    ensures
        ({
            let after = if v > highest {
                v
            } else {
                highest
            };
            !(v > after)
        }),
{
}

/// The four bytes that open a connection, as a little-endian `u32`.
pub const MAGIC: u32 = 0x5359_494f;

/// Most bytes a protocol version takes as a varint.
pub const MAX_VARINT_LEN: usize = 5;

/// Unsigned LEB128: seven bits per byte, least significant first, the high bit set on
/// every byte but the last.
pub open spec fn varint(v: nat) -> Seq<u8>
    decreases v,
{
    if v < 128 {
        seq![v as u8]
    } else {
        seq![(v % 128 + 128) as u8] + varint(v / 128)
    }
}

/// The value of the varint at the start of `s` and the number of bytes it takes, reading
/// at most `limit` bytes; nothing when `s` ends first or the varint is longer.
pub open spec fn varint_value(s: Seq<u8>, limit: nat) -> Option<(nat, nat)>
    decreases limit,
{
    if limit == 0 || s.len() == 0 {
        None
    } else if s[0] < 128 {
        Some((s[0] as nat, 1))
    } else {
        match varint_value(s.drop_first(), (limit - 1) as nat) {
            Some((v, n)) => Some((((s[0] - 128) + 128 * v) as nat, n + 1)),
            None => None,
        }
    }
}

proof fn lemma_varint_round_trip(v: nat, rest: Seq<u8>, limit: nat)
    requires
        varint(v).len() <= limit,
    ensures
        varint_value(varint(v) + rest, limit) == Some((v, varint(v).len())),
    decreases v,
{
    if v >= 128 {
        let s = varint(v) + rest;
        assert(s.drop_first() =~= varint(v / 128) + rest);
        lemma_varint_round_trip(v / 128, rest, (limit - 1) as nat);
    }
}

proof fn lemma_varint_len(v: nat, k: nat)
    requires
        v < pow128(k),
        k >= 1,
    ensures
        varint(v).len() <= k,
    decreases k,
{
    if v >= 128 {
        assert(v / 128 < pow128((k - 1) as nat)) by {
            if k == 1 {
                assert(pow128(0) == 1);
            }
        }
        lemma_varint_len(v / 128, (k - 1) as nat);
    }
}

pub open spec fn pow128(k: nat) -> nat
    decreases k,
{
    if k == 0 {
        1
    } else {
        128 * pow128((k - 1) as nat)
    }
}

/// The bytes that open a connection: the magic, then our protocol version as a varint.
pub open spec fn handshake_prefix(version: u32) -> Seq<u8> {
    spec_u32_to_le_bytes(MAGIC) + varint(version as nat)
}

/// The bytes that open a connection; see `handshake_prefix`.
pub fn encode_handshake_prefix(version: u32) -> (r: Vec<u8>)
    ensures
        r@ == handshake_prefix(version),
{
    let mut r = u32_to_le_bytes(MAGIC);
    let ghost start = r@;
    let mut v: u32 = version;
    while v >= 128
        invariant
            r@ + varint(v as nat) == start + varint(version as nat),
        decreases v,
    {
        let ghost before = r@;
        r.push((v % 128 + 128) as u8);
        proof {
            assert(varint(v as nat) == seq![(v % 128 + 128) as u8] + varint((v / 128) as nat));
            assert(r@ + varint((v / 128) as nat) =~= before + varint(v as nat));
        }
        v = v / 128;
    }
    r.push(v as u8);
    assert(r@ =~= start + varint(version as nat));
    r
}

/// How reading the start of a connection ended.
#[derive(Clone, Copy, Debug, PartialEq, Eq, Structural)]
pub enum PrefixError {
    /// More bytes are needed.
    Incomplete,
    /// The connection does not start with the magic bytes.
    BadMagic,
    /// The version is not a varint of at most `MAX_VARINT_LEN` bytes holding a `u32`.
    Malformed,
}

fn decode_varint(s: &[u8], pos: usize, limit: usize) -> (r: Option<(u64, usize)>)
    requires
        pos <= s@.len(),
        limit <= MAX_VARINT_LEN,
    ensures
        match varint_value(s@.subrange(pos as int, s@.len() as int), limit as nat) {
            Some((v, n)) => r == Some((v as u64, n as usize)) && v < pow128(limit as nat) && 1 <= n <= limit,
            None => r is None,
        },
    decreases limit,
{
    if limit == 0 || pos == s.len() {
        return None;
    }
    let ghost t = s@.subrange(pos as int, s@.len() as int);
    let b = s[pos];
    assert(t[0] == b);
    if b < 128 {
        proof {
            lemma_pow128_monotonic(1, limit as nat);
            reveal_with_fuel(pow128, 2);
        }
        return Some((b as u64, 1));
    }
    assert(t.drop_first() =~= s@.subrange(pos + 1, s@.len() as int));
    let inner = decode_varint(s, pos + 1, limit - 1);
    let ghost spec_inner = varint_value(s@.subrange(pos + 1, s@.len() as int), (limit - 1) as nat);
    match inner {
        Some((v, n)) => {
            proof {
                assert(spec_inner is Some);
                let (gv, gn) = spec_inner->Some_0;
                lemma_pow128_small((limit - 1) as nat);
                assert(gv < pow128((limit - 1) as nat));
                assert(v == gv && n == gn);
                assert(pow128(limit as nat) == 128 * pow128((limit - 1) as nat));
                lemma_pow128_small((limit - 1) as nat);
            }
            Some(((b - 128) as u64 + 128 * v, n + 1))
        },
        None => None,
    }
}

proof fn lemma_pow128_monotonic(p: nat, q: nat)
    requires
        p <= q,
    ensures
        1 <= pow128(p) <= pow128(q),
    decreases q,
{
    if q > p {
        lemma_pow128_monotonic(p, (q - 1) as nat);
    } else if p > 0 {
        lemma_pow128_monotonic((p - 1) as nat, (p - 1) as nat);
    }
}

proof fn lemma_pow128_small(k: nat)
    requires
        k <= 4,
    ensures
        1 <= pow128(k) <= 0x1000_0000,
{
    lemma_pow128_monotonic(k, 4);
    reveal_with_fuel(pow128, 5);
}

/// Reads the start of a connection: the magic, then the peer's protocol version. Returns
/// the version and the number of bytes read.
pub fn parse_handshake_prefix(bytes: &[u8]) -> (r: Result<(u32, usize), PrefixError>)
    ensures
        bytes@.len() < 4 ==> r == Err::<(u32, usize), PrefixError>(PrefixError::Incomplete),
        bytes@.len() >= 4 && bytes@.subrange(0, 4) != spec_u32_to_le_bytes(MAGIC) ==> r == Err::<(u32, usize), PrefixError>(PrefixError::BadMagic),
        bytes@.len() >= 4 && bytes@.subrange(0, 4) == spec_u32_to_le_bytes(MAGIC) ==> match varint_value(
            bytes@.subrange(4, bytes@.len() as int),
            MAX_VARINT_LEN as nat,
        ) {
            Some((v, n)) => if v <= u32::MAX {
                r == Ok::<(u32, usize), PrefixError>((v as u32, (4 + n) as usize))
            } else {
                r == Err::<(u32, usize), PrefixError>(PrefixError::Malformed)
            },
            None => r is Err,
        },
{
    if bytes.len() < 4 {
        return Err(PrefixError::Incomplete);
    }
    let head = slice_subrange(bytes, 0, 4);
    proof {
        lemma_auto_spec_u32_to_from_le_bytes();
        let m: u32 = MAGIC;
        assert(spec_u32_to_le_bytes(m).len() == 4);
        assert(spec_u32_from_le_bytes(spec_u32_to_le_bytes(m)) == m);
        assert(head@ == bytes@.subrange(0, 4));
        assert(spec_u32_to_le_bytes(spec_u32_from_le_bytes(head@)) == head@);
    }
    if u32_from_le_bytes(head) != MAGIC {
        return Err(PrefixError::BadMagic);
    }
    let decoded = decode_varint(bytes, 4, MAX_VARINT_LEN);
    proof {
        reveal_with_fuel(pow128, 6);
        let spec_decoded = varint_value(bytes@.subrange(4, bytes@.len() as int), MAX_VARINT_LEN as nat);
        if decoded is Some {
            assert(spec_decoded is Some);
            let (gv, gn) = spec_decoded->Some_0;
            assert(gv < pow128(5));
        }
    }
    match decoded {
        Some((v, n)) => if v <= u32::MAX as u64 {
            Ok((v as u32, 4 + n))
        } else {
            Err(PrefixError::Malformed)
        },
        None => if bytes.len() - 4 >= MAX_VARINT_LEN {
            Err(PrefixError::Malformed)
        } else {
            Err(PrefixError::Incomplete)
        },
    }
}

/// What a connection opens with is read back as the version that was sent, whatever
/// follows it.
pub proof fn lemma_handshake_prefix_round_trip(version: u32, rest: Seq<u8>)
    ensures
        ({
            let bytes = handshake_prefix(version) + rest;
            &&& bytes.subrange(0, 4) == spec_u32_to_le_bytes(MAGIC)
            &&& varint_value(bytes.subrange(4, bytes.len() as int), MAX_VARINT_LEN as nat) == Some(
                (version as nat, varint(version as nat).len()),
            )
        }),
{
    lemma_auto_spec_u32_to_from_le_bytes();
    let bytes = handshake_prefix(version) + rest;
    let m = spec_u32_to_le_bytes(MAGIC);
    assert(bytes.subrange(0, 4) =~= m);
    assert(bytes.subrange(4, bytes.len() as int) =~= varint(version as nat) + rest);
    assert(pow128(5) == 0x8_0000_0000) by {
        reveal_with_fuel(pow128, 6);
    }
    lemma_varint_len(version as nat, 5);
    lemma_varint_round_trip(version as nat, rest, MAX_VARINT_LEN as nat);
}

/// Outcome of reserving an address for a connection attempt.
#[derive(Clone, Copy, Debug, PartialEq, Eq, Structural)]
pub enum Reservation {
    /// The address is ours to connect to until released.
    Permit,
    /// Another attempt holds it; it was reported by this source.
    Occupied(PeerSource),
}

/// The addresses being connected to, each with the source that reported it; at most one
/// attempt per address.
pub struct Deduplicator {
    slots: Vec<(PeerAddr, PeerSource)>,
}

impl Deduplicator {
    pub closed spec fn spec_slots(&self) -> Seq<(PeerAddr, PeerSource)> {
        self.slots@
    }

    /// Every address appears once.
    pub open spec fn wf(&self) -> bool {
        forall|i: int, j: int|
            0 <= i < j < self.spec_slots().len() ==> #[trigger] self.spec_slots()[i].0
                != #[trigger] self.spec_slots()[j].0
    }

    /// Whether `addr` is held, and by which source.
    pub open spec fn holder(&self, addr: PeerAddr) -> Option<PeerSource> {
        if exists|i: int| 0 <= i < self.spec_slots().len() && self.spec_slots()[i].0 == addr {
            Some(self.spec_slots()[choose|i: int| 0 <= i < self.spec_slots().len() && self.spec_slots()[i].0 == addr].1)
        } else {
            None
        }
    }

    pub fn new() -> (r: Deduplicator)
        ensures
            r.wf(),
            forall|a: PeerAddr| #[trigger] r.holder(a) is None,
    {
        Deduplicator { slots: Vec::new() }
    }

    fn find(&self, addr: &PeerAddr) -> (r: Option<usize>)
        ensures
            match r {
                Some(i) => i < self.spec_slots().len() && self.spec_slots()[i as int].0 == *addr,
                None => forall|i: int| 0 <= i < self.spec_slots().len() ==> self.spec_slots()[i].0 != *addr,
            },
    {
        let mut i: usize = 0;
        while i < self.slots.len()
            invariant
                i <= self.slots@.len(),
                forall|k: int| 0 <= k < i ==> self.slots@[k].0 != *addr,
            decreases self.slots@.len() - i,
        {
            if self.slots[i].0 == *addr {
                return Some(i);
            }
            i = i + 1;
        }
        None
    }

    /// Reserves `addr` for an attempt by `source`, unless another attempt holds it.
    pub fn reserve(&mut self, addr: PeerAddr, source: PeerSource) -> (r: Reservation)
        requires
            old(self).wf(),
        ensures
            final(self).wf(),
            match old(self).holder(addr) {
                Some(s) => r == Reservation::Occupied(s) && final(self).spec_slots() == old(self).spec_slots(),
                None => r == Reservation::Permit && final(self).spec_slots() == old(self).spec_slots().push((addr, source)),
            },
    {
        match self.find(&addr) {
            Some(i) => {
                proof {
                    let c = choose|c: int| 0 <= c < self.spec_slots().len() && self.spec_slots()[c].0 == addr;
                    if c != i {
                        if c < i {
                            assert(self.spec_slots()[c].0 != self.spec_slots()[i as int].0);
                        } else {
                            assert(self.spec_slots()[i as int].0 != self.spec_slots()[c].0);
                        }
                    }
                }
                Reservation::Occupied(self.slots[i].1)
            },
            None => {
                self.slots.push((addr, source));
                Reservation::Permit
            },
        }
    }

    /// Releases the reservation of `addr`.
    pub fn release(&mut self, addr: &PeerAddr)
        requires
            old(self).wf(),
        ensures
            final(self).wf(),
            final(self).holder(*addr) is None,
            match old(self).holder(*addr) {
                Some(_) => exists|i: int|
                    0 <= i < old(self).spec_slots().len() && old(self).spec_slots()[i].0 == *addr
                        && final(self).spec_slots() == old(self).spec_slots().remove(i),
                None => final(self).spec_slots() == old(self).spec_slots(),
            },
    {
        match self.find(addr) {
            Some(i) => {
                self.slots.remove(i);
                proof {
                    let o = old(self).spec_slots();
                    let n = self.spec_slots();
                    assert(n =~= o.remove(i as int));
                    assert forall|p: int, q: int| 0 <= p < q < n.len() implies #[trigger] n[p].0 != #[trigger] n[q].0 by {
                        let pp = if p < i { p } else { p + 1 };
                        let qq = if q < i { q } else { q + 1 };
                        assert(o[pp].0 != o[qq].0);
                    }
                    assert forall|k: int| 0 <= k < n.len() implies n[k].0 != *addr by {
                        let kk = if k < i { k } else { k + 1 };
                        assert(n[k] == o[kk]);
                        if kk < i {
                            assert(o[kk].0 != o[i as int].0);
                        } else {
                            assert(o[i as int].0 != o[kk].0);
                        }
                    }
                }
            },
            None => {},
        }
    }
}

} // verus!
