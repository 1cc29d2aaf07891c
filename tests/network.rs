use ouisync::handshake::{
    check_version, encode_handshake_prefix, next_state, on_duplicate, parse_handshake_prefix,
    ConnectionDecision, ConnectionEvent, Deduplicator, PrefixError, Reservation,
    ConnectionState, DuplicateAction, HandshakeResult, PeerGuard,
};
use ouisync::links::{LinkOutcome, Links, OutgoingStep};
use ouisync::peer_addr::{
    is_global, ok_to_connect, select_transport, strip_port, wants_hole_punching, ConnectError,
    IpAddr, PeerAddr, PeerInfo, PeerSource, PeerState, SocketAddr, Transport,
};
use ouisync::peer_exchange::{
    announce, limit_contacts, ConnectionDirection, ConnectionInfo, ContactSet, PexAnnouncerGroup,
    RecentFilter, RuntimeId, MAX_CONTACTS_PER_MESSAGE,
};

fn v4(a: u8, b: u8, c: u8, d: u8) -> IpAddr {
    IpAddr::V4(u32::from_be_bytes([a, b, c, d]))
}

fn v6(segments: [u16; 8]) -> IpAddr {
    let mut bits: u128 = 0;
    for s in segments {
        bits = (bits << 16) | s as u128;
    }
    IpAddr::V6(bits)
}

fn sock(ip: IpAddr, port: u16) -> SocketAddr {
    SocketAddr { ip, port }
}

fn tcp(ip: IpAddr, port: u16) -> PeerAddr {
    PeerAddr::Tcp(sock(ip, port))
}

fn quic(ip: IpAddr, port: u16) -> PeerAddr {
    PeerAddr::Quic(sock(ip, port))
}

fn rid(b: u8) -> RuntimeId {
    RuntimeId([b; 32])
}

#[test]
fn connect_filter_rejects_special_addresses() {
    let public = v4(8, 8, 8, 8);
    assert!(ok_to_connect(&sock(public, 4000), PeerSource::Dht));
    assert!(!ok_to_connect(&sock(public, 0), PeerSource::UserProvided));
    assert!(!ok_to_connect(&sock(public, 1), PeerSource::UserProvided));
    assert!(!ok_to_connect(&sock(v4(0, 1, 2, 3), 4000), PeerSource::UserProvided));
    assert!(!ok_to_connect(&sock(v4(255, 255, 255, 255), 4000), PeerSource::UserProvided));
    assert!(!ok_to_connect(&sock(v4(192, 0, 2, 7), 4000), PeerSource::UserProvided));
    assert!(!ok_to_connect(&sock(v4(198, 19, 0, 1), 4000), PeerSource::UserProvided));
    assert!(!ok_to_connect(&sock(v4(240, 0, 0, 1), 4000), PeerSource::UserProvided));
    // Private and loopback addresses only from sources other than the DHT.
    assert!(ok_to_connect(&sock(v4(192, 168, 1, 5), 4000), PeerSource::LocalDiscovery));
    assert!(!ok_to_connect(&sock(v4(192, 168, 1, 5), 4000), PeerSource::Dht));
    assert!(ok_to_connect(&sock(v4(127, 0, 0, 1), 4000), PeerSource::UserProvided));
    assert!(!ok_to_connect(&sock(v4(127, 0, 0, 1), 4000), PeerSource::Dht));
    assert!(!ok_to_connect(&sock(v4(169, 254, 3, 3), 4000), PeerSource::Dht));

    let v6_public = v6([0x2a00, 0x1450, 0, 0, 0, 0, 0, 0x200e]);
    assert!(ok_to_connect(&sock(v6_public, 4000), PeerSource::Dht));
    assert!(!ok_to_connect(&sock(v6([0xff02, 0, 0, 0, 0, 0, 0, 1]), 4000), PeerSource::UserProvided));
    assert!(!ok_to_connect(&sock(v6([0; 8]), 4000), PeerSource::UserProvided));
    assert!(!ok_to_connect(&sock(v6([0x2001, 0x0db8, 0, 0, 0, 0, 0, 1]), 4000), PeerSource::UserProvided));
    assert!(ok_to_connect(&sock(v6([0, 0, 0, 0, 0, 0, 0, 1]), 4000), PeerSource::UserProvided));
    assert!(!ok_to_connect(&sock(v6([0, 0, 0, 0, 0, 0, 0, 1]), 4000), PeerSource::Dht));
    assert!(!ok_to_connect(&sock(v6([0xfe80, 0, 0, 0, 0, 0, 0, 1]), 4000), PeerSource::Dht));
    assert!(!ok_to_connect(&sock(v6([0xfd00, 0, 0, 0, 0, 0, 0, 1]), 4000), PeerSource::Dht));
    assert!(!ok_to_connect(&sock(v6([0xfd00, 0, 0, 0, 0, 0, 0, 1]), 80), PeerSource::UserProvided));
    assert!(!ok_to_connect(&sock(v6([0xfc12, 0, 0, 0, 0, 0, 0, 1]), 4000), PeerSource::LocalDiscovery));
    assert!(ok_to_connect(&sock(v6([0xfe80, 0, 0, 0, 0, 0, 0, 1]), 4000), PeerSource::LocalDiscovery));
}

#[test]
fn global_addresses() {
    assert!(is_global(&v4(8, 8, 8, 8)));
    assert!(!is_global(&v4(10, 0, 0, 1)));
    assert!(!is_global(&v4(172, 16, 0, 1)));
    assert!(is_global(&v4(172, 32, 0, 1)));
    assert!(!is_global(&v4(100, 64, 0, 1)));
    assert!(!is_global(&v4(192, 0, 0, 1)));
    assert!(is_global(&v4(192, 0, 0, 9)));
    assert!(!is_global(&v6([0xfe80, 0, 0, 0, 0, 0, 0, 1])));
    assert!(!is_global(&v6([0, 0, 0, 0, 0, 0xffff, 0x0a00, 1])));
    assert!(is_global(&v6([0x2a00, 0x1450, 0, 0, 0, 0, 0, 1])));
    assert!(wants_hole_punching(&quic(v4(8, 8, 8, 8), 1234)));
    assert!(!wants_hole_punching(&tcp(v4(8, 8, 8, 8), 1234)));
    assert!(!wants_hole_punching(&quic(v4(10, 0, 0, 1), 1234)));
}

#[test]
fn strip_port_keeps_host() {
    assert_eq!(strip_port("example.org:443"), "example.org");
    assert_eq!(strip_port("example.org"), "example.org");
    assert_eq!(strip_port("[::1]:20209"), "[::1]");
    assert_eq!(strip_port(""), "");
}

#[test]
fn transport_selection() {
    assert_eq!(select_transport(&tcp(v4(1, 2, 3, 4), 5), false, false), Ok(Transport::Tcp));
    assert_eq!(select_transport(&quic(v4(1, 2, 3, 4), 5), true, false), Ok(Transport::QuicV4));
    assert_eq!(
        select_transport(&quic(v4(1, 2, 3, 4), 5), false, true),
        Err(ConnectError::NoSuitableQuicConnector)
    );
    assert_eq!(select_transport(&quic(v6([0x2a00, 0, 0, 0, 0, 0, 0, 1]), 5), false, true), Ok(Transport::QuicV6));
    let info = PeerInfo::new(tcp(v4(1, 2, 3, 4), 5), PeerSource::Listener, PeerState::Known);
    assert_eq!(info.source, PeerSource::Listener);
    assert_eq!(info.state, PeerState::Known);
}

#[test]
fn recent_filter() {
    let mut filter = RecentFilter::new(1000);
    let contact = tcp(v4(127, 0, 0, 1), 10001);
    assert!(filter.apply(contact, 0));

    assert!(!filter.apply(contact, 100));

    assert!(filter.apply(contact, 1100));
}

#[test]
fn contacts_for_recipients() {
    let mut set = ContactSet::new();
    let global_peer = rid(1);
    let local_peer = rid(2);
    let other = rid(3);
    set.insert(
        global_peer,
        vec![ConnectionInfo { addr: quic(v4(8, 8, 8, 8), 100), dir: ConnectionDirection::Outgoing }],
    );
    set.insert(
        local_peer,
        vec![ConnectionInfo { addr: quic(v4(192, 168, 1, 2), 200), dir: ConnectionDirection::Incoming }],
    );
    set.insert(
        other,
        vec![
            ConnectionInfo { addr: quic(v4(9, 9, 9, 9), 300), dir: ConnectionDirection::Incoming },
            ConnectionInfo { addr: tcp(v4(9, 9, 9, 9), 301), dir: ConnectionDirection::Incoming },
            ConnectionInfo { addr: tcp(v4(9, 9, 9, 9), 302), dir: ConnectionDirection::Outgoing },
        ],
    );

    // A global recipient learns global addresses only, and never incoming TCP ones.
    let mut to_global = set.iter_for(&global_peer);
    to_global.sort_by_key(|a| format!("{:?}", a));
    assert_eq!(to_global.len(), 2);
    assert!(to_global.contains(&quic(v4(9, 9, 9, 9), 300)));
    assert!(to_global.contains(&tcp(v4(9, 9, 9, 9), 302)));

    // A local recipient also learns local addresses.
    let to_local = set.iter_for(&local_peer);
    assert_eq!(to_local.len(), 3);
    assert!(to_local.contains(&quic(v4(8, 8, 8, 8), 100)));

    set.remove(&other);
    assert_eq!(set.iter_for(&global_peer).len(), 0);
    assert_eq!(set.iter_for(&local_peer), vec![quic(v4(8, 8, 8, 8), 100)]);
}

#[test]
fn announcements_are_deduplicated_and_capped() {
    let mut group = PexAnnouncerGroup::new();
    let recipient = group.bind(rid(0), vec![ConnectionInfo {
        addr: quic(v4(10, 0, 0, 1), 1),
        dir: ConnectionDirection::Outgoing,
    }]);
    for k in 1..=40u8 {
        group.bind(rid(k), vec![ConnectionInfo {
            addr: quic(v4(8, 8, 4, k), 1000),
            dir: ConnectionDirection::Outgoing,
        }]);
    }
    let mut filter = RecentFilter::new(600_000);
    let first = announce(&group, &recipient, &mut filter, 0);
    assert_eq!(first.len(), MAX_CONTACTS_PER_MESSAGE);
    let mut unique = first.clone();
    unique.sort_by_key(|a| format!("{:?}", a));
    unique.dedup();
    assert_eq!(unique.len(), first.len());
    // Within the expiry nothing is announced twice.
    let second = announce(&group, &recipient, &mut filter, 1);
    assert!(second.iter().all(|a| !first.contains(a)));
    group.unbind(recipient);
    let few: Vec<PeerAddr> = (0..3u8).map(|k| quic(v4(8, 8, 8, k), 1)).collect();
    assert_eq!(limit_contacts(few.clone(), &vec![]), few);
    let many: Vec<PeerAddr> = (0..30u8).map(|k| quic(v4(8, 8, 8, k), 1)).collect();
    let chosen: Vec<usize> = (0..25).collect();
    assert_eq!(limit_contacts(many.clone(), &chosen), many[..25].to_vec());
}

#[test]
fn protocol_mismatch_is_reported_once_per_version() {
    let ours = 5u32;
    let mut guard = PeerGuard::new(rid(9), ours);
    assert_eq!(check_version(ours, ours + 1), Err(ours + 1));
    assert_eq!(check_version(ours, ours), Ok(()));
    assert_eq!(check_version(ours, ours - 1), Ok(()));

    let peer = tcp(v4(8, 8, 8, 8), 4000);
    let other = tcp(v4(8, 8, 4, 4), 4000);
    assert_eq!(
        guard.handle_handshake(peer, HandshakeResult::ProtocolVersionMismatch(ours + 1)),
        ConnectionDecision::Close { protocol_mismatch: true }
    );
    assert_eq!(
        guard.handle_handshake(other, HandshakeResult::ProtocolVersionMismatch(ours + 1)),
        ConnectionDecision::Close { protocol_mismatch: false }
    );
    assert_eq!(guard.highest_seen_protocol_version(), ours + 1);
    assert_eq!(
        guard.handle_handshake(other, HandshakeResult::ProtocolVersionMismatch(ours + 2)),
        ConnectionDecision::Close { protocol_mismatch: true }
    );
    // Other peers still get connected.
    assert_eq!(
        guard.handle_handshake(other, HandshakeResult::Verified(rid(1))),
        ConnectionDecision::Activate(rid(1))
    );
    assert!(!guard.is_our_address(&peer));
}

#[test]
fn self_connection_is_remembered() {
    let mut guard = PeerGuard::new(rid(9), 1);
    let addr = tcp(v4(192, 168, 1, 1), 4000);
    assert_eq!(
        guard.handle_handshake(addr, HandshakeResult::Verified(rid(9))),
        ConnectionDecision::Close { protocol_mismatch: false }
    );
    assert!(guard.is_our_address(&addr));
    assert_eq!(
        guard.handle_handshake(addr, HandshakeResult::BadMagic),
        ConnectionDecision::Close { protocol_mismatch: false }
    );
    assert_eq!(on_duplicate(PeerSource::Dht, PeerSource::Dht), DuplicateAction::Ignore);
    assert_eq!(on_duplicate(PeerSource::Dht, PeerSource::LocalDiscovery), DuplicateAction::WaitForRelease);
}

#[test]
fn connection_state_machine() {
    assert_eq!(next_state(ConnectionState::Connecting, ConnectionEvent::StreamEstablished), ConnectionState::Handshaking);
    assert_eq!(next_state(ConnectionState::Handshaking, ConnectionEvent::HandshakeSucceeded), ConnectionState::Active);
    assert_eq!(next_state(ConnectionState::Handshaking, ConnectionEvent::HandshakeFailed), ConnectionState::Closed);
    assert_eq!(next_state(ConnectionState::Active, ConnectionEvent::IoError), ConnectionState::Draining);
    assert_eq!(next_state(ConnectionState::Connecting, ConnectionEvent::IoError), ConnectionState::Draining);
    assert_eq!(next_state(ConnectionState::Draining, ConnectionEvent::Settled), ConnectionState::Closed);
    assert_eq!(next_state(ConnectionState::Draining, ConnectionEvent::HardTimeout), ConnectionState::Closed);
    assert_eq!(next_state(ConnectionState::Closed, ConnectionEvent::IoError), ConnectionState::Closed);
    assert_eq!(next_state(ConnectionState::Active, ConnectionEvent::StreamEstablished), ConnectionState::Active);
}

#[test]
fn links_need_both_sides() {
    let mut links = Links::new();
    let local = b"local-repo-id".to_vec();
    let remote = b"remote-repo-id".to_vec();
    let name = b"shared".to_vec();

    assert_eq!(links.begin_outgoing(&local, &name), OutgoingStep::Send);
    assert_eq!(links.finish_outgoing(local.clone(), name.clone(), true), LinkOutcome::Pending);
    assert_eq!(links.begin_outgoing(&local, &name), OutgoingStep::AlreadyPending);
    assert_eq!(links.get_request_link(&local), None);

    assert_eq!(links.create_incoming_link(name.clone(), remote.clone()), LinkOutcome::Linked(0));
    assert_eq!(links.get_request_link(&local), Some(0));
    assert_eq!(links.get_response_link(&local), Some(0));
    assert_eq!(links.begin_outgoing(&local, &name), OutgoingStep::AlreadyActive);

    // A replacement link gets a new id; tearing down the stale one leaves it alone.
    let replacement = links.insert_active(local.clone(), remote.clone());
    assert_eq!(replacement, 1);
    links.destroy_one(&local, Some(0));
    assert_eq!(links.get_request_link(&local), Some(1));
    links.destroy_one(&local, Some(1));
    assert_eq!(links.get_request_link(&local), None);
}

#[test]
fn links_from_the_remote_side_first() {
    let mut links = Links::new();
    let local = b"L".to_vec();
    let name = b"n".to_vec();
    assert_eq!(links.create_incoming_link(name.clone(), b"R".to_vec()), LinkOutcome::Pending);
    assert_eq!(links.finish_outgoing(local.clone(), name.clone(), false), LinkOutcome::Failed);
    assert_eq!(links.get_request_link(&local), None);
    assert_eq!(links.finish_outgoing(local.clone(), name.clone(), true), LinkOutcome::Linked(0));
    links.destroy_one(&local, None);
    assert_eq!(links.get_request_link(&local), None);
}

#[test]
fn handshake_prefix_round_trip() {
    let prefix = encode_handshake_prefix(5);
    assert_eq!(prefix.len(), 5);
    assert_eq!(parse_handshake_prefix(&prefix), Ok((5, 5)));

    let long = encode_handshake_prefix(300);
    assert_eq!(&long[4..], &[0xac, 0x02]);
    let mut with_rest = long.clone();
    with_rest.extend_from_slice(b"more");
    assert_eq!(parse_handshake_prefix(&with_rest), Ok((300, 6)));

    let max = encode_handshake_prefix(u32::MAX);
    assert_eq!(max.len(), 9);
    assert_eq!(parse_handshake_prefix(&max), Ok((u32::MAX, 9)));

    assert_eq!(parse_handshake_prefix(&prefix[..3]), Err(PrefixError::Incomplete));
    assert_eq!(parse_handshake_prefix(&long[..5]), Err(PrefixError::Incomplete));
    assert_eq!(parse_handshake_prefix(b"HTTP/1.1"), Err(PrefixError::BadMagic));
    let mut too_long = prefix[..4].to_vec();
    too_long.extend_from_slice(&[0xff, 0xff, 0xff, 0xff, 0xff, 0x01]);
    assert_eq!(parse_handshake_prefix(&too_long), Err(PrefixError::Malformed));
    let mut too_big = prefix[..4].to_vec();
    too_big.extend_from_slice(&[0xff, 0xff, 0xff, 0xff, 0x1f]);
    assert_eq!(parse_handshake_prefix(&too_big), Err(PrefixError::Malformed));
}

#[test]
fn one_attempt_per_address() {
    let mut dedup = Deduplicator::new();
    let addr = tcp(v4(8, 8, 8, 8), 4000);
    assert_eq!(dedup.reserve(addr, PeerSource::Dht), Reservation::Permit);
    assert_eq!(dedup.reserve(addr, PeerSource::Dht), Reservation::Occupied(PeerSource::Dht));
    assert_eq!(
        on_duplicate(PeerSource::LocalDiscovery, PeerSource::Dht),
        DuplicateAction::WaitForRelease
    );
    assert_eq!(dedup.reserve(tcp(v4(8, 8, 4, 4), 4000), PeerSource::LocalDiscovery), Reservation::Permit);
    dedup.release(&addr);
    assert_eq!(dedup.reserve(addr, PeerSource::LocalDiscovery), Reservation::Permit);
}
