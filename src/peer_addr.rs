//! Peer addresses, the rules for which addresses are worth dialing, and which transport a
//! connection goes over.

use vstd::prelude::*;
use vstd::string::StrSliceExecFns;

verus! {

/// An IP address: IPv4 as its 32 bits, IPv6 as its 128 bits, both most significant first.
#[derive(Clone, Copy, Debug, PartialEq, Eq, Hash, Structural)]
pub enum IpAddr {
    V4(u32),
    V6(u128),
}

/// An IP address with a port.
#[derive(Clone, Copy, Debug, PartialEq, Eq, Hash, Structural)]
pub struct SocketAddr {
    pub ip: IpAddr,
    pub port: u16,
}

/// Address of a peer together with the transport to reach it over.
#[derive(Clone, Copy, Debug, PartialEq, Eq, Hash, Structural)]
pub enum PeerAddr {
    Tcp(SocketAddr),
    Quic(SocketAddr),
}

impl PeerAddr {
    pub open spec fn spec_socket_addr(self) -> SocketAddr {
        match self {
            PeerAddr::Tcp(a) => a,
            PeerAddr::Quic(a) => a,
        }
    }

    /// The socket address, whatever the transport.
    pub fn socket_addr(&self) -> (r: SocketAddr)
        ensures
            r == self.spec_socket_addr(),
    {
        match self {
            PeerAddr::Tcp(a) => *a,
            PeerAddr::Quic(a) => *a,
        }
    }

    pub fn is_tcp(&self) -> (r: bool)
        ensures
            r == (self is Tcp),
    {
        match self {
            PeerAddr::Tcp(_) => true,
            PeerAddr::Quic(_) => false,
        }
    }

    pub fn is_quic(&self) -> (r: bool)
        ensures
            r == (self is Quic),
    {
        !self.is_tcp()
    }
}

/// How a peer was found.
#[derive(Clone, Copy, Debug, PartialEq, Eq, Hash, Structural)]
pub enum PeerSource {
    UserProvided,
    Listener,
    LocalDiscovery,
    Dht,
    PeerExchange,
}

/// Where the connection to a peer stands.
#[derive(Clone, Copy, Debug, PartialEq, Eq, Hash, Structural)]
pub enum PeerState {
    Known,
    Connecting,
    Handshaking,
    Active,
}

/// Information about a peer.
#[derive(Clone, Copy, Debug, PartialEq, Eq, Structural)]
pub struct PeerInfo {
    pub addr: PeerAddr,
    pub source: PeerSource,
    pub state: PeerState,
}

impl PeerInfo {
    pub fn new(addr: PeerAddr, source: PeerSource, state: PeerState) -> (r: PeerInfo)
        ensures
            r == (PeerInfo { addr, source, state }),
    {
        PeerInfo { addr, source, state }
    }
}

// Octets of an IPv4 address and leading segments of an IPv6 address.
pub open spec fn v4_octets(ip: u32) -> (u8, u8, u8, u8) {
    ((ip >> 24u32) as u8, ((ip >> 16u32) & 0xff) as u8, ((ip >> 8u32) & 0xff) as u8, (ip & 0xff) as u8)
}

pub open spec fn v6_segment0(ip: u128) -> u16 {
    (ip >> 112u128) as u16
}

pub open spec fn v6_segment1(ip: u128) -> u16 {
    ((ip >> 96u128) & 0xffff) as u16
}

fn octets(ip: u32) -> (r: (u8, u8, u8, u8))
    ensures
        r == v4_octets(ip),
{
    ((ip >> 24u32) as u8, ((ip >> 16u32) & 0xff) as u8, ((ip >> 8u32) & 0xff) as u8, (ip & 0xff) as u8)
}

fn segments01(ip: u128) -> (r: (u16, u16))
    ensures
        r == (v6_segment0(ip), v6_segment1(ip)),
{
    ((ip >> 112u128) as u16, ((ip >> 96u128) & 0xffff) as u16)
}

/// IPv4 address classes (RFC 1918, 1122, 3927, 5737, 2544, 6598, 1112, 919).
pub open spec fn v4_class(ip: u32) -> (bool, bool, bool, bool, bool, bool, bool, bool) {
    let (a, b, c, d) = v4_octets(ip);
    let broadcast = ip == 0xffff_ffff;
    (
        a == 10 || (a == 172 && (b & 0xf0) == 16) || (a == 192 && b == 168),  // private
        a == 127,  // loopback
        a == 169 && b == 254,  // link-local
        broadcast,
        (a == 192 && b == 0 && c == 2) || (a == 198 && b == 51 && c == 100) || (a == 203 && b
            == 0 && c == 113),  // documentation
        a == 198 && (b & 0xfe) == 18,  // benchmarking
        (a & 240) == 240 && !broadcast,  // reserved
        a == 100 && (b & 0xc0) == 64,  // shared address space
    )
}

fn class_v4(ip: u32) -> (r: (bool, bool, bool, bool, bool, bool, bool, bool))
    ensures
        r == v4_class(ip),
{
    let (a, b, c, d) = octets(ip);
    let broadcast = ip == 0xffff_ffff;
    (
        a == 10 || (a == 172 && (b & 0xf0) == 16) || (a == 192 && b == 168),
        a == 127,
        a == 169 && b == 254,
        broadcast,
        (a == 192 && b == 0 && c == 2) || (a == 198 && b == 51 && c == 100) || (a == 203 && b
            == 0 && c == 113),
        a == 198 && (b & 0xfe) == 18,
        (a & 240) == 240 && !broadcast,
        a == 100 && (b & 0xc0) == 64,
    )
}

/// IPv6 address classes: unspecified, loopback, multicast, documentation (2001:db8::/32),
/// unicast link-local (fe80::/10), unique local (fc00::/7), IPv4-mapped (::ffff:0:0/96).
pub open spec fn v6_class(ip: u128) -> (bool, bool, bool, bool, bool, bool, bool) {
    let s0 = v6_segment0(ip);
    let s1 = v6_segment1(ip);
    (
        ip == 0,
        ip == 1,
        (s0 & 0xff00) == 0xff00,
        s0 == 0x2001 && s1 == 0x0db8,
        (s0 & 0xffc0) == 0xfe80,
        (s0 & 0xfe00) == 0xfc00,
        (ip >> 32u128) == 0xffff,
    )
}

fn class_v6(ip: u128) -> (r: (bool, bool, bool, bool, bool, bool, bool))
    ensures
        r == v6_class(ip),
{
    let (s0, s1) = segments01(ip);
    (
        ip == 0,
        ip == 1,
        (s0 & 0xff00) == 0xff00,
        s0 == 0x2001 && s1 == 0x0db8,
        (s0 & 0xffc0) == 0xfe80,
        (s0 & 0xfe00) == 0xfc00,
        (ip >> 32u128) == 0xffff,
    )
}

/// Whether an address is reachable from anywhere on the internet, as opposed to a private,
/// local or special-purpose one. A multicast IPv6 address counts as global only with global
/// scope.
pub open spec fn spec_is_global(ip: IpAddr) -> bool {
    match ip {
        IpAddr::V4(v) => {
            let (a, b, c, d) = v4_octets(v);
            let (private, loopback, link_local, broadcast, documentation, benchmarking, reserved, shared) =
                v4_class(v);
            !(a == 0 || private || shared || loopback || link_local || (a == 192 && b == 0 && c
                == 0 && d != 9 && d != 10) || documentation || benchmarking || reserved
                || broadcast)
        },
        IpAddr::V6(v) => {
            let (unspecified, loopback, multicast, documentation, link_local, unique_local, mapped) =
                v6_class(v);
            !(unspecified || loopback || documentation || link_local || unique_local || mapped)
                && (multicast ==> (v6_segment0(v) & 0x000f) == 0x000e)
        },
    }
}

/// Whether `ip` is a global address; see `spec_is_global`.
pub fn is_global(ip: &IpAddr) -> (r: bool)
    ensures
        r == spec_is_global(*ip),
{
    match ip {
        IpAddr::V4(v) => {
            let (a, b, c, d) = octets(*v);
            let (private, loopback, link_local, broadcast, documentation, benchmarking, reserved, shared) =
                class_v4(*v);
            !(a == 0 || private || shared || loopback || link_local || (a == 192 && b == 0 && c
                == 0 && d != 9 && d != 10) || documentation || benchmarking || reserved
                || broadcast)
        },
        IpAddr::V6(v) => {
            let (unspecified, loopback, multicast, documentation, link_local, unique_local, mapped) =
                class_v6(*v);
            let (s0, _) = segments01(*v);
            !(unspecified || loopback || documentation || link_local || unique_local || mapped)
                && (!multicast || (s0 & 0x000f) == 0x000e)
        },
    }
}

/// Whether an address found by `source` is worth dialing: ports 0 and 1, the network
/// 0.0.0.0/8, benchmarking, reserved, broadcast and documentation IPv4 addresses and
/// multicast, unspecified, documentation and unique local IPv6 addresses never are;
/// addresses learned from the DHT also not when private, loopback or link-local (IPv4), or
/// loopback or unicast link-local (IPv6).
pub open spec fn spec_ok_to_connect(addr: SocketAddr, source: PeerSource) -> bool {
    if addr.port == 0 || addr.port == 1 {
        false
    } else {
        match addr.ip {
            IpAddr::V4(v) => {
                let (a, _, _, _) = v4_octets(v);
                let (private, loopback, link_local, broadcast, documentation, benchmarking, reserved, _) =
                    v4_class(v);
                !(a == 0 || benchmarking || reserved || broadcast || documentation) && !(source
                    == PeerSource::Dht && (private || loopback || link_local))
            },
            IpAddr::V6(v) => {
                let (unspecified, loopback, multicast, documentation, link_local, unique_local, _) =
                    v6_class(v);
                !(multicast || unspecified || documentation || unique_local) && !(source
                    == PeerSource::Dht && (loopback || link_local))
            },
        }
    }
}

/// Filters out addresses that are not worth dialing; see `spec_ok_to_connect`.
pub fn ok_to_connect(addr: &SocketAddr, source: PeerSource) -> (r: bool)
    ensures
        r == spec_ok_to_connect(*addr, source),
{
    if addr.port == 0 || addr.port == 1 {
        return false;
    }
    match addr.ip {
        IpAddr::V4(v) => {
            let (a, _, _, _) = octets(v);
            let (private, loopback, link_local, broadcast, documentation, benchmarking, reserved, _) =
                class_v4(v);
            if a == 0 {
                return false;
            }
            if benchmarking || reserved || broadcast || documentation {
                return false;
            }
            if source == PeerSource::Dht && (private || loopback || link_local) {
                return false;
            }
        },
        IpAddr::V6(v) => {
            let (unspecified, loopback, multicast, documentation, link_local, unique_local, _) =
                class_v6(v);
            if multicast || unspecified || documentation || unique_local {
                return false;
            }
            if source == PeerSource::Dht && (loopback || link_local) {
                return false;
            }
        },
    }
    true
}

/// Why a connection could not be made.
#[derive(Clone, Copy, Debug, PartialEq, Eq, Structural)]
pub enum ConnectError {
    /// The TCP connection failed.
    Tcp,
    /// The QUIC connection failed.
    Quic,
    /// There is no QUIC endpoint for the address family of the peer.
    NoSuitableQuicConnector,
}

/// The endpoint a connection is made from.
#[derive(Clone, Copy, Debug, PartialEq, Eq, Structural)]
pub enum Transport {
    Tcp,
    QuicV4,
    QuicV6,
}

/// Picks the endpoint to dial `addr` from: TCP for a TCP address, otherwise the QUIC
/// endpoint of the address family, if this node has one.
pub fn select_transport(addr: &PeerAddr, has_quic_v4: bool, has_quic_v6: bool) -> (r: Result<
    Transport,
    ConnectError,
>)
    ensures
        r == match *addr {
            PeerAddr::Tcp(_) => Ok(Transport::Tcp),
            PeerAddr::Quic(a) => match a.ip {
                IpAddr::V4(_) => if has_quic_v4 {
                    Ok(Transport::QuicV4)
                } else {
                    Err(ConnectError::NoSuitableQuicConnector)
                },
                IpAddr::V6(_) => if has_quic_v6 {
                    Ok(Transport::QuicV6)
                } else {
                    Err(ConnectError::NoSuitableQuicConnector)
                },
            },
        },
{
    match addr {
        PeerAddr::Tcp(_) => Ok(Transport::Tcp),
        PeerAddr::Quic(a) => match a.ip {
            IpAddr::V4(_) => if has_quic_v4 {
                Ok(Transport::QuicV4)
            } else {
                Err(ConnectError::NoSuitableQuicConnector)
            },
            IpAddr::V6(_) => if has_quic_v6 {
                Ok(Transport::QuicV6)
            } else {
                Err(ConnectError::NoSuitableQuicConnector)
            },
        },
    }
}

/// Whether hole punching applies to `addr`: only to QUIC peers at global addresses.
pub fn wants_hole_punching(addr: &PeerAddr) -> (r: bool)
    ensures
        r == (*addr is Quic && spec_is_global(addr.spec_socket_addr().ip)),
{
    addr.is_quic() && is_global(&addr.socket_addr().ip)
}

/// `s` without the part from its last `:` on, or all of `s` when it has no `:`.
pub fn strip_port(s: &str) -> (r: &str)
    ensures
        (forall|i: int| 0 <= i < s@.len() ==> s@[i] != ':') ==> r@ == s@,
        (exists|i: int| 0 <= i < s@.len() && s@[i] == ':') ==> exists|k: int|
            0 <= k < s@.len() && s@[k] == ':' && (forall|j: int| k < j < s@.len() ==> s@[j]
                != ':') && r@ == s@.subrange(0, k),
{
    let n = s.unicode_len();
    let mut i: usize = n;
    while i > 0
        invariant
            i <= n,
            n == s@.len(),
            forall|j: int| i <= j < n ==> s@[j] != ':',
        decreases i,
    {
        if s.get_char(i - 1) == ':' {
            return s.substring_char(0, i - 1);
        }
        i = i - 1;
    }
    s
}

} // verus!
