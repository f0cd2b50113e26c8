use vstd::prelude::*;
use crate::checksum::{
    pnet_tcp_ipv4_checksum, pnet_udp_ipv4_checksum, tcp_ipv4_checksum, udp_ipv4_checksum,
};

verus! {

/// The transport protocols whose packets are relayed with a fresh checksum.
#[derive(Clone, Copy, Debug, PartialEq, Eq, Structural)]
pub enum Transport {
    Udp,
    Tcp,
}

impl Transport {
    /// The fewest bytes a header of the transport has.
    pub open spec fn min_len(self) -> nat {
        match self {
            Transport::Udp => 8,
            Transport::Tcp => 20,
        }
    }

    /// Where the transport header keeps its checksum.
    pub open spec fn checksum_offset(self) -> int {
        match self {
            Transport::Udp => 6,
            Transport::Tcp => 16,
        }
    }

    /// The checksum that pnet computes for a segment of the transport.
    pub open spec fn spec_checksum(self, segment: Seq<u8>, source: Seq<u8>, destination: Seq<u8>) -> u16 {
        match self {
            Transport::Udp => pnet_udp_ipv4_checksum(segment, source, destination),
            Transport::Tcp => pnet_tcp_ipv4_checksum(segment, source, destination),
        }
    }
}

/// The transport that an IPv4 protocol number names, if it is one that is relayed.
pub open spec fn transport_of(protocol: u8) -> Option<Transport> {
    if protocol == 17 {
        Some(Transport::Udp)
    } else if protocol == 6 {
        Some(Transport::Tcp)
    } else {
        None
    }
}

pub fn transport_for(protocol: u8) -> (kind: Option<Transport>)
    ensures
        kind == transport_of(protocol),
{
    if protocol == 17 {
        Some(Transport::Udp)
    } else if protocol == 6 {
        Some(Transport::Tcp)
    } else {
        None
    }
}

/// The checksum of a transport segment inside an IPv4 packet from `source` to `destination`.
pub fn transport_checksum(kind: Transport, segment: &[u8], source: [u8; 4], destination: [u8; 4]) -> (sum: u16)
    requires
        kind.min_len() <= segment@.len() <= 65535,
    ensures
        sum == kind.spec_checksum(segment@, source@, destination@),
{
    match kind {
        Transport::Udp => udp_ipv4_checksum(segment, source, destination),
        Transport::Tcp => tcp_ipv4_checksum(segment, source, destination),
    }
}

/// The big-endian 16-bit number at `at`.
pub open spec fn be16_at(bytes: Seq<u8>, at: int) -> u16 {
    (bytes[at] as int * 256 + bytes[at + 1] as int) as u16
}

/// The two big-endian bytes of `value`.
pub open spec fn be16_bytes(value: u16) -> Seq<u8> {
    seq![(value / 256) as u8, (value % 256) as u8]
}

/// `bytes` with `value` written big-endian at `at`.
pub open spec fn with_be16(bytes: Seq<u8>, at: int, value: u16) -> Seq<u8> {
    bytes.update(at, (value / 256) as u8).update(at + 1, (value % 256) as u8)
}

/// `bytes` with `part` written over it from `at` on.
pub open spec fn splice(bytes: Seq<u8>, at: int, part: Seq<u8>) -> Seq<u8> {
    bytes.take(at) + part + bytes.skip(at + part.len())
}

/// The header length that an IPv4 packet states, in bytes.
pub open spec fn ipv4_header_length(ip: Seq<u8>) -> int {
    4 * (ip[0] % 16)
}

/// The total length that an IPv4 packet states, in bytes.
pub open spec fn ipv4_total_length(ip: Seq<u8>) -> int {
    be16_at(ip, 2) as int
}

/// Where the payload of an IPv4 packet starts: after the fixed header and
/// the options that the header length announces.
pub open spec fn ipv4_payload_start(ip: Seq<u8>) -> int {
    if ipv4_header_length(ip) > 20 {
        ipv4_header_length(ip)
    } else {
        20
    }
}

/// Where the payload of an IPv4 packet ends: as long as the total length
/// announces, cut at the end of the bytes at hand.
pub open spec fn ipv4_payload_end(ip: Seq<u8>) -> int {
    let stated = if ipv4_total_length(ip) > ipv4_header_length(ip) {
        ipv4_total_length(ip) - ipv4_header_length(ip)
    } else {
        0
    };
    if ipv4_payload_start(ip) + stated < ip.len() {
        ipv4_payload_start(ip) + stated
    } else {
        ip.len() as int
    }
}

/// The payload of an IPv4 packet.
pub open spec fn ipv4_payload(ip: Seq<u8>) -> Seq<u8> {
    if ip.len() <= ipv4_payload_start(ip) {
        Seq::empty()
    } else {
        ip.subrange(ipv4_payload_start(ip), ipv4_payload_end(ip))
    }
}

pub open spec fn ipv4_protocol(ip: Seq<u8>) -> u8 {
    ip[9]
}

pub open spec fn ipv4_source(ip: Seq<u8>) -> Seq<u8> {
    ip.subrange(12, 16)
}

pub open spec fn ipv4_destination(ip: Seq<u8>) -> Seq<u8> {
    ip.subrange(16, 20)
}

pub fn read_be16(bytes: &[u8], at: usize) -> (value: u16)
    requires
        at + 2 <= bytes@.len(),
    ensures
        value == be16_at(bytes@, at as int),
{
    (bytes[at] as u16) * 256 + (bytes[at + 1] as u16)
}

pub fn write_be16(bytes: &mut Vec<u8>, at: usize, value: u16)
    requires
        at + 2 <= old(bytes)@.len(),
    ensures
        final(bytes)@ == with_be16(old(bytes)@, at as int, value),
{
    let length = bytes.len();
    assert(at + 1 < length);
    bytes.set(at, (value / 256) as u8);
    bytes.set(at + 1, (value % 256) as u8);
}

pub fn write_bytes(bytes: &mut Vec<u8>, at: usize, part: &[u8])
    requires
        at + part@.len() <= old(bytes)@.len(),
    ensures
        final(bytes)@ == splice(old(bytes)@, at as int, part@),
{
    let n = part.len();
    let total = bytes.len();
    let mut i: usize = 0;
    while i < n
        invariant
            n == part@.len(),
            total == bytes@.len(),
            i <= n,
            at + n <= old(bytes)@.len(),
            bytes@.len() == old(bytes)@.len(),
            forall|j: int| 0 <= j < at ==> bytes@[j] == old(bytes)@[j],
            forall|j: int| 0 <= j < i ==> bytes@[at + j] == part@[j],
            forall|j: int| at + i <= j < bytes@.len() ==> bytes@[j] == old(bytes)@[j],
        decreases n - i,
    {
        bytes.set(at + i, part[i]);
        i = i + 1;
    }
    assert(bytes@ =~= splice(old(bytes)@, at as int, part@));
}

/// The four bytes at `at`, as an address.
pub fn address_at(bytes: &[u8], at: usize) -> (address: [u8; 4])
    requires
        at + 4 <= bytes@.len(),
    ensures
        address@ == bytes@.subrange(at as int, at + 4),
{
    let address = [bytes[at], bytes[at + 1], bytes[at + 2], bytes[at + 3]];
    assert(address@ =~= bytes@.subrange(at as int, at + 4));
    address
}

/// Where the payload of an IPv4 packet starts and ends.
pub fn ipv4_payload_bounds(ip: &[u8]) -> (bounds: (usize, usize))
    requires
        ip@.len() >= 20,
    ensures
        bounds.0 == ipv4_payload_start(ip@),
        ip@.len() > ipv4_payload_start(ip@) ==> bounds.1 == ipv4_payload_end(ip@),
        ip@.len() <= ipv4_payload_start(ip@) ==> bounds.1 == bounds.0,
        bounds.0 <= bounds.1,
        ip@.len() > ipv4_payload_start(ip@) ==> bounds.1 <= ip@.len(),
{
    let header_length: usize = 4 * ((ip[0] % 16) as usize);
    let start: usize = if header_length > 20 { header_length } else { 20 };
    if ip.len() <= start {
        return (start, start);
    }
    let total = read_be16(ip, 2) as usize;
    let stated: usize = if total > header_length { total - header_length } else { 0 };
    let end: usize = if start + stated < ip.len() { start + stated } else { ip.len() };
    (start, end)
}

} // verus!
