use vstd::prelude::*;
use vstd::slice::slice_to_vec;
use crate::buffer_util::{Buffer, BUFFER_CAPACITY};
use crate::checksum::{ipv4_header_checksum, pnet_ipv4_checksum};
use crate::encryption::{lemma_xor_involution, xor_bytes, xor_encode};
use crate::protocol::{frame_header_of, FrameHeader};
use crate::packet::{
    address_at, be16_at, be16_bytes, ipv4_destination, ipv4_payload, ipv4_payload_bounds, ipv4_payload_end,
    ipv4_payload_start, ipv4_protocol, ipv4_source, read_be16, splice, transport_checksum,
    transport_for, transport_of, with_be16, write_be16, write_bytes, Transport,
};

verus! {

/// The address of this server on the internet.
pub const SERVER_IP: [u8; 4] = [146u8, 70u8, 145u8, 152u8];

/// The address that the client's packets carry on its side of the tunnel.
pub const CLIENT_IP: [u8; 4] = [192u8, 168u8, 3u8, 7u8];

/// The port the tunnel itself listens on; traffic to it is never relayed.
pub const TUNNEL_PORT: u16 = 80;

/// The SSH port; traffic to it is never relayed.
pub const SSH_PORT: u16 = 22;

/// The largest IPv4 packet that is relayed to the client.
pub const MAX_RELAYED_PACKET: usize = 3000;

/// The key that packets sent to the client are xored with.
pub const CLIENT_KEY: u8 = 7;

/// The ethertype of IPv4.
pub const ETHERTYPE_IPV4: u16 = 0x0800;

/// Sets every port of the table to closed.
pub fn clear_ports(user_ports: &mut [bool])
    ensures
        final(user_ports)@.len() == old(user_ports)@.len(),
        forall|i: int| 0 <= i < final(user_ports)@.len() ==> !#[trigger] final(user_ports)@[i],
{
    let n = user_ports.len();
    let mut i: usize = 0;
    while i < n
        invariant
            n == user_ports@.len(),
            n == old(user_ports)@.len(),
            i <= n,
            forall|j: int| 0 <= j < i ==> !#[trigger] user_ports@[j],
        decreases n - i,
    {
        user_ports[i] = false;
        i = i + 1;
    }
}

/// The ports that the client has sent traffic from, one flag per port.
pub struct PortTable {
    ports: Vec<bool>,
}

impl PortTable {
    /// The table holds one flag for each port.
    pub closed spec fn wf(&self) -> bool {
        self.ports@.len() == 65536
    }
}

impl View for PortTable {
    type V = Set<u16>;

    /// The open ports.
    closed spec fn view(&self) -> Set<u16> {
        Set::new(|port: u16| self.ports@[port as int])
    }
}

impl PortTable {
    /// A table with every port closed.
    pub fn new() -> (table: PortTable)
        ensures
            table.wf(),
            table@ == Set::<u16>::empty(),
    {
        let mut ports: Vec<bool> = Vec::with_capacity(65536);
        let mut i: usize = 0;
        while i < 65536
            invariant
                i <= 65536,
                ports@.len() == i,
                forall|j: int| 0 <= j < i ==> !#[trigger] ports@[j],
            decreases 65536 - i,
        {
            ports.push(false);
            i = i + 1;
        }
        let table = PortTable { ports };
        assert(table@ =~= Set::<u16>::empty());
        table
    }

    pub fn is_open(&self, port: u16) -> (open: bool)
        requires
            self.wf(),
        ensures
            open == self@.contains(port),
    {
        self.ports[port as usize]
    }

    /// Marks `port` as one the client uses.
    pub fn open(&mut self, port: u16)
        requires
            old(self).wf(),
        ensures
            final(self).wf(),
            final(self)@ == old(self)@.insert(port),
    {
        self.ports.set(port as usize, true);
        assert(self@ =~= old(self)@.insert(port));
    }
}

/// What becomes of a packet that came in from the internet.
#[derive(Debug, PartialEq, Eq)]
pub enum Inbound<P> {
    /// Too short to hold an Ethernet and an IPv4 header.
    NotIpv4,
    /// Sent by this server itself.
    FromServer,
    /// Neither UDP nor TCP.
    OtherProtocol,
    /// Its transport header is cut short.
    TransportTooShort(Transport),
    /// Bound for the tunnel's own port or for SSH.
    ReservedPort,
    /// Bound for a port the client has not sent from.
    NotForUser,
    /// Larger than the client is sent.
    TooLarge,
    /// To be sent to the client: the IPv4 packet, readdressed to the client.
    Forward(P),
}

impl View for Inbound<Vec<u8>> {
    type V = Inbound<Seq<u8>>;

    open spec fn view(&self) -> Inbound<Seq<u8>> {
        match self {
            Inbound::NotIpv4 => Inbound::NotIpv4,
            Inbound::FromServer => Inbound::FromServer,
            Inbound::OtherProtocol => Inbound::OtherProtocol,
            Inbound::TransportTooShort(kind) => Inbound::TransportTooShort(*kind),
            Inbound::ReservedPort => Inbound::ReservedPort,
            Inbound::NotForUser => Inbound::NotForUser,
            Inbound::TooLarge => Inbound::TooLarge,
            Inbound::Forward(packet) => Inbound::Forward(packet@),
        }
    }
}

/// The IPv4 packet `ip` with the four address bytes at `at` replaced by
/// `address`, its header checksum recomputed, and, for UDP and TCP, the
/// transport checksum recomputed over the new addresses.
pub open spec fn readdressed(ip: Seq<u8>, at: int, address: Seq<u8>, kind: Option<Transport>) -> Seq<u8> {
    let moved = splice(ip, at, address);
    let summed = with_be16(moved, 10, pnet_ipv4_checksum(moved));
    match kind {
        None => summed,
        Some(kind) => {
            let segment = ipv4_payload(ip);
            let resummed = with_be16(
                segment,
                kind.checksum_offset(),
                kind.spec_checksum(segment, ipv4_source(summed), ipv4_destination(summed)),
            );
            splice(summed, ipv4_payload_start(summed), resummed)
        },
    }
}

/// What becomes of the Ethernet frame `frame` from the internet, given the
/// client's open ports.
pub open spec fn inbound_verdict(frame: Seq<u8>, open_ports: Set<u16>) -> Inbound<Seq<u8>> {
    let ip = frame.skip(14);
    if frame.len() < 14 || ip.len() < 20 {
        Inbound::NotIpv4
    } else if ipv4_source(ip) == SERVER_IP@ {
        Inbound::FromServer
    } else if let Some(kind) = transport_of(ipv4_protocol(ip)) {
        let segment = ipv4_payload(ip);
        let port = be16_at(segment, 2);
        if segment.len() < kind.min_len() {
            Inbound::TransportTooShort(kind)
        } else if port == TUNNEL_PORT || port == SSH_PORT {
            Inbound::ReservedPort
        } else if !open_ports.contains(port) {
            Inbound::NotForUser
        } else {
            let relayed = readdressed(ip, 16, CLIENT_IP@, Some(kind));
            if relayed.len() > MAX_RELAYED_PACKET {
                Inbound::TooLarge
            } else {
                Inbound::Forward(relayed)
            }
        }
    } else {
        Inbound::OtherProtocol
    }
}

/// Rewrites the IPv4 packet `ip`: the address at `at` becomes `address`, and the
/// header checksum and, for UDP and TCP, the transport checksum are recomputed.
fn readdress(ip: &mut Vec<u8>, at: usize, address: [u8; 4], kind: Option<Transport>)
    requires
        20 <= old(ip)@.len() <= BUFFER_CAPACITY,
        at == 12 || at == 16,
        kind matches Some(k) ==> ipv4_payload(old(ip)@).len() >= k.min_len(),
    ensures
        final(ip)@ == readdressed(old(ip)@, at as int, address@, kind),
{
    let (start, end) = ipv4_payload_bounds(ip.as_slice());
    let ghost original = ip@;
    write_bytes(ip, at, &address);
    let sum = ipv4_header_checksum(ip.as_slice());
    write_be16(ip, 10, sum);
    match kind {
        None => {},
        Some(kind) => {
            assert(ip@.len() > start);
            let mut segment = slice_to_vec(&ip.as_slice()[start..end]);
            assert(segment@ =~= ipv4_payload(original));
            let source = address_at(ip.as_slice(), 12);
            let destination = address_at(ip.as_slice(), 16);
            let offset: usize = match kind {
                Transport::Udp => 6,
                Transport::Tcp => 16,
            };
            let resum = transport_checksum(kind, segment.as_slice(), source, destination);
            write_be16(&mut segment, offset, resum);
            write_bytes(ip, start, segment.as_slice());
        },
    }
}

/// Decides what to do with an Ethernet frame captured from the internet: it is
/// relayed to the client, readdressed to the client, only when it carries UDP
/// or TCP for a port the client has sent from, other than the tunnel's own
/// port and SSH, and is not larger than the client is sent.
pub fn process_from_internet(packet: &Buffer, user_ports: &PortTable) -> (verdict: Inbound<Vec<u8>>)
    requires
        packet.wf(),
        user_ports.wf(),
    ensures
        verdict@ == inbound_verdict(packet@, user_ports@),
{
    let frame: &[u8] = &packet.buffer.as_slice()[0..packet.current_size];
    assert(frame@ == packet@);
    if frame.len() < 14 {
        return Inbound::NotIpv4;
    }
    let mut ip: Vec<u8> = slice_to_vec(&frame[14..frame.len()]);
    assert(ip@ =~= packet@.skip(14));
    if ip.len() < 20 {
        return Inbound::NotIpv4;
    }
    if ip[12] == SERVER_IP[0] && ip[13] == SERVER_IP[1] && ip[14] == SERVER_IP[2] && ip[15]
        == SERVER_IP[3] {
        assert(ipv4_source(ip@) =~= SERVER_IP@);
        return Inbound::FromServer;
    }
    let kind = match transport_for(ip[9]) {
        Some(kind) => kind,
        None => {
            return Inbound::OtherProtocol;
        },
    };
    let (start, end) = ipv4_payload_bounds(ip.as_slice());
    let min_len: usize = match kind {
        Transport::Udp => 8,
        Transport::Tcp => 20,
    };
    if end - start < min_len {
        return Inbound::TransportTooShort(kind);
    }
    let port = read_be16(&ip.as_slice()[start..end], 2);
    if port == TUNNEL_PORT || port == SSH_PORT {
        return Inbound::ReservedPort;
    }
    if !user_ports.is_open(port) {
        return Inbound::NotForUser;
    }
    readdress(&mut ip, 16, CLIENT_IP, Some(kind));
    if ip.len() > MAX_RELAYED_PACKET {
        return Inbound::TooLarge;
    }
    Inbound::Forward(ip)
}

/// What becomes of a packet that came from the client.
#[derive(Debug, PartialEq, Eq)]
pub enum Outbound<P> {
    /// Too short to hold an IPv4 header.
    NotIpv4,
    /// Its transport header is cut short.
    TransportTooShort(Transport),
    /// Too large to fit an Ethernet frame in the server's buffer.
    FrameTooLarge,
    /// To be sent to the internet: this Ethernet frame.
    Send(P),
}

impl View for Outbound<Vec<u8>> {
    type V = Outbound<Seq<u8>>;

    open spec fn view(&self) -> Outbound<Seq<u8>> {
        match self {
            Outbound::NotIpv4 => Outbound::NotIpv4,
            Outbound::TransportTooShort(kind) => Outbound::TransportTooShort(*kind),
            Outbound::FrameTooLarge => Outbound::FrameTooLarge,
            Outbound::Send(frame) => Outbound::Send(frame@),
        }
    }
}

/// An Ethernet frame with these addresses, ethertype and payload.
pub open spec fn ethernet_frame(
    destination: Seq<u8>,
    source: Seq<u8>,
    ethertype: u16,
    payload: Seq<u8>,
) -> Seq<u8> {
    destination + source + be16_bytes(ethertype) + payload
}

/// Builds an Ethernet frame.
pub fn build_ethernet_frame(
    destination: [u8; 6],
    source: [u8; 6],
    ethertype: u16,
    payload: &[u8],
) -> (frame: Vec<u8>)
    ensures
        frame@ == ethernet_frame(destination@, source@, ethertype, payload@),
{
    let mut frame: Vec<u8> = Vec::new();
    let mut i: usize = 0;
    while i < 6
        invariant
            i <= 6,
            frame@ == destination@.take(i as int),
        decreases 6 - i,
    {
        frame.push(destination[i]);
        i = i + 1;
        assert(frame@ =~= destination@.take(i as int));
    }
    i = 0;
    while i < 6
        invariant
            i <= 6,
            frame@ == destination@ + source@.take(i as int),
        decreases 6 - i,
    {
        frame.push(source[i]);
        i = i + 1;
        assert(frame@ =~= destination@ + source@.take(i as int));
    }
    frame.push((ethertype / 256) as u8);
    frame.push((ethertype % 256) as u8);
    let n = payload.len();
    i = 0;
    while i < n
        invariant
            n == payload@.len(),
            i <= n,
            frame@ == destination@ + source@ + be16_bytes(ethertype) + payload@.take(i as int),
        decreases n - i,
    {
        frame.push(payload[i]);
        i = i + 1;
        assert(frame@ =~= destination@ + source@ + be16_bytes(ethertype) + payload@.take(
            i as int,
        ));
    }
    assert(payload@.take(n as int) =~= payload@);
    frame
}

/// The transport of a packet from the client whose header is long enough to be
/// relayed, if it carries UDP or TCP.
pub open spec fn relayed_transport(packet: Seq<u8>) -> Option<Transport> {
    match transport_of(ipv4_protocol(packet)) {
        Some(kind) => if ipv4_payload(packet).len() >= kind.min_len() {
            Some(kind)
        } else {
            None
        },
        None => None,
    }
}

/// What becomes of the IPv4 packet `packet` from the client.
pub open spec fn outbound_verdict(
    packet: Seq<u8>,
    source_mac: Seq<u8>,
    destination_mac: Seq<u8>,
) -> Outbound<Seq<u8>> {
    if packet.len() < 20 {
        Outbound::NotIpv4
    } else {
        match transport_of(ipv4_protocol(packet)) {
            Some(kind) if ipv4_payload(packet).len() < kind.min_len() => Outbound::TransportTooShort(
                kind,
            ),
            kind => {
                let relayed = readdressed(packet, 12, SERVER_IP@, kind);
                if 14 + relayed.len() > BUFFER_CAPACITY {
                    Outbound::FrameTooLarge
                } else {
                    Outbound::Send(
                        ethernet_frame(destination_mac, source_mac, ETHERTYPE_IPV4, relayed),
                    )
                }
            },
        }
    }
}

/// The port that a packet from the client opens: the source port of its UDP or
/// TCP header.
pub open spec fn opened_port(packet: Seq<u8>) -> Option<u16> {
    if packet.len() < 20 {
        None
    } else {
        match relayed_transport(packet) {
            Some(kind) => Some(be16_at(ipv4_payload(packet), 0)),
            None => None,
        }
    }
}

/// The open ports after the client has sent `packet`.
pub open spec fn ports_after_client(open_ports: Set<u16>, packet: Seq<u8>) -> Set<u16> {
    match opened_port(packet) {
        Some(port) => open_ports.insert(port),
        None => open_ports,
    }
}

/// Decides what to do with an IPv4 packet from the client: it is sent to the
/// internet from this server's address, framed for the gateway, and the UDP or
/// TCP port it was sent from is opened for replies.
pub fn process_from_client(
    packet: &Buffer,
    user_ports: &mut PortTable,
    source_mac: [u8; 6],
    destination_mac: [u8; 6],
) -> (verdict: Outbound<Vec<u8>>)
    requires
        packet.wf(),
        old(user_ports).wf(),
    ensures
        final(user_ports).wf(),
        verdict@ == outbound_verdict(packet@, source_mac@, destination_mac@),
        final(user_ports)@ == ports_after_client(old(user_ports)@, packet@),
{
    let bytes: &[u8] = &packet.buffer.as_slice()[0..packet.current_size];
    assert(bytes@ == packet@);
    if bytes.len() < 20 {
        return Outbound::NotIpv4;
    }
    let mut ip: Vec<u8> = slice_to_vec(bytes);
    let kind = transport_for(ip[9]);
    match kind {
        Some(k) => {
            let (start, end) = ipv4_payload_bounds(ip.as_slice());
            let min_len: usize = match k {
                Transport::Udp => 8,
                Transport::Tcp => 20,
            };
            if end - start < min_len {
                return Outbound::TransportTooShort(k);
            }
            let port = read_be16(&ip.as_slice()[start..end], 0);
            user_ports.open(port);
        },
        None => {},
    }
    readdress(&mut ip, 12, SERVER_IP, kind);
    if ip.len() > BUFFER_CAPACITY - 14 {
        return Outbound::FrameTooLarge;
    }
    Outbound::Send(build_ethernet_frame(destination_mac, source_mac, ETHERTYPE_IPV4, ip.as_slice()))
}

/// Frames a packet for the client: the packet is xored with the client key in
/// place, and `out` receives its length, big-endian in two bytes, followed by
/// the encoded packet.
pub fn encode_for_client(packet: &mut [u8], out: &mut Buffer)
    requires
        old(packet)@.len() + 2 <= BUFFER_CAPACITY,
    ensures
        final(packet)@ == xor_bytes(old(packet)@, CLIENT_KEY),
        final(out).wf(),
        final(out)@ == be16_bytes(old(packet)@.len() as u16) + xor_bytes(old(packet)@, CLIENT_KEY),
        final(out).current_size == old(packet)@.len() + 2,
        final(out).buffer@.skip(old(packet)@.len() + 2 as int) == old(out).buffer@.skip(
            old(packet)@.len() + 2 as int,
        ),
{
    xor_encode(packet, CLIENT_KEY);
    let size: u16 = packet.len() as u16;
    let size_bytes: [u8; 2] = [(size / 256) as u8, (size % 256) as u8];
    assert(size_bytes@ =~= be16_bytes(size));
    out.put(&size_bytes);
    out.append(packet);
}

/// Rewriting an address and the checksums of a packet leaves its length and its
/// first twenty bytes other than the address and the header checksum as they were.
proof fn lemma_readdressed_shape(ip: Seq<u8>, at: int, address: Seq<u8>, kind: Option<Transport>)
    requires
        ip.len() >= 20,
        at == 12 || at == 16,
        address.len() == 4,
        kind matches Some(k) ==> ipv4_payload(ip).len() >= k.min_len(),
    ensures
        readdressed(ip, at, address, kind).len() == ip.len(),
        readdressed(ip, at, address, kind).subrange(at, at + 4) == address,
        forall|i: int|
            0 <= i < 20 && !(at <= i < at + 4) && i != 10 && i != 11 ==> #[trigger] readdressed(
                ip,
                at,
                address,
                kind,
            )[i] == ip[i],
{
    let moved = splice(ip, at, address);
    let summed = with_be16(moved, 10, pnet_ipv4_checksum(moved));
    assert(summed.len() == ip.len());
    assert(summed.subrange(at, at + 4) =~= address);
    match kind {
        None => {},
        Some(k) => {
            let segment = ipv4_payload(ip);
            let resummed = with_be16(
                segment,
                k.checksum_offset(),
                k.spec_checksum(segment, ipv4_source(summed), ipv4_destination(summed)),
            );
            let start = ipv4_payload_start(summed);
            assert(start >= 20);
            assert(ip.len() > ipv4_payload_start(ip));
            let result = splice(summed, start, resummed);
            assert(result.len() == ip.len());
            assert forall|i: int| 0 <= i < 20 implies #[trigger] result[i] == summed[i] by {}
            assert(result.subrange(at, at + 4) =~= address);
        },
    }
}

/// How an address rewrite treats the transport: the segment that the IPv4 total
/// length bounds is kept, but for its checksum, which becomes pnet's checksum of
/// that segment under the new addresses; the bytes after it, such as Ethernet
/// padding, are kept and enter no checksum; the header checksum is pnet's
/// checksum of the readdressed packet.
proof fn lemma_readdressed_transport(ip: Seq<u8>, at: int, address: Seq<u8>, kind: Transport)
    requires
        ip.len() >= 20,
        at == 12 || at == 16,
        address.len() == 4,
        ipv4_payload(ip).len() >= kind.min_len(),
    ensures
        ({
            let out = readdressed(ip, at, address, Some(kind));
            let start = ipv4_payload_start(ip);
            let end = ipv4_payload_end(ip);
            let segment = ipv4_payload(ip);
            let source = if at == 12 { address } else { ipv4_source(ip) };
            let destination = if at == 16 { address } else { ipv4_destination(ip) };
            let off = kind.checksum_offset();
            &&& out.len() == ip.len()
            &&& be16_at(out, 10) == pnet_ipv4_checksum(splice(ip, at, address))
            &&& be16_at(out, start + off) == kind.spec_checksum(segment, source, destination)
            &&& forall|i: int|
                start <= i < end && i != start + off && i != start + off + 1 ==> #[trigger] out[i]
                    == ip[i]
            &&& out.skip(end) == ip.skip(end)
        }),
{
    let moved = splice(ip, at, address);
    let summed = with_be16(moved, 10, pnet_ipv4_checksum(moved));
    let segment = ipv4_payload(ip);
    let start = ipv4_payload_start(ip);
    let end = ipv4_payload_end(ip);
    assert(summed[0] == ip[0]);
    assert(summed[2] == ip[2] && summed[3] == ip[3]);
    assert(ipv4_payload_start(summed) == start);
    assert(ip.len() > start);
    assert(segment.len() == end - start);
    let source = if at == 12 { address } else { ipv4_source(ip) };
    let destination = if at == 16 { address } else { ipv4_destination(ip) };
    assert(ipv4_source(summed) =~= source);
    assert(ipv4_destination(summed) =~= destination);
    let off = kind.checksum_offset();
    let sum = kind.spec_checksum(segment, source, destination);
    let resummed = with_be16(segment, off, sum);
    let out = splice(summed, start, resummed);
    assert(out == readdressed(ip, at, address, Some(kind)));
    assert(out[start + off] == resummed[off]);
    assert(out[start + off + 1] == resummed[off + 1]);
    assert(out[10] == summed[10] && out[11] == summed[11]);
    assert forall|i: int|
        start <= i < end && i != start + off && i != start + off + 1 implies #[trigger] out[i]
            == ip[i] by {
        assert(out[i] == resummed[i - start]);
        assert(resummed[i - start] == segment[i - start]);
    }
    assert(out.skip(end) =~= ip.skip(end));
}

/// A packet relayed from the internet goes to the client: it carries the
/// client's address as its destination, its source and length are those it
/// came with, and it is bound for a port the client has sent from, neither
/// the tunnel's own port nor SSH.
pub proof fn lemma_relayed_to_client(frame: Seq<u8>, open_ports: Set<u16>)
    requires
        inbound_verdict(frame, open_ports) is Forward,
    ensures
        ({
            let relayed = inbound_verdict(frame, open_ports)->Forward_0;
            let ip = frame.skip(14);
            let port = be16_at(ipv4_payload(ip), 2);
            &&& relayed.len() == frame.len() - 14
            &&& relayed.len() <= MAX_RELAYED_PACKET
            &&& ipv4_destination(relayed) == CLIENT_IP@
            &&& ipv4_source(relayed) == ipv4_source(ip)
            &&& open_ports.contains(port)
            &&& port != TUNNEL_PORT && port != SSH_PORT
        }),
{
    let ip = frame.skip(14);
    let kind = transport_of(ipv4_protocol(ip));
    lemma_readdressed_shape(ip, 16, CLIENT_IP@, kind);
    let relayed = readdressed(ip, 16, CLIENT_IP@, kind);
    assert(ipv4_source(relayed) =~= ipv4_source(ip));
}

/// A packet from the client leaves from the server: the frame carries the
/// packet with the server's address as its source, its destination unchanged,
/// between the gateway's and the server's hardware addresses.
pub proof fn lemma_sent_from_server(packet: Seq<u8>, source_mac: Seq<u8>, destination_mac: Seq<u8>)
    requires
        source_mac.len() == 6,
        destination_mac.len() == 6,
        outbound_verdict(packet, source_mac, destination_mac) is Send,
    ensures
        ({
            let frame = outbound_verdict(packet, source_mac, destination_mac)->Send_0;
            let ip = frame.skip(14);
            &&& frame.len() == 14 + packet.len()
            &&& frame.take(6) == destination_mac
            &&& frame.subrange(6, 12) == source_mac
            &&& be16_at(frame, 12) == ETHERTYPE_IPV4
            &&& ipv4_source(ip) == SERVER_IP@
            &&& ipv4_destination(ip) == ipv4_destination(packet)
        }),
{
    let kind = transport_of(ipv4_protocol(packet));
    lemma_readdressed_shape(packet, 12, SERVER_IP@, kind);
    let relayed = readdressed(packet, 12, SERVER_IP@, kind);
    let frame = ethernet_frame(destination_mac, source_mac, ETHERTYPE_IPV4, relayed);
    assert(frame.skip(14) =~= relayed);
    assert(frame.take(6) =~= destination_mac);
    assert(frame.subrange(6, 12) =~= source_mac);
    assert(ipv4_destination(relayed) =~= ipv4_destination(packet));
}

/// Every UDP or TCP packet from the internet that is not the server's own, has a
/// full transport header, is bound for an open port other than the tunnel's own
/// and SSH, and is small enough, is relayed: which port it comes from, and
/// anything else in it, plays no part.
pub proof fn lemma_open_port_is_relayed(frame: Seq<u8>, open_ports: Set<u16>)
    requires
        frame.len() >= 14 + 20,
        frame.len() - 14 <= MAX_RELAYED_PACKET,
        frame.subrange(26, 30) != SERVER_IP@,
        frame[23] == 6 || frame[23] == 17,
        ipv4_payload(frame.skip(14)).len() >= if frame[23] == 6 { 20nat } else { 8nat },
        open_ports.contains(be16_at(ipv4_payload(frame.skip(14)), 2)),
        be16_at(ipv4_payload(frame.skip(14)), 2) != 80,
        be16_at(ipv4_payload(frame.skip(14)), 2) != 22,
    ensures
        inbound_verdict(frame, open_ports) is Forward,
{
    let ip = frame.skip(14);
    assert(ipv4_source(ip) =~= frame.subrange(26, 30));
    assert(ipv4_protocol(ip) == frame[23]);
    let kind = transport_of(ipv4_protocol(ip));
    lemma_readdressed_shape(ip, 16, CLIENT_IP@, kind);
}

/// The checksums of a relayed packet: its transport checksum is pnet's checksum
/// of the segment that the IPv4 total length bounds, from its source to the
/// client; bytes past that segment, such as Ethernet padding, are passed on
/// unchanged and counted in no checksum; the rest of the segment is unchanged;
/// and its header checksum is pnet's checksum of the packet readdressed to the
/// client.
pub proof fn lemma_relayed_checksums(frame: Seq<u8>, open_ports: Set<u16>)
    requires
        inbound_verdict(frame, open_ports) is Forward,
    ensures
        ({
            let relayed = inbound_verdict(frame, open_ports)->Forward_0;
            let ip = frame.skip(14);
            let kind = transport_of(ipv4_protocol(ip))->0;
            let start = ipv4_payload_start(ip);
            let end = ipv4_payload_end(ip);
            let off = kind.checksum_offset();
            &&& transport_of(ipv4_protocol(ip)) is Some
            &&& be16_at(relayed, start + off) == kind.spec_checksum(
                ipv4_payload(ip),
                ipv4_source(ip),
                CLIENT_IP@,
            )
            &&& be16_at(relayed, 10) == pnet_ipv4_checksum(splice(ip, 16, CLIENT_IP@))
            &&& forall|i: int|
                start <= i < end && i != start + off && i != start + off + 1 ==> #[trigger] relayed[i]
                    == ip[i]
            &&& relayed.skip(end) == ip.skip(end)
        }),
{
    let ip = frame.skip(14);
    let kind = transport_of(ipv4_protocol(ip))->0;
    lemma_readdressed_transport(ip, 16, CLIENT_IP@, kind);
}

/// Every UDP or TCP packet from the client with a full transport header opens
/// its source port, whatever else it carries (TCP flags included).
pub proof fn lemma_client_source_port_opened(packet: Seq<u8>, open_ports: Set<u16>)
    requires
        packet.len() >= 20,
        packet[9] == 6 || packet[9] == 17,
        ipv4_payload(packet).len() >= if packet[9] == 6 { 20nat } else { 8nat },
    ensures
        ports_after_client(open_ports, packet) == open_ports.insert(
            be16_at(ipv4_payload(packet), 0),
        ),
        ports_after_client(open_ports, packet).contains(be16_at(ipv4_payload(packet), 0)),
{
}

/// Replies reach the client once it has sent from their port: after a UDP or
/// TCP packet from the client has opened its source port, a packet from the
/// internet to that port is not turned away as not being for the user.
pub proof fn lemma_reply_after_request(
    request: Seq<u8>,
    open_ports: Set<u16>,
    reply_frame: Seq<u8>,
)
    requires
        opened_port(request) is Some,
        reply_frame.len() >= 14 + 20,
        transport_of(ipv4_protocol(reply_frame.skip(14))) is Some,
        ipv4_payload(reply_frame.skip(14)).len() >= 4,
        be16_at(ipv4_payload(reply_frame.skip(14)), 2) == opened_port(request)->0,
    ensures
        inbound_verdict(reply_frame, ports_after_client(open_ports, request)) != Inbound::<
            Seq<u8>,
        >::NotForUser,
{
}

/// Only packets from the client open ports: processing a packet from the
/// internet leaves the table as it is, and a packet from the client opens at
/// most the one port it was sent from.
pub proof fn lemma_ports_open_only_from_client(packet: Seq<u8>, open_ports: Set<u16>)
    ensures
        open_ports.subset_of(ports_after_client(open_ports, packet)),
        forall|port: u16|
            #[trigger] ports_after_client(open_ports, packet).contains(port) ==> open_ports.contains(
                port,
            ) || opened_port(packet) == Some(port),
{
}

/// The client can read back what it is sent: the two length bytes of a framed
/// packet announce its length, and xoring the rest with the client key again
/// gives the packet.
pub proof fn lemma_client_frame_roundtrip(packet: Seq<u8>)
    requires
        0 < packet.len(),
        packet.len() + 2 <= BUFFER_CAPACITY,
    ensures
        ({
            let framed = be16_bytes(packet.len() as u16) + xor_bytes(packet, CLIENT_KEY);
            &&& frame_header_of(framed.take(2)) == FrameHeader::Payload(packet.len() as usize)
            &&& xor_bytes(framed.skip(2), CLIENT_KEY) == packet
        }),
{
    let framed = be16_bytes(packet.len() as u16) + xor_bytes(packet, CLIENT_KEY);
    assert(framed.skip(2) =~= xor_bytes(packet, CLIENT_KEY));
    lemma_xor_involution(packet, CLIENT_KEY);
    let n = packet.len() as u16;
    assert(be16_at(framed.take(2), 0) == n);
}

} // verus!
