use vstd::prelude::*;

verus! {

/// What `pnet::packet::ipv4::checksum` gives for an IPv4 packet with these bytes:
/// the Internet checksum of its header, the checksum field read as zero.
pub uninterp spec fn pnet_ipv4_checksum(packet: Seq<u8>) -> u16;

/// What `pnet::packet::udp::ipv4_checksum` gives for a UDP datagram with these
/// bytes, sent from `source` to `destination`.
pub uninterp spec fn pnet_udp_ipv4_checksum(
    datagram: Seq<u8>,
    source: Seq<u8>,
    destination: Seq<u8>,
) -> u16;

/// What `pnet::packet::tcp::ipv4_checksum` gives for a TCP segment with these
/// bytes, sent from `source` to `destination`.
pub uninterp spec fn pnet_tcp_ipv4_checksum(
    segment: Seq<u8>,
    source: Seq<u8>,
    destination: Seq<u8>,
) -> u16;

/// Calls `pnet::packet::ipv4::checksum` on the bytes of an IPv4 packet.
/// Claimed: the result is a function of the bytes alone (pnet reads the header
/// length field, clamps it to the packet, and sums that many bytes), and the call
/// does not panic once the packet has the 20 bytes `Ipv4Packet::new` asks for.
#[verifier::external_body]
pub(crate) fn ipv4_header_checksum(packet: &[u8]) -> (sum: u16)
    requires
        packet@.len() >= 20,
    ensures
        sum == pnet_ipv4_checksum(packet@),
{
    pnet::packet::ipv4::checksum(&pnet::packet::ipv4::Ipv4Packet::new(packet).unwrap())
}

/// Calls `pnet::packet::udp::ipv4_checksum` on the bytes of a UDP datagram and
/// the two addresses of its pseudo header. Claimed: the result is a function of
/// those arguments alone, and the call does not panic once the datagram has the
/// 8 bytes `UdpPacket::new` asks for and is short enough that pnet's 32-bit sum
/// cannot overflow.
#[verifier::external_body]
pub(crate) fn udp_ipv4_checksum(datagram: &[u8], source: [u8; 4], destination: [u8; 4]) -> (sum: u16)
    requires
        8 <= datagram@.len() <= 65535,
    ensures
        sum == pnet_udp_ipv4_checksum(datagram@, source@, destination@),
{
    pnet::packet::udp::ipv4_checksum(
        &pnet::packet::udp::UdpPacket::new(datagram).unwrap(),
        &pnet::util::core_net::Ipv4Addr::from(source),
        &pnet::util::core_net::Ipv4Addr::from(destination),
    )
}

/// Calls `pnet::packet::tcp::ipv4_checksum` on the bytes of a TCP segment and
/// the two addresses of its pseudo header. Claimed: the result is a function of
/// those arguments alone, and the call does not panic once the segment has the
/// 20 bytes `TcpPacket::new` asks for and is short enough that pnet's 32-bit sum
/// cannot overflow.
#[verifier::external_body]
pub(crate) fn tcp_ipv4_checksum(segment: &[u8], source: [u8; 4], destination: [u8; 4]) -> (sum: u16)
    requires
        20 <= segment@.len() <= 65535,
    ensures
        sum == pnet_tcp_ipv4_checksum(segment@, source@, destination@),
{
    pnet::packet::tcp::ipv4_checksum(
        &pnet::packet::tcp::TcpPacket::new(segment).unwrap(),
        &pnet::util::core_net::Ipv4Addr::from(source),
        &pnet::util::core_net::Ipv4Addr::from(destination),
    )
}

} // verus!
