use vstd::prelude::*;
use crate::momid_vpn_server::{build_ethernet_frame, ethernet_frame, SERVER_IP};
use crate::packet::{be16_at, be16_bytes};

verus! {

/// The address of the gateway whose hardware address is asked for.
pub const GATEWAY_IP: [u8; 4] = [146u8, 70u8, 145u8, 129u8];

/// The ethertype of ARP.
pub const ETHERTYPE_ARP: u16 = 0x0806;

/// The Ethernet broadcast address.
pub const BROADCAST_MAC: [u8; 6] = [255u8, 255u8, 255u8, 255u8, 255u8, 255u8];

/// The ARP operation code of a request.
pub const ARP_REQUEST: u16 = 1;

/// The ARP operation code of a reply.
pub const ARP_REPLY: u16 = 2;

/// The body of an ARP request from `sender_mac` at the server's address for
/// the gateway's hardware address.
pub open spec fn arp_request_body(sender_mac: Seq<u8>) -> Seq<u8> {
    be16_bytes(1)  // hardware type: Ethernet
     + be16_bytes(0x0800)  // protocol type: IPv4
     + seq![6u8, 4u8]  // address lengths
     + be16_bytes(ARP_REQUEST) + sender_mac + SERVER_IP@ + seq![0u8, 0u8, 0u8, 0u8, 0u8, 0u8]
        + GATEWAY_IP@
}

/// The broadcast Ethernet frame that asks for the gateway's hardware address.
pub open spec fn arp_request_frame(sender_mac: Seq<u8>) -> Seq<u8> {
    ethernet_frame(BROADCAST_MAC@, sender_mac, ETHERTYPE_ARP, arp_request_body(sender_mac))
}

/// Builds the ARP request that asks, from `sender_mac`, for the gateway's
/// hardware address.
pub fn build_arp_request(sender_mac: [u8; 6]) -> (frame: Vec<u8>)
    ensures
        frame@ == arp_request_frame(sender_mac@),
        frame@.len() == 42,
{
    let head: [u8; 8] = [0u8, 1u8, 8u8, 0u8, 6u8, 4u8, 0u8, 1u8];
    let mut body: Vec<u8> = Vec::new();
    let mut i: usize = 0;
    while i < 8
        invariant
            i <= 8,
            body@ == head@.take(i as int),
        decreases 8 - i,
    {
        body.push(head[i]);
        i = i + 1;
        assert(body@ =~= head@.take(i as int));
    }
    i = 0;
    while i < 6
        invariant
            i <= 6,
            body@ == head@ + sender_mac@.take(i as int),
        decreases 6 - i,
    {
        body.push(sender_mac[i]);
        i = i + 1;
        assert(body@ =~= head@ + sender_mac@.take(i as int));
    }
    i = 0;
    while i < 4
        invariant
            i <= 4,
            body@ == head@ + sender_mac@ + SERVER_IP@.take(i as int),
        decreases 4 - i,
    {
        body.push(SERVER_IP[i]);
        i = i + 1;
        assert(body@ =~= head@ + sender_mac@ + SERVER_IP@.take(i as int));
    }
    i = 0;
    while i < 6
        invariant
            i <= 6,
            body@ == head@ + sender_mac@ + SERVER_IP@ + Seq::new(i as nat, |j: int| 0u8),
        decreases 6 - i,
    {
        body.push(0u8);
        i = i + 1;
        assert(body@ =~= head@ + sender_mac@ + SERVER_IP@ + Seq::new(i as nat, |j: int| 0u8));
    }
    i = 0;
    while i < 4
        invariant
            i <= 4,
            body@ == head@ + sender_mac@ + SERVER_IP@ + Seq::new(6, |j: int| 0u8)
                + GATEWAY_IP@.take(i as int),
        decreases 4 - i,
    {
        body.push(GATEWAY_IP[i]);
        i = i + 1;
        assert(body@ =~= head@ + sender_mac@ + SERVER_IP@ + Seq::new(6, |j: int| 0u8)
            + GATEWAY_IP@.take(i as int));
    }
    assert(body@ =~= arp_request_body(sender_mac@));
    build_ethernet_frame(BROADCAST_MAC, sender_mac, ETHERTYPE_ARP, body.as_slice())
}

/// What a frame captured while waiting for the gateway's answer is.
#[derive(Debug, PartialEq, Eq)]
pub enum ArpAnswer {
    /// Not an ARP frame.
    NotArp,
    /// An ARP frame too short to hold an ARP packet.
    TooShort,
    /// An ARP packet that is not a reply.
    NotReply,
    /// An ARP reply from this hardware address.
    Reply([u8; 6]),
}

/// Whether the Ethernet frame `frame` carries an ARP packet.
pub open spec fn is_arp_frame(frame: Seq<u8>) -> bool {
    frame.len() >= 14 && be16_at(frame, 12) == ETHERTYPE_ARP
}

/// Reads a frame captured while waiting for the gateway's ARP reply.
pub fn read_arp_answer(frame: &[u8]) -> (answer: ArpAnswer)
    ensures
        !is_arp_frame(frame@) <==> answer is NotArp,
        is_arp_frame(frame@) && frame@.len() < 14 + 28 <==> answer is TooShort,
        answer is NotReply <==> is_arp_frame(frame@) && frame@.len() >= 14 + 28 && be16_at(
            frame@,
            20,
        ) != ARP_REPLY,
        answer is Reply <==> is_arp_frame(frame@) && frame@.len() >= 14 + 28 && be16_at(
            frame@,
            20,
        ) == ARP_REPLY,
        answer matches ArpAnswer::Reply(mac) ==> mac@ == frame@.subrange(22, 28),
        frame@.len() >= 42 && frame@[12] == 8 && frame@[13] == 6 && frame@[20] == 0 && frame@[21]
            == 2 ==> (answer matches ArpAnswer::Reply(mac) && mac@ == frame@.subrange(22, 28)),
{
    if frame.len() < 14 {
        return ArpAnswer::NotArp;
    }
    let ethertype: u16 = (frame[12] as u16) * 256 + (frame[13] as u16);
    if ethertype != ETHERTYPE_ARP {
        return ArpAnswer::NotArp;
    }
    if frame.len() < 14 + 28 {
        return ArpAnswer::TooShort;
    }
    let operation: u16 = (frame[20] as u16) * 256 + (frame[21] as u16);
    if operation != ARP_REPLY {
        return ArpAnswer::NotReply;
    }
    let mac = [frame[22], frame[23], frame[24], frame[25], frame[26], frame[27]];
    assert(mac@ =~= frame@.subrange(22, 28));
    ArpAnswer::Reply(mac)
}

/// The request the server sends is an ARP frame but no reply: reading it back
/// while waiting for the gateway's answer passes it over.
pub proof fn lemma_own_request_is_not_a_reply(sender_mac: Seq<u8>)
    requires
        sender_mac.len() == 6,
    ensures
        is_arp_frame(arp_request_frame(sender_mac)),
        arp_request_frame(sender_mac).len() == 42,
        be16_at(arp_request_frame(sender_mac), 20) == ARP_REQUEST,
        be16_at(arp_request_frame(sender_mac), 20) != ARP_REPLY,
{
    let frame = arp_request_frame(sender_mac);
    assert(frame[12] == 8u8 && frame[13] == 6u8);
    assert(frame[20] == 0u8 && frame[21] == 1u8);
}

/// The request asks, from the server, for the gateway: it is broadcast, it is
/// sent from `sender_mac`, and its ARP body names `sender_mac` unchanged as the
/// sender's hardware address, the server's address as the sender's, no target
/// hardware address, and the gateway's address as the target.
pub proof fn lemma_request_names_sender_and_gateway(sender_mac: Seq<u8>)
    requires
        sender_mac.len() == 6,
    ensures
        ({
            let frame = arp_request_frame(sender_mac);
            &&& frame.len() == 42
            &&& frame.take(6) == BROADCAST_MAC@
            &&& frame.subrange(6, 12) == sender_mac
            &&& frame.subrange(22, 28) == sender_mac
            &&& frame.subrange(28, 32) == SERVER_IP@
            &&& frame.subrange(32, 38) == seq![0u8, 0u8, 0u8, 0u8, 0u8, 0u8]
            &&& frame.subrange(38, 42) == GATEWAY_IP@
            &&& frame.subrange(12, 22) == seq![8u8, 6u8, 0u8, 1u8, 8u8, 0u8, 6u8, 4u8, 0u8, 1u8]
        }),
{
    let frame = arp_request_frame(sender_mac);
    assert(frame.take(6) =~= BROADCAST_MAC@);
    assert(frame.subrange(6, 12) =~= sender_mac);
    assert(frame.subrange(22, 28) =~= sender_mac);
    assert(frame.subrange(28, 32) =~= SERVER_IP@);
    assert(frame.subrange(32, 38) =~= seq![0u8, 0u8, 0u8, 0u8, 0u8, 0u8]);
    assert(frame.subrange(38, 42) =~= GATEWAY_IP@);
    assert(frame.subrange(12, 22) =~= seq![8u8, 6u8, 0u8, 1u8, 8u8, 0u8, 6u8, 4u8, 0u8, 1u8]);
}

/// Every frame long enough for an ARP packet, with the ARP ethertype and the
/// reply operation, is taken as the gateway's answer, whatever Ethernet address
/// it was sent to: it is an ARP frame and its operation is a reply, so that
/// `read_arp_answer` gives its sender's hardware address.
pub proof fn lemma_any_arp_reply_is_read(frame: Seq<u8>)
    requires
        frame.len() >= 42,
        frame[12] == 8u8 && frame[13] == 6u8,
        frame[20] == 0u8 && frame[21] == 2u8,
    ensures
        is_arp_frame(frame),
        frame.len() >= 14 + 28,
        be16_at(frame, 20) == ARP_REPLY,
{
}

} // verus!
