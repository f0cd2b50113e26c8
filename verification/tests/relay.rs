use momid_vpn::arp_packet::{build_arp_request, read_arp_answer, ArpAnswer};
use momid_vpn::buffer_util::Buffer;
use momid_vpn::momid_vpn_server::{
    clear_ports, process_from_client, process_from_internet, Inbound, Outbound, PortTable,
    CLIENT_IP, SERVER_IP,
};
use momid_vpn::packet::Transport;
use pnet::packet::ipv4::{checksum, Ipv4Packet};
use pnet::packet::tcp::TcpPacket;
use pnet::packet::udp::UdpPacket;
use pnet::util::core_net::Ipv4Addr;

const REMOTE: [u8; 4] = [8, 8, 8, 8];
const SERVER_MAC: [u8; 6] = [2, 0, 0, 0, 0, 1];
const GATEWAY_MAC: [u8; 6] = [2, 0, 0, 0, 0, 2];

/// An IPv4 packet from `source` to `destination` carrying `segment` under `protocol`.
fn ipv4(source: [u8; 4], destination: [u8; 4], protocol: u8, segment: &[u8]) -> Vec<u8> {
    let total = 20 + segment.len();
    let mut ip = vec![0x45, 0, (total >> 8) as u8, total as u8, 0, 1, 0, 0, 64, protocol, 0, 0];
    ip.extend_from_slice(&source);
    ip.extend_from_slice(&destination);
    ip.extend_from_slice(segment);
    ip
}

fn udp(source_port: u16, destination_port: u16, data: &[u8]) -> Vec<u8> {
    let len = 8 + data.len();
    let mut segment = source_port.to_be_bytes().to_vec();
    segment.extend_from_slice(&destination_port.to_be_bytes());
    segment.extend_from_slice(&(len as u16).to_be_bytes());
    segment.extend_from_slice(&[0, 0]);
    segment.extend_from_slice(data);
    segment
}

fn tcp(source_port: u16, destination_port: u16, data: &[u8]) -> Vec<u8> {
    let mut segment = source_port.to_be_bytes().to_vec();
    segment.extend_from_slice(&destination_port.to_be_bytes());
    segment.extend_from_slice(&[0, 0, 0, 1, 0, 0, 0, 0, 0x50, 0x18, 0x10, 0x00, 0xaa, 0xbb, 0, 0]);
    segment.extend_from_slice(data);
    segment
}

fn ethernet(payload: &[u8]) -> Vec<u8> {
    let mut frame = SERVER_MAC.to_vec();
    frame.extend_from_slice(&GATEWAY_MAC);
    frame.extend_from_slice(&[0x08, 0x00]);
    frame.extend_from_slice(payload);
    frame
}

/// What the relay should make of `ip`: the address at `at` replaced and both
/// checksums recomputed with pnet.
fn expected_readdress(ip: &[u8], at: usize, address: [u8; 4], transport: Option<Transport>) -> Vec<u8> {
    let mut out = ip.to_vec();
    out[at..at + 4].copy_from_slice(&address);
    let sum = checksum(&Ipv4Packet::new(&out).unwrap());
    out[10..12].copy_from_slice(&sum.to_be_bytes());
    let source = Ipv4Addr::new(out[12], out[13], out[14], out[15]);
    let destination = Ipv4Addr::new(out[16], out[17], out[18], out[19]);
    match transport {
        Some(Transport::Udp) => {
            let sum = pnet::packet::udp::ipv4_checksum(&UdpPacket::new(&out[20..]).unwrap(), &source, &destination);
            out[26..28].copy_from_slice(&sum.to_be_bytes());
        }
        Some(Transport::Tcp) => {
            let sum = pnet::packet::tcp::ipv4_checksum(&TcpPacket::new(&out[20..]).unwrap(), &source, &destination);
            out[36..38].copy_from_slice(&sum.to_be_bytes());
        }
        None => {}
    }
    out
}

fn ports_with(open: &[u16]) -> PortTable {
    let mut table = PortTable::new();
    for port in open {
        table.open(*port);
    }
    table
}

#[test]
fn port_table_opens_ports() {
    let mut table = PortTable::new();
    assert!(!table.is_open(5000));
    table.open(5000);
    assert!(table.is_open(5000));
    assert!(!table.is_open(5001));
    table.open(65535);
    assert!(table.is_open(65535));
    assert!(table.is_open(5000));
}

#[test]
fn clear_ports_closes_everything() {
    let mut ports = vec![true, false, true, true];
    clear_ports(&mut ports);
    assert_eq!(ports, vec![false; 4]);
    let mut none: Vec<bool> = vec![];
    clear_ports(&mut none);
    assert!(none.is_empty());
}

#[test]
fn udp_reply_is_forwarded_readdressed() {
    let ip = ipv4(REMOTE, SERVER_IP, 17, &udp(53, 40000, b"answer"));
    let packet = Buffer::new_from(&ethernet(&ip));
    let verdict = process_from_internet(&packet, &ports_with(&[40000]));
    let expected = expected_readdress(&ip, 16, CLIENT_IP, Some(Transport::Udp));
    assert_eq!(&expected[16..20], &CLIENT_IP[..]);
    assert_ne!(&expected[10..12], &[0u8, 0][..]);
    assert_ne!(&expected[26..28], &[0u8, 0][..]);
    assert_eq!(verdict, Inbound::Forward(expected));
}

#[test]
fn tcp_reply_is_forwarded_readdressed() {
    let ip = ipv4(REMOTE, SERVER_IP, 6, &tcp(443, 51000, b"data"));
    let packet = Buffer::new_from(&ethernet(&ip));
    let verdict = process_from_internet(&packet, &ports_with(&[51000]));
    assert_eq!(verdict, Inbound::Forward(expected_readdress(&ip, 16, CLIENT_IP, Some(Transport::Tcp))));
}

#[test]
fn inbound_checksums_are_exact() {
    // a zero-filled UDP datagram of 8 bytes from 8.8.8.8 to 192.168.3.7
    let ip = ipv4(REMOTE, SERVER_IP, 17, &udp(0, 1234, b""));
    let packet = Buffer::new_from(&ethernet(&ip));
    match process_from_internet(&packet, &ports_with(&[1234])) {
        Inbound::Forward(out) => {
            // header checksum of 45 00 00 1c 00 01 00 00 40 11 ____ 08080808 c0a80307
            let mut sum: u32 = 0x4500 + 0x001c + 0x0001 + 0x0000 + 0x4011 + 0x0808 + 0x0808 + 0xc0a8 + 0x0307;
            while sum >> 16 != 0 {
                sum = (sum >> 16) + (sum & 0xffff);
            }
            let header_sum = !(sum as u16);
            assert_eq!(&out[10..12], &header_sum.to_be_bytes()[..]);
            // pseudo header + udp header: 0808 0808 c0a8 0307 0011 0008 + 0000 04d2 0008
            let mut sum: u32 = 0x0808 + 0x0808 + 0xc0a8 + 0x0307 + 0x0011 + 0x0008 + 0x0000 + 0x04d2 + 0x0008;
            while sum >> 16 != 0 {
                sum = (sum >> 16) + (sum & 0xffff);
            }
            let udp_sum = !(sum as u16);
            assert_eq!(&out[26..28], &udp_sum.to_be_bytes()[..]);
        }
        other => panic!("not forwarded: {:?}", other),
    }
}

#[test]
fn inbound_drops() {
    let open = ports_with(&[40000]);
    // too short for Ethernet or IPv4
    assert_eq!(process_from_internet(&Buffer::new_from(&[0u8; 10]), &open), Inbound::NotIpv4);
    assert_eq!(process_from_internet(&Buffer::new_from(&[0u8; 33]), &open), Inbound::NotIpv4);
    // sent by the server itself
    let own = ipv4(SERVER_IP, REMOTE, 17, &udp(40000, 53, b"q"));
    assert_eq!(process_from_internet(&Buffer::new_from(&ethernet(&own)), &open), Inbound::FromServer);
    // ICMP
    let icmp = ipv4(REMOTE, SERVER_IP, 1, &[8, 0, 0, 0, 0, 0, 0, 0]);
    assert_eq!(process_from_internet(&Buffer::new_from(&ethernet(&icmp)), &open), Inbound::OtherProtocol);
    // the tunnel's own port and SSH
    let web = ipv4(REMOTE, SERVER_IP, 6, &tcp(5555, 80, b""));
    assert_eq!(process_from_internet(&Buffer::new_from(&ethernet(&web)), &ports_with(&[80])), Inbound::ReservedPort);
    let ssh = ipv4(REMOTE, SERVER_IP, 17, &udp(5555, 22, b""));
    assert_eq!(process_from_internet(&Buffer::new_from(&ethernet(&ssh)), &ports_with(&[22])), Inbound::ReservedPort);
    // a port the client never sent from
    let other = ipv4(REMOTE, SERVER_IP, 17, &udp(53, 40001, b"x"));
    assert_eq!(process_from_internet(&Buffer::new_from(&ethernet(&other)), &open), Inbound::NotForUser);
    // a transport header cut short
    let short = ipv4(REMOTE, SERVER_IP, 6, &[0, 53, 0x9c, 0x40]);
    assert_eq!(
        process_from_internet(&Buffer::new_from(&ethernet(&short)), &open),
        Inbound::TransportTooShort(Transport::Tcp)
    );
    // larger than the client is sent
    let big = ipv4(REMOTE, SERVER_IP, 17, &udp(53, 40000, &[1u8; 2973]));
    assert_eq!(big.len(), 3001);
    assert_eq!(process_from_internet(&Buffer::new_from(&ethernet(&big)), &open), Inbound::TooLarge);
    let fits = ipv4(REMOTE, SERVER_IP, 17, &udp(53, 40000, &[1u8; 2972]));
    assert!(matches!(process_from_internet(&Buffer::new_from(&ethernet(&fits)), &open), Inbound::Forward(_)));
}

#[test]
fn client_packet_is_sent_from_the_server() {
    let ip = ipv4(CLIENT_IP, REMOTE, 17, &udp(40000, 53, b"query"));
    let mut ports = PortTable::new();
    let verdict = process_from_client(&Buffer::new_from(&ip), &mut ports, SERVER_MAC, GATEWAY_MAC);
    let mut expected = GATEWAY_MAC.to_vec();
    expected.extend_from_slice(&SERVER_MAC);
    expected.extend_from_slice(&[0x08, 0x00]);
    expected.extend_from_slice(&expected_readdress(&ip, 12, SERVER_IP, Some(Transport::Udp)));
    assert_eq!(verdict, Outbound::Send(expected));
    assert!(ports.is_open(40000));
    assert!(!ports.is_open(53));
}

#[test]
fn client_tcp_and_other_protocols() {
    let mut ports = PortTable::new();
    let ip = ipv4(CLIENT_IP, REMOTE, 6, &tcp(51000, 443, b"hello"));
    match process_from_client(&Buffer::new_from(&ip), &mut ports, SERVER_MAC, GATEWAY_MAC) {
        Outbound::Send(frame) => assert_eq!(frame[14..].to_vec(), expected_readdress(&ip, 12, SERVER_IP, Some(Transport::Tcp))),
        other => panic!("not sent: {:?}", other),
    }
    assert!(ports.is_open(51000));
    let icmp = ipv4(CLIENT_IP, REMOTE, 1, &[8, 0, 0, 0, 0, 0, 0, 0]);
    match process_from_client(&Buffer::new_from(&icmp), &mut ports, SERVER_MAC, GATEWAY_MAC) {
        Outbound::Send(frame) => assert_eq!(frame[14..].to_vec(), expected_readdress(&icmp, 12, SERVER_IP, None)),
        other => panic!("not sent: {:?}", other),
    }
}

#[test]
fn client_packets_that_are_not_sent() {
    let mut ports = PortTable::new();
    assert_eq!(process_from_client(&Buffer::new_from(&[0x45; 19]), &mut ports, SERVER_MAC, GATEWAY_MAC), Outbound::NotIpv4);
    let short = ipv4(CLIENT_IP, REMOTE, 17, &[0x9c, 0x40, 0, 53]);
    assert_eq!(
        process_from_client(&Buffer::new_from(&short), &mut ports, SERVER_MAC, GATEWAY_MAC),
        Outbound::TransportTooShort(Transport::Udp)
    );
    assert!(!ports.is_open(40000));
    let big = ipv4(CLIENT_IP, REMOTE, 17, &udp(41000, 53, &vec![0u8; 6987 - 28]));
    assert_eq!(big.len(), 6987);
    assert_eq!(process_from_client(&Buffer::new_from(&big), &mut ports, SERVER_MAC, GATEWAY_MAC), Outbound::FrameTooLarge);
    // the port is opened before the frame is found too large
    assert!(ports.is_open(41000));
}

#[test]
fn reply_follows_request() {
    let mut ports = PortTable::new();
    let request = ipv4(CLIENT_IP, REMOTE, 17, &udp(45000, 53, b"q"));
    let reply = ethernet(&ipv4(REMOTE, SERVER_IP, 17, &udp(53, 45000, b"a")));
    assert_eq!(process_from_internet(&Buffer::new_from(&reply), &ports), Inbound::NotForUser);
    process_from_client(&Buffer::new_from(&request), &mut ports, SERVER_MAC, GATEWAY_MAC);
    assert!(matches!(process_from_internet(&Buffer::new_from(&reply), &ports), Inbound::Forward(_)));
}

#[test]
fn arp_request_bytes() {
    let frame = build_arp_request([0x02, 0x11, 0x22, 0x33, 0x44, 0x55]);
    assert_eq!(
        frame,
        vec![
            0xff, 0xff, 0xff, 0xff, 0xff, 0xff, 0x02, 0x11, 0x22, 0x33, 0x44, 0x55, 0x08, 0x06,
            0x00, 0x01, 0x08, 0x00, 6, 4, 0x00, 0x01, 0x02, 0x11, 0x22, 0x33, 0x44, 0x55,
            146, 70, 145, 152, 0, 0, 0, 0, 0, 0, 146, 70, 145, 129,
        ]
    );
    assert_eq!(read_arp_answer(&frame), ArpAnswer::NotReply);
}

#[test]
fn arp_answers() {
    let mut reply = build_arp_request([1, 2, 3, 4, 5, 6]);
    reply[21] = 2;
    reply[22..28].copy_from_slice(&[0xa, 0xb, 0xc, 0xd, 0xe, 0xf]);
    assert_eq!(read_arp_answer(&reply), ArpAnswer::Reply([0xa, 0xb, 0xc, 0xd, 0xe, 0xf]));
    assert_eq!(read_arp_answer(&reply[..41]), ArpAnswer::TooShort);
    assert_eq!(read_arp_answer(&reply[..13]), ArpAnswer::NotArp);
    let ip_frame = ethernet(&ipv4(REMOTE, SERVER_IP, 17, &udp(1, 2, b"")));
    assert_eq!(read_arp_answer(&ip_frame), ArpAnswer::NotArp);
}

#[test]
fn padded_frame_keeps_its_padding_and_sums_only_the_payload() {
    // a short datagram in a frame padded to the Ethernet minimum
    let ip = ipv4(REMOTE, SERVER_IP, 17, &udp(53, 40000, b"ab"));
    assert_eq!(ip.len(), 30);
    let mut padded = ip.clone();
    padded.extend_from_slice(&[0u8; 16]);
    let verdict = process_from_internet(&Buffer::new_from(&ethernet(&padded)), &ports_with(&[40000]));

    let mut expected = padded.clone();
    expected[16..20].copy_from_slice(&CLIENT_IP);
    let sum = checksum(&Ipv4Packet::new(&expected).unwrap());
    expected[10..12].copy_from_slice(&sum.to_be_bytes());
    let sum = pnet::packet::udp::ipv4_checksum(
        &UdpPacket::new(&expected[20..30]).unwrap(),
        &Ipv4Addr::new(8, 8, 8, 8),
        &Ipv4Addr::new(192, 168, 3, 7),
    );
    expected[26..28].copy_from_slice(&sum.to_be_bytes());
    assert_eq!(expected.len(), 46);
    assert_eq!(verdict, Inbound::Forward(expected));
}

#[test]
fn header_options_move_the_payload() {
    // header length of six words: four bytes of options before the datagram
    let mut ip = ipv4(REMOTE, SERVER_IP, 17, &udp(53, 40000, b"xyz"));
    ip[0] = 0x46;
    ip.splice(20..20, [1u8, 1, 1, 0]);
    let total = ip.len() as u16;
    ip[2..4].copy_from_slice(&total.to_be_bytes());
    let verdict = process_from_internet(&Buffer::new_from(&ethernet(&ip)), &ports_with(&[40000]));

    let mut expected = ip.clone();
    expected[16..20].copy_from_slice(&CLIENT_IP);
    let sum = checksum(&Ipv4Packet::new(&expected).unwrap());
    expected[10..12].copy_from_slice(&sum.to_be_bytes());
    let sum = pnet::packet::udp::ipv4_checksum(
        &UdpPacket::new(&expected[24..]).unwrap(),
        &Ipv4Addr::new(8, 8, 8, 8),
        &Ipv4Addr::new(192, 168, 3, 7),
    );
    expected[30..32].copy_from_slice(&sum.to_be_bytes());
    assert_eq!(verdict, Inbound::Forward(expected));
}
