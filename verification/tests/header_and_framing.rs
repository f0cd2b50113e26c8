use momid_vpn::buffer_util::Buffer;
use momid_vpn::header::{HeaderSkipper, SkipStep};
use momid_vpn::momid_vpn_server::encode_for_client;
use momid_vpn::protocol::{parse_frame_header, FrameHeader};
use momid_vpn::encryption::xor_decode;

fn done(step: SkipStep) -> Option<usize> {
    match step {
        SkipStep::Done { consumed } => Some(consumed),
        _ => None,
    }
}

#[test]
fn skipper_finds_the_blank_line() {
    let mut skipper = HeaderSkipper::new();
    let step = skipper.feed(b"HTTP/1.1 200 OK\r\nContent-Length: 10\r\n\r\nhello");
    assert_eq!(done(step), Some(39));
}

#[test]
fn skipper_across_reads() {
    let mut skipper = HeaderSkipper::new();
    assert!(matches!(skipper.feed(b"GET / HTTP/1.1\r\n\r"), SkipStep::Continue));
    assert_eq!(done(skipper.feed(b"\nbody")), Some(1));
}

#[test]
fn skipper_split_anywhere_agrees() {
    let stream: &[u8] = b"POST /x HTTP/1.1\r\nHost: a\r\n\r\npayload";
    let whole = 29;
    for cut in 1..whole {
        let mut skipper = HeaderSkipper::new();
        let first = skipper.feed(&stream[..cut]);
        assert!(matches!(first, SkipStep::Continue), "cut {}", cut);
        assert_eq!(done(skipper.feed(&stream[cut..])), Some(whole - cut));
    }
}

#[test]
fn skipper_reports_end_of_stream() {
    let mut skipper = HeaderSkipper::new();
    assert!(matches!(skipper.feed(b""), SkipStep::EndOfStream));
    assert!(matches!(skipper.feed(b"abc\r\n"), SkipStep::Continue));
    assert!(matches!(skipper.feed(b""), SkipStep::EndOfStream));
}

#[test]
fn skipper_restarts_without_rechecking_the_byte() {
    // the matcher drops to zero on a mismatch without looking at the
    // mismatching byte again, so this blank line is not seen; the two bytes
    // matched at the end of the read carry over to the next one
    let mut skipper = HeaderSkipper::new();
    assert!(matches!(skipper.feed(b"\r\r\n\r\n"), SkipStep::Continue));
    assert_eq!(done(skipper.feed(b"\r\n\r\n")), Some(2));
}

#[test]
fn frame_header_values() {
    assert_eq!(parse_frame_header([0, 5]), FrameHeader::Payload(5));
    assert_eq!(parse_frame_header([0x1b, 0x58]), FrameHeader::Payload(7000));
    assert_eq!(parse_frame_header([0x1b, 0x59]), FrameHeader::Oversized);
    assert_eq!(parse_frame_header([0xff, 0xff]), FrameHeader::Oversized);
    assert_eq!(parse_frame_header([0, 0]), FrameHeader::Empty);
    assert_eq!(parse_frame_header([1, 2]), FrameHeader::Payload(258));
}

#[test]
fn encode_for_client_exact_bytes() {
    let mut packet = [1u8, 2, 3];
    let mut out = Buffer::new();
    encode_for_client(&mut packet, &mut out);
    assert_eq!(packet, [6u8, 5, 4]);
    assert_eq!(out.get(), &[0u8, 3, 6, 5, 4][..]);
}

#[test]
fn client_frame_roundtrip() {
    let original: Vec<u8> = (0..300u32).map(|i| (i * 7) as u8).collect();
    let mut packet = original.clone();
    let mut out = Buffer::new_from(&[0xee; 50]);
    encode_for_client(&mut packet, &mut out);
    let framed = out.get().to_vec();
    assert_eq!(parse_frame_header([framed[0], framed[1]]), FrameHeader::Payload(300));
    assert_eq!(xor_decode(&framed[2..], 7), original);
}

#[test]
fn encode_for_client_leaves_the_storage_past_the_frame() {
    let mut packet = [1u8, 2, 3];
    let mut out = Buffer::new_from(&[0x55; 10]);
    encode_for_client(&mut packet, &mut out);
    assert_eq!(out.current_size, 5);
    assert_eq!(&out.buffer[5..10], &[0x55u8; 5][..]);
}
