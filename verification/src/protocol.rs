use vstd::prelude::*;
use crate::buffer_util::BUFFER_CAPACITY;
use crate::packet::be16_at;

verus! {

/// What the two length bytes in front of a framed packet announce.
#[derive(Debug, PartialEq, Eq, Structural)]
pub enum FrameHeader {
    /// More bytes than a buffer holds; the frame is not read.
    Oversized,
    /// No bytes: the connection is given up.
    Empty,
    /// A packet of this many bytes follows.
    Payload(usize),
}

/// What a length prefix announces.
pub open spec fn frame_header_of(size_bytes: Seq<u8>) -> FrameHeader {
    let size = be16_at(size_bytes, 0);
    if size > BUFFER_CAPACITY {
        FrameHeader::Oversized
    } else if size == 0 {
        FrameHeader::Empty
    } else {
        FrameHeader::Payload(size as usize)
    }
}

/// Reads the big-endian length prefix of a frame from the client.
pub fn parse_frame_header(size_buffer: [u8; 2]) -> (header: FrameHeader)
    ensures
        header == frame_header_of(size_buffer@),
{
    let size: u16 = (size_buffer[0] as u16) * 256 + (size_buffer[1] as u16);
    if size as usize > BUFFER_CAPACITY {
        FrameHeader::Oversized
    } else if size == 0 {
        FrameHeader::Empty
    } else {
        FrameHeader::Payload(size as usize)
    }
}

} // verus!
