//! Messages of the length-prefixed feed, and its framing.

use vstd::prelude::*;

verus! {

/// One raw video frame as it comes over the wire.
#[derive(Debug)]
pub struct VideoFrame {
    /// Monotonic nanoseconds, or the stream's presentation time in
    /// nanoseconds.
    pub ts_ns: i64,
    pub width: u32,
    pub height: u32,
    /// The pixel format as a plain number.
    pub pix_fmt: u32,
    /// Raw pixel data.
    pub data: Vec<u8>,
}

/// The number that four bytes spell out, least significant byte first.
pub open spec fn le_value(b: [u8; 4]) -> int {
    b[0] + 256 * b[1] + 65536 * b[2] + 16777216 * b[3]
}

/// The length of the payload that follows a length prefix of four bytes,
/// least significant byte first.
pub fn frame_len(len_buf: [u8; 4]) -> (len: u32)
    ensures
        len == le_value(len_buf),
{
    let b0: u32 = len_buf[0] as u32;
    let b1: u32 = len_buf[1] as u32;
    let b2: u32 = len_buf[2] as u32;
    let b3: u32 = len_buf[3] as u32;
    b0 + 256 * b1 + 65536 * b2 + 16777216 * b3
}

} // verus!
