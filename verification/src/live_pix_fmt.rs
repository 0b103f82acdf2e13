//! Decoded video frames as they travel from the stream reader to the
//! renderer.

use vstd::prelude::*;

verus! {

/// Byte layout of a frame.
#[derive(Clone, Copy, Debug, PartialEq, Eq, Structural)]
pub enum LivePixFmt {
    /// Interleaved red, green, blue: three bytes per pixel.
    Rgb24,
    /// A plane of luma followed by a plane of interleaved chroma at half
    /// height.
    Nv12,
}

/// One decoded frame with tightly packed pixel data.
#[derive(Debug)]
pub struct LiveFrame {
    /// Presentation timestamp in microseconds.
    pub ts_us: i64,
    pub width: u32,
    pub height: u32,
    /// Matches the layout of the bytes.
    pub pix_fmt: LivePixFmt,
    /// Tightly packed (RGB), or planar/semi-planar for NV12.
    pub data: Vec<u8>,
}

/// Rows of `row_bytes` bytes cut from a plane in which each row begins
/// `stride` bytes after the one before, in order and without the padding.
pub open spec fn packed_rows(plane: Seq<u8>, stride: int, row_bytes: int, rows: int) -> Seq<u8>
    decreases rows,
{
    if rows <= 0 {
        Seq::empty()
    } else {
        packed_rows(plane, stride, row_bytes, rows - 1) + plane.subrange(
            (rows - 1) * stride,
            (rows - 1) * stride + row_bytes,
        )
    }
}

/// The plane is long enough to cut `rows` rows from.
pub open spec fn plane_holds(plane: Seq<u8>, stride: int, row_bytes: int, rows: int) -> bool {
    rows > 0 ==> (rows - 1) * stride + row_bytes <= plane.len()
}

impl LiveFrame {
    /// The number of bytes that an RGB24 frame of this size takes.
    pub open spec fn rgb24_len(self) -> int {
        self.width * self.height * 3
    }

    /// Width and height in pixels.
    pub fn get_size(&self) -> (r: (u32, u32))
        ensures
            r == (self.width, self.height),
    {
        (self.width, self.height)
    }

    /// Presentation timestamp in microseconds.
    pub fn ts_us(&self) -> (t: i64)
        ensures
            t == self.ts_us,
    {
        self.ts_us
    }

    /// The bytes of an RGB24 frame.
    pub fn as_rgb24(&self) -> (bytes: &[u8])
        requires
            self.pix_fmt == LivePixFmt::Rgb24,
        ensures
            bytes@ == self.data@,
    {
        self.data.as_slice()
    }

    /// The bytes of an RGB24 frame, for writing. Only the bytes can change.
    pub fn as_rgb24_mut(&mut self) -> (bytes: &mut [u8])
        requires
            old(self).pix_fmt == LivePixFmt::Rgb24,
        ensures
            bytes@ == old(self).data@,
            final(self).data@ == final(bytes)@,
            final(self).ts_us == old(self).ts_us,
            final(self).width == old(self).width,
            final(self).height == old(self).height,
            final(self).pix_fmt == old(self).pix_fmt,
    {
        self.data.as_mut_slice()
    }

    /// The bytes of an RGB24 frame with its width and height.
    pub fn make_cpu_rgb24_buffer(&self) -> (r: (&[u8], u32, u32))
        requires
            self.pix_fmt == LivePixFmt::Rgb24,
        ensures
            r.0@ == self.data@,
            r.1 == self.width,
            r.2 == self.height,
    {
        (self.data.as_slice(), self.width, self.height)
    }

    /// Whether the frame is RGB24 and holds exactly three bytes for each of
    /// its pixels.
    pub fn is_packed_rgb24(&self) -> (b: bool)
        ensures
            b == (self.pix_fmt == LivePixFmt::Rgb24 && self.data@.len() == self.rgb24_len()),
    {
        assert(0 <= self.width * self.height <= 0xffff_ffff * 0xffff_ffff) by (nonlinear_arith)
            requires
                0 <= self.width <= 0xffff_ffff,
                0 <= self.height <= 0xffff_ffff,
        ;
        let want: u128 = (self.width as u128) * (self.height as u128) * 3;
        self.pix_fmt == LivePixFmt::Rgb24 && self.data.len() as u128 == want
    }
}

/// Copies `rows` rows of `row_bytes` bytes out of a plane whose rows begin
/// every `stride` bytes, dropping the padding between them.
pub fn pack_rows(plane: &[u8], stride: usize, row_bytes: usize, rows: usize) -> (out: Vec<u8>)
    requires
        plane_holds(plane@, stride as int, row_bytes as int, rows as int),
    ensures
        out@ == packed_rows(plane@, stride as int, row_bytes as int, rows as int),
{
    let mut out: Vec<u8> = Vec::new();
    let mut row: usize = 0;
    let n: usize = plane.len();
    while row < rows
        invariant
            row <= rows,
            n == plane@.len(),
            plane_holds(plane@, stride as int, row_bytes as int, rows as int),
            out@ == packed_rows(plane@, stride as int, row_bytes as int, row as int),
        decreases rows - row,
    {
        proof {
            assert(row * stride <= (rows - 1) * stride) by (nonlinear_arith)
                requires
                    0 <= row <= rows - 1,
                    0 <= stride,
            ;
        }
        let start: usize = row * stride;
        let ghost before = out@;
        let mut k: usize = 0;
        while k < row_bytes
            invariant
                k <= row_bytes,
                n == plane@.len(),
                start + row_bytes <= plane@.len(),
                out@ == before + plane@.subrange(start as int, start + k),
            decreases row_bytes - k,
        {
            out.push(plane[start + k]);
            proof {
                assert(out@ =~= before + plane@.subrange(start as int, start + k + 1));
            }
            k += 1;
        }
        row += 1;
    }
    out
}

/// The tightly packed bytes of an RGB24 picture of `width` by `height`
/// pixels, cut from a plane whose rows begin every `stride` bytes.
pub fn pack_rgb24(plane: &[u8], stride: usize, width: u32, height: u32) -> (out: Vec<u8>)
    requires
        3 * width <= usize::MAX,
        height <= usize::MAX,
        plane_holds(plane@, stride as int, 3 * width, height as int),
    ensures
        out@ == packed_rows(plane@, stride as int, 3 * width, height as int),
{
    pack_rows(plane, stride, 3 * (width as usize), height as usize)
}

/// The tightly packed bytes of an NV12 picture of `width` by `height` pixels:
/// the rows of the luma plane, then the `height / 2` rows of the chroma
/// plane, each row `width` bytes long.
pub fn pack_nv12(
    luma: &[u8],
    luma_stride: usize,
    chroma: &[u8],
    chroma_stride: usize,
    width: u32,
    height: u32,
) -> (out: Vec<u8>)
    requires
        width <= usize::MAX,
        height <= usize::MAX,
        plane_holds(luma@, luma_stride as int, width as int, height as int),
        plane_holds(chroma@, chroma_stride as int, width as int, (height / 2) as int),
    ensures
        out@ == packed_rows(luma@, luma_stride as int, width as int, height as int) + packed_rows(
            chroma@,
            chroma_stride as int,
            width as int,
            (height / 2) as int,
        ),
{
    let mut out: Vec<u8> = pack_rows(luma, luma_stride, width as usize, height as usize);
    let mut tail: Vec<u8> = pack_rows(chroma, chroma_stride, width as usize, (height / 2) as usize);
    out.append(&mut tail);
    out
}

} // verus!
