//! Rendering a frame through a pair of maps: which map, and the repacking of
//! the pixels it yields.

use vstd::prelude::*;

verus! {

/// Which map of a pair a frame is rendered through.
#[derive(Clone, Copy, Debug, PartialEq, Eq, Structural)]
pub enum RenderMapKind {
    Distort,
    Undistort,
}

/// The number of whole pixels of four bytes in `len` bytes.
pub open spec fn rgba_pixels(len: int) -> int {
    len / 4
}

/// Copies red, green and blue of every whole RGBA pixel to `rgb`, three bytes
/// for each pixel, and leaves the rest of `rgb` as it is.
pub fn rgba_to_rgb(rgba: &[u8], rgb: &mut [u8])
    requires
        old(rgb)@.len() >= 3 * rgba_pixels(rgba@.len() as int),
    ensures
        final(rgb)@.len() == old(rgb)@.len(),
        forall|p: int, c: int|
            0 <= p < rgba_pixels(rgba@.len() as int) && 0 <= c < 3 ==> #[trigger] final(rgb)@[3 * p
                + c] == rgba@[4 * p + c],
        forall|i: int|
            3 * rgba_pixels(rgba@.len() as int) <= i < old(rgb)@.len() ==> final(rgb)@[i] == old(
                rgb,
            )@[i],
{
    let len: usize = rgba.len();
    let n: usize = len / 4;
    let mut p: usize = 0;
    while p < n
        invariant
            len == rgba@.len(),
            n == rgba_pixels(rgba@.len() as int),
            p <= n,
            rgb@.len() == old(rgb)@.len(),
            rgb@.len() >= 3 * n,
            forall|q: int, c: int|
                0 <= q < p && 0 <= c < 3 ==> #[trigger] rgb@[3 * q + c] == rgba@[4 * q + c],
            forall|i: int| 3 * p <= i < rgb@.len() ==> rgb@[i] == old(rgb)@[i],
        decreases n - p,
    {
        let s: usize = 4 * p;
        let d: usize = 3 * p;
        let ghost before = rgb@;
        rgb[d] = rgba[s];
        rgb[d + 1] = rgba[s + 1];
        rgb[d + 2] = rgba[s + 2];
        proof {
            assert forall|q: int, c: int| 0 <= q < p + 1 && 0 <= c < 3 implies #[trigger] rgb@[3
                * q + c] == rgba@[4 * q + c] by {
                if q < p {
                    assert(rgb@[3 * q + c] == before[3 * q + c]);
                }
            }
        }
        p += 1;
    }
}

} // verus!
