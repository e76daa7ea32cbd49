//! Normalizing a renderer's raw pixel buffer into the canonical
//! 3-byte-per-pixel RGB layout every encoder consumes.
//!
//! Two raw layouts are admissible: 4 bytes per pixel in
//! blue-green-red-alpha order, and 3 bytes per pixel already in
//! red-green-blue order. Any other buffer length is malformed.

use vstd::prelude::*;

verus! {

use vstd::slice::slice_to_vec;

/// A raw buffer whose length matches neither admissible layout.
#[derive(Debug, Clone, Copy, PartialEq, Eq, Structural)]
pub struct PixelFormatError {
    /// The length a 3-byte-per-pixel (RGB) buffer would have had.
    pub expected_rgb: u64,
    /// The length a 4-byte-per-pixel (BGRA) buffer would have had.
    pub expected_bgra: u64,
    /// The length actually seen.
    pub actual: u64,
}

/// A canonical image: `bytes` holds exactly `width * height` pixels,
/// 3 bytes each, in red-green-blue order.
#[derive(Debug)]
pub struct CanonicalImage {
    pub width: u32,
    pub height: u32,
    pub bytes: Vec<u8>,
}

impl CanonicalImage {
    /// The canonical-layout invariant: exactly three bytes per pixel.
    pub open spec fn wf(self) -> bool {
        self.bytes@.len() == self.width as int * self.height as int * 3
    }
}

/// Pixel `p` of `out` is pixel `p` of the 4-byte-per-pixel buffer `raw`
/// with the alpha byte dropped and blue and red swapped.
pub open spec fn rgb_triple_from_bgra(raw: Seq<u8>, out: Seq<u8>, p: int) -> bool {
    out[3 * p] == raw[4 * p + 2] && out[3 * p + 1] == raw[4 * p + 1] && out[3 * p + 2] == raw[4
        * p]
}

/// Normalize a raw buffer of declared dimensions into a canonical RGB
/// image. A 4-byte-per-pixel buffer is taken as blue-green-red-alpha
/// and converted pixel by pixel, in order; a 3-byte-per-pixel buffer is
/// passed through unchanged, byte for byte; any other length is
/// rejected, reporting both acceptable lengths and the actual one.
pub fn normalize(raw: &[u8], width: u32, height: u32) -> (r: Result<
    CanonicalImage,
    PixelFormatError,
>)
    requires
        width as int * height as int * 4 <= u64::MAX,
    ensures
        ({
            let pc = width as int * height as int;
            if raw@.len() == pc * 4 {
                &&& r matches Ok(img)
                &&& img.width == width
                &&& img.height == height
                &&& img.bytes@.len() == pc * 3
                &&& (forall|p: int| 0 <= p < pc ==> rgb_triple_from_bgra(raw@, img.bytes@, p))
                &&& img.wf()
            } else if raw@.len() == pc * 3 {
                &&& r matches Ok(img)
                &&& img.width == width
                &&& img.height == height
                &&& img.bytes@ == raw@
                &&& img.wf()
            } else {
                r matches Err(e) && e == (PixelFormatError {
                    expected_rgb: (pc * 3) as u64,
                    expected_bgra: (pc * 4) as u64,
                    actual: raw@.len() as u64,
                })
            }
        }),
{
    let pc: u64 = (width as u64) * (height as u64);
    let expected4: u64 = pc * 4;
    let expected3: u64 = pc * 3;
    let len: usize = raw.len();
    if len as u64 == expected4 {
        proof {
            assert(pc <= usize::MAX);
        }
        let pcu: usize = pc as usize;
        let mut out: Vec<u8> = Vec::new();
        let mut p: usize = 0;
        while p < pcu
            invariant
                0 <= p <= pcu,
                pcu == pc,
                raw@.len() == 4 * pc,
                4 * pc <= usize::MAX,
                out@.len() == 3 * p,
                forall|j: int| 0 <= j < p ==> rgb_triple_from_bgra(raw@, out@, j),
            decreases pcu - p,
        {
            let ghost out0 = out@;
            out.push(raw[4 * p + 2]);
            out.push(raw[4 * p + 1]);
            out.push(raw[4 * p]);
            proof {
                assert(out@.len() == 3 * (p + 1));
                assert(rgb_triple_from_bgra(raw@, out@, p as int));
                assert forall|j: int| 0 <= j < p implies rgb_triple_from_bgra(raw@, out@, j) by {
                    assert(rgb_triple_from_bgra(raw@, out0, j));
                    assert(out@[3 * j] == out0[3 * j]);
                    assert(out@[3 * j + 1] == out0[3 * j + 1]);
                    assert(out@[3 * j + 2] == out0[3 * j + 2]);
                }
            }
            p = p + 1;
        }
        Ok(CanonicalImage { width, height, bytes: out })
    } else if len as u64 == expected3 {
        let out = slice_to_vec(raw);
        Ok(CanonicalImage { width, height, bytes: out })
    } else {
        Err(PixelFormatError { expected_rgb: expected3, expected_bgra: expected4, actual: len as u64 })
    }
}

} // verus!
