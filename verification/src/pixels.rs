//! In-place pixel transforms: channel addressing, the per-channel grayscale
//! reduction, and black-or-white thresholding.

#![verifier::loop_isolation(false)]
use vstd::prelude::*;

verus! {

/// Flat byte offset of channel `c` of the pixel at column `x` of row `y` in a
/// row-major RGBA raster of the given width.
pub open spec fn pix(x: int, y: int, width: int, c: int) -> int {
    (y * width + x) * 4 + c
}

/// One byte of the grayscale pass. Each color channel is scaled by its own
/// luma weight and truncated, and alpha is left untouched. The channels are
/// not summed into a single gray value: each keeps its own weighted value.
///
/// The weights are the binary32 constants 0.3, 0.59 and 0.11, and the value
/// is the truncation of the correctly rounded single-precision product.
/// Stated in exact integer arithmetic, per byte value 0–255:
/// - red: `v * 3 / 10` — identical to the single-precision product's
///   truncation on every byte;
/// - green: `v * 9898557 / 16777216`, with 9898557/2^24 the exact value of
///   the binary32 constant 0.59, which lies just below 59/100 — so green 100
///   gives 58 and green 200 gives 117, one less than `v * 59 / 100` would;
/// - blue: `v * 11 / 100` — the binary32 constant 0.11 also lies just below
///   11/100, but at 100 and 200 the single-precision multiply rounds the
///   product back up onto the integer (11.0, 22.0), so the rational form is
///   the one that matches on every byte.
pub open spec fn gray_byte(v: u8, c: int) -> u8 {
    if c == 0 {
        ((v as int) * 3 / 10) as u8
    } else if c == 1 {
        ((v as int) * 9898557 / 16777216) as u8
    } else if c == 2 {
        ((v as int) * 11 / 100) as u8
    } else {
        v
    }
}

/// The whole buffer after the grayscale pass: byte `i` holds channel `i % 4`
/// of pixel `i / 4`, and is rewritten independently of every other byte.
pub open spec fn gray_spec(s: Seq<u8>) -> Seq<u8> {
    Seq::new(s.len(), |i: int| gray_byte(s[i], i % 4))
}

/// The black-or-white value a pixel receives from thresholding, judged by its
/// grayscaled red channel: 255 when the gray value lies below the threshold,
/// 0 otherwise.
pub open spec fn bin_val(gray: u8, threshold: u8) -> u8 {
    if gray < threshold {
        255
    } else {
        0
    }
}

/// One byte of the buffer after thresholding: the three color channels of a
/// pixel collapse to `bin_val` of that pixel's grayscaled red channel, and
/// alpha keeps its original value.
pub open spec fn thresh_byte(s: Seq<u8>, threshold: u8, i: int) -> u8 {
    if i % 4 == 3 {
        s[i]
    } else {
        bin_val(gray_byte(s[4 * (i / 4)], 0), threshold)
    }
}

/// The whole buffer after thresholding.
pub open spec fn thresh_spec(s: Seq<u8>, threshold: u8) -> Seq<u8> {
    Seq::new(s.len(), |i: int| thresh_byte(s, threshold, i))
}

/// The four byte offsets of a pixel inside the raster bounds.
pub proof fn lemma_pix_in(x: int, y: int, w: int, h: int, c: int)
    by (nonlinear_arith)
    requires
        0 <= x < w,
        0 <= y < h,
        0 <= c < 4,
    ensures
        0 <= y * w,
        0 <= (y * w + x) * 4 + c,
        (y * w + x) * 4 + c < 4 * w * h,
{
}

/// Maps a channel of a pixel to its flat byte offset. Callers guarantee the
/// coordinates are in bounds; the offset arithmetic then cannot overflow or
/// escape the raster.
pub(crate) fn get_index(x: i32, y: i32, width: i32, part: i32) -> (r: usize)
    requires
        0 <= x < width,
        0 <= y,
        0 <= part < 4,
        ((y as int) * (width as int) + (x as int)) * 4 + (part as int) <= i32::MAX,
    ensures
        r == pix(x as int, y as int, width as int, part as int),
{
    proof {
        assert(0 <= (y as int) * (width as int)) by (nonlinear_arith)
            requires
                0 <= y as int,
                0 <= width as int,
        ;
    }
    (((y * width) + x) * 4 + part) as usize
}

/// Scales every pixel's red, green and blue channels in place by their luma
/// weights, truncating, and leaves alpha untouched.
pub fn grayscale(image: &mut Vec<u8>, width: i32, height: i32)
    requires
        0 <= width,
        0 <= height,
        old(image)@.len() == 4 * (width as int) * (height as int),
        4 * (width as int) * (height as int) <= i32::MAX,
    ensures
        final(image)@ == gray_spec(old(image)@),
{
    let ghost pre = image@;
    let mut y: i32 = 0;
    while y < height
        invariant
            0 <= y <= height,
            image@.len() == pre.len(),
            forall|j: int|
                0 <= j < 4 * (y as int) * (width as int) ==> image@[j] == gray_byte(
                    pre[j],
                    j % 4,
                ),
            forall|j: int| 4 * (y as int) * (width as int) <= j < pre.len() ==> image@[j] == pre[j],
        decreases height - y,
    {
        let mut x: i32 = 0;
        proof {
            assert(4 * (y as int) * (width as int) == 4 * ((y as int) * (width as int)
                + 0)) by (nonlinear_arith);
        }
        while x < width
            invariant
                0 <= y < height,
                0 <= x <= width,
                image@.len() == pre.len(),
                forall|j: int|
                    0 <= j < 4 * ((y as int) * (width as int) + (x as int)) ==> image@[j]
                        == gray_byte(pre[j], j % 4),
                forall|j: int|
                    4 * ((y as int) * (width as int) + (x as int)) <= j < pre.len() ==> image@[j]
                        == pre[j],
            decreases width - x,
        {
            proof {
                lemma_pix_in(x as int, y as int, width as int, height as int, 3);
            }
            let i0 = get_index(x, y, width, 0);
            let i1 = get_index(x, y, width, 1);
            let i2 = get_index(x, y, width, 2);
            let r = image[i0];
            let g = image[i1];
            let b = image[i2];

            let r2 = (r as u32 * 3 / 10) as u8;
            let g2 = (g as u32 * 9898557 / 16777216) as u8;
            let b2 = (b as u32 * 11 / 100) as u8;

            image[i0] = r2;
            image[i1] = g2;
            image[i2] = b2;
            x = x + 1;
        }
        proof {
            assert(4 * ((y as int) * (width as int) + (width as int)) == 4 * ((y as int) + 1) * (
            width as int)) by (nonlinear_arith);
        }
        y = y + 1;
    }
    proof {
        assert(4 * (height as int) * (width as int) == 4 * (width as int) * (
        height as int)) by (nonlinear_arith);
        assert(image@ =~= gray_spec(pre));
    }
}

/// Runs the grayscale pass, then collapses every pixel to pure black or pure
/// white around the threshold, judged by the pixel's grayscaled red channel;
/// alpha is copied through unchanged.
pub fn thresholding(image: &mut Vec<u8>, width: i32, height: i32, threshold: u8)
    requires
        0 <= width,
        0 <= height,
        old(image)@.len() == 4 * (width as int) * (height as int),
        4 * (width as int) * (height as int) <= i32::MAX,
    ensures
        final(image)@ == thresh_spec(old(image)@, threshold),
{
    let ghost pre = image@;
    grayscale(image, width, height);
    let ghost grayed = image@;
    proof {
        assert(4 * (0 as int) * (width as int) == 0) by (nonlinear_arith);
    }

    let mut y: i32 = 0;
    while y < height
        invariant
            0 <= y <= height,
            image@.len() == pre.len(),
            grayed == gray_spec(pre),
            forall|j: int|
                0 <= j < 4 * (y as int) * (width as int) ==> image@[j] == thresh_byte(
                    pre,
                    threshold,
                    j,
                ),
            forall|j: int|
                4 * (y as int) * (width as int) <= j < pre.len() ==> image@[j] == grayed[j],
        decreases height - y,
    {
        let mut x: i32 = 0;
        proof {
            assert(4 * (y as int) * (width as int) == 4 * ((y as int) * (width as int)
                + 0)) by (nonlinear_arith);
        }
        while x < width
            invariant
                0 <= y < height,
                0 <= x <= width,
                image@.len() == pre.len(),
                grayed == gray_spec(pre),
                forall|j: int|
                    0 <= j < 4 * ((y as int) * (width as int) + (x as int)) ==> image@[j]
                        == thresh_byte(pre, threshold, j),
                forall|j: int|
                    4 * ((y as int) * (width as int) + (x as int)) <= j < pre.len() ==> image@[j]
                        == grayed[j],
            decreases width - x,
        {
            proof {
                lemma_pix_in(x as int, y as int, width as int, height as int, 3);
            }
            let i0 = get_index(x, y, width, 0);
            let i1 = get_index(x, y, width, 1);
            let i2 = get_index(x, y, width, 2);
            let i3 = get_index(x, y, width, 3);
            let gray = image[i0];
            let alpha = image[i3];
            proof {
                let p = (y as int) * (width as int) + (x as int);
                assert(i0 as int == 4 * p);
                assert(i3 as int == 4 * p + 3);
                assert(gray == grayed[4 * p]);
                assert(grayed[4 * p] == gray_byte(pre[4 * p], (4 * p) % 4));
                assert(alpha == grayed[4 * p + 3]);
                assert(grayed[4 * p + 3] == gray_byte(pre[4 * p + 3], (4 * p + 3) % 4));
            }

            let value: u8 = if gray < threshold {
                255
            } else {
                0
            };
            image[i0] = value;
            image[i1] = value;
            image[i2] = value;
            image[i3] = alpha;
            proof {
                let p = (y as int) * (width as int) + (x as int);
                assert((4 * p + 0) / 4 == p && (4 * p + 0) % 4 == 0);
                assert((4 * p + 1) / 4 == p && (4 * p + 1) % 4 == 1);
                assert((4 * p + 2) / 4 == p && (4 * p + 2) % 4 == 2);
                assert((4 * p + 3) % 4 == 3);
                assert(value == bin_val(gray_byte(pre[4 * p], 0), threshold));
            }
            x = x + 1;
        }
        proof {
            assert(4 * ((y as int) * (width as int) + (width as int)) == 4 * ((y as int) + 1) * (
            width as int)) by (nonlinear_arith);
        }
        y = y + 1;
    }
    proof {
        assert(4 * (height as int) * (width as int) == 4 * (width as int) * (
        height as int)) by (nonlinear_arith);
        assert(image@ =~= thresh_spec(pre, threshold));
    }
}

/// For one pixel, grayscale leaves exactly the per-channel weighted values —
/// each channel's truncated product with its binary32 weight, stated in the
/// exact integer forms of `gray_byte` — and alpha exactly as it was.
pub proof fn lemma_grayscale_pixel(s: Seq<u8>, p: int)
    requires
        0 <= p,
        4 * p + 3 < s.len(),
    ensures
        gray_spec(s)[4 * p + 0] == ((s[4 * p + 0] as int) * 3 / 10) as u8,
        gray_spec(s)[4 * p + 1] == ((s[4 * p + 1] as int) * 9898557 / 16777216) as u8,
        gray_spec(s)[4 * p + 2] == ((s[4 * p + 2] as int) * 11 / 100) as u8,
        gray_spec(s)[4 * p + 3] == s[4 * p + 3],
{
    assert((4 * p + 0) % 4 == 0);
    assert((4 * p + 1) % 4 == 1);
    assert((4 * p + 2) % 4 == 2);
    assert((4 * p + 3) % 4 == 3);
}

/// After thresholding, every pixel's red, green and blue channels are equal
/// to one another and are either 0 or 255, and its alpha channel keeps the
/// value it had before the pass.
pub proof fn lemma_threshold_channels(s: Seq<u8>, threshold: u8, p: int)
    requires
        0 <= p,
        4 * p + 3 < s.len(),
    ensures
        thresh_spec(s, threshold)[4 * p + 0] == thresh_spec(s, threshold)[4 * p + 1],
        thresh_spec(s, threshold)[4 * p + 1] == thresh_spec(s, threshold)[4 * p + 2],
        thresh_spec(s, threshold)[4 * p + 0] == 0 || thresh_spec(s, threshold)[4 * p + 0] == 255,
        thresh_spec(s, threshold)[4 * p + 3] == s[4 * p + 3],
{
    assert((4 * p + 0) / 4 == p && (4 * p + 0) % 4 == 0);
    assert((4 * p + 1) / 4 == p && (4 * p + 1) % 4 == 1);
    assert((4 * p + 2) / 4 == p && (4 * p + 2) % 4 == 2);
    assert((4 * p + 3) % 4 == 3);
}

/// Thresholding is monotone in the threshold: for a fixed input, raising the
/// threshold can only move a color channel from black (0) to white (255),
/// never the reverse — a channel that is white stays white, and a channel
/// that is black under the higher threshold was already black under the
/// lower one.
pub proof fn lemma_threshold_monotone(s: Seq<u8>, t1: u8, t2: u8, i: int)
    requires
        t1 <= t2,
        0 <= i < s.len(),
        i % 4 != 3,
    ensures
        thresh_spec(s, t1)[i] == 255 ==> thresh_spec(s, t2)[i] == 255,
        thresh_spec(s, t2)[i] == 0 ==> thresh_spec(s, t1)[i] == 0,
{
}

} // verus!
