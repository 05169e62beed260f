//! The color metric: alpha blending against white, projection into the YIQ
//! color space, and the weighted squared distance between two samples.
//!
//! The YIQ coefficients are decimals with eight fractional digits and the
//! distance weights have four, so the metric is computed exactly on integer
//! numerators: a channel value scaled by `10^8` for the projections, and by
//! `10^20` for the squared distance.

use vstd::prelude::*;

verus! {

/// A whole RGBA sample lies inside the buffer at byte offset `pos`.
pub open spec fn px_ok(img: Seq<u8>, pos: int) -> bool {
    0 <= pos && pos + 4 <= img.len()
}

/// Channel `c` blended against a white background at alpha `a`:
/// the integer part of `255 - (255 - c) * a / 255`.
pub open spec fn blend_num(c: int, a: int) -> int {
    255 - ((255 - c) * a + 254) / 255
}

/// Red channel of the sample at `pos`, blended against white.
pub open spec fn blended_r(img: Seq<u8>, pos: int) -> int {
    blend_num(img[pos] as int, img[pos + 3] as int)
}

/// Green channel of the sample at `pos`, blended against white.
pub open spec fn blended_g(img: Seq<u8>, pos: int) -> int {
    blend_num(img[pos + 1] as int, img[pos + 3] as int)
}

/// Blue channel of the sample at `pos`, blended against white.
pub open spec fn blended_b(img: Seq<u8>, pos: int) -> int {
    blend_num(img[pos + 2] as int, img[pos + 3] as int)
}

/// Luma numerator: `10^8` times the YIQ luma of an RGB triple.
pub open spec fn y_num(r: int, g: int, b: int) -> int {
    29_889_531 * r + 58_662_247 * g + 11_448_223 * b
}

/// First chroma numerator: `10^8` times the YIQ in-phase component.
pub open spec fn i_num(r: int, g: int, b: int) -> int {
    59_597_799 * r - 27_417_610 * g - 32_180_189 * b
}

/// Second chroma numerator: `10^8` times the YIQ quadrature component.
pub open spec fn q_num(r: int, g: int, b: int) -> int {
    21_147_017 * r - 52_261_711 * g + 31_114_694 * b
}

/// Luma numerator of the blended sample at `pos`.
pub open spec fn pixel_y(img: Seq<u8>, pos: int) -> int {
    y_num(blended_r(img, pos), blended_g(img, pos), blended_b(img, pos))
}

/// In-phase chroma numerator of the blended sample at `pos`.
pub open spec fn pixel_i(img: Seq<u8>, pos: int) -> int {
    i_num(blended_r(img, pos), blended_g(img, pos), blended_b(img, pos))
}

/// Quadrature chroma numerator of the blended sample at `pos`.
pub open spec fn pixel_q(img: Seq<u8>, pos: int) -> int {
    q_num(blended_r(img, pos), blended_g(img, pos), blended_b(img, pos))
}

/// Numerator of the perceptual squared distance between two samples:
/// `10^20` times `0.5053*dy^2 + 0.299*di^2 + 0.1957*dq^2`.
pub open spec fn delta_sq_num(img1: Seq<u8>, pos1: int, img2: Seq<u8>, pos2: int) -> int {
    let dy = pixel_y(img1, pos1) - pixel_y(img2, pos2);
    let di = pixel_i(img1, pos1) - pixel_i(img2, pos2);
    let dq = pixel_q(img1, pos1) - pixel_q(img2, pos2);
    5053 * dy * dy + 2990 * di * di + 1957 * dq * dq
}

/// Signed luma difference between two samples of one image, as a numerator.
pub open spec fn bright_delta_num(img: Seq<u8>, pos1: int, pos2: int) -> int {
    pixel_y(img, pos1) - pixel_y(img, pos2)
}

/// The luma difference truncated toward zero to whole luma units.
pub open spec fn bright_delta_t(img: Seq<u8>, pos1: int, pos2: int) -> int {
    let d = bright_delta_num(img, pos1, pos2);
    if d >= 0 {
        d / 100_000_000
    } else {
        -((-d) / 100_000_000)
    }
}

/// Whole part of the luma of the blended sample at `pos`.
pub open spec fn gray_num(img: Seq<u8>, pos: int) -> int {
    pixel_y(img, pos) / 100_000_000
}

/// A gray level darkened by blending one tenth of the way toward white:
/// the integer part of `255 - (255 - g) / 10`.
pub open spec fn bg_blend(g: int) -> int {
    255 - ((255 - g) + 9) / 10
}

/// Byte offset of the pixel at `(x, y)` in a row-major RGBA buffer of width `w`.
pub open spec fn pos_of(w: int, x: int, y: int) -> int {
    (y * w + x) * 4
}

/// A pixel inside the image maps to a whole sample inside the buffer.
pub proof fn lemma_pos_of_bounds(w: int, h: int, x: int, y: int)
    requires
        0 <= x < w,
        0 <= y < h,
    ensures
        0 <= y * w + x,
        y * w + x < w * h,
        0 <= pos_of(w, x, y),
        pos_of(w, x, y) + 4 <= 4 * w * h,
        4 * (w * h) == 4 * w * h,
{
    assert(0 <= y * w + x && y * w + x < w * h && 4 * (w * h) == 4 * w * h) by (nonlinear_arith)
        requires
            0 <= x < w,
            0 <= y < h;
}

/// Pixels in row-major order have strictly increasing byte offsets.
pub proof fn lemma_pos_of_lt(w: int, x1: int, y1: int, x2: int, y2: int)
    requires
        0 <= x1 < w,
        0 <= x2 < w,
        0 <= y1,
        0 <= y2,
        y1 < y2 || (y1 == y2 && x1 < x2),
    ensures
        y1 * w + x1 < y2 * w + x2,
        pos_of(w, x1, y1) + 4 <= pos_of(w, x2, y2),
{
    assert(y1 * w + x1 < y2 * w + x2) by (nonlinear_arith)
        requires
            0 <= x1 < w,
            0 <= x2 < w,
            0 <= y1,
            0 <= y2,
            y1 < y2 || (y1 == y2 && x1 < x2);
}

/// The raw RGBA bytes at the two offsets are identical.
pub open spec fn same_pixel(img: Seq<u8>, p1: int, p2: int) -> bool {
    &&& img[p1] == img[p2]
    &&& img[p1 + 1] == img[p2 + 1]
    &&& img[p1 + 2] == img[p2 + 2]
    &&& img[p1 + 3] == img[p2 + 3]
}

/// Blending keeps a channel in the 8-bit range.
pub proof fn lemma_blend_num_range(c: int, a: int)
    requires
        0 <= c <= 255,
        0 <= a <= 255,
    ensures
        0 <= blend_num(c, a) <= 255,
{
    assert(0 <= (255 - c) * a <= 65025) by (nonlinear_arith)
        requires
            0 <= c <= 255,
            0 <= a <= 255;
    assert(0 <= ((255 - c) * a + 254) / 255 <= 255);
}

/// Ranges of the blended channels and of the three projection numerators.
pub proof fn lemma_pixel_bounds(img: Seq<u8>, pos: int)
    requires
        px_ok(img, pos),
    ensures
        0 <= blended_r(img, pos) <= 255,
        0 <= blended_g(img, pos) <= 255,
        0 <= blended_b(img, pos) <= 255,
        0 <= pixel_y(img, pos) <= 25_500_000_255,
        -15_197_438_745 <= pixel_i(img, pos) <= 15_197_438_745,
        -13_326_736_305 <= pixel_q(img, pos) <= 13_326_736_305,
{
    lemma_blend_num_range(img[pos] as int, img[pos + 3] as int);
    lemma_blend_num_range(img[pos + 1] as int, img[pos + 3] as int);
    lemma_blend_num_range(img[pos + 2] as int, img[pos + 3] as int);
}

/// The squared distance does not depend on the order of its two samples.
pub proof fn lemma_delta_sq_symmetric(img1: Seq<u8>, pos1: int, img2: Seq<u8>, pos2: int)
    ensures
        delta_sq_num(img1, pos1, img2, pos2) == delta_sq_num(img2, pos2, img1, pos1),
{
    let dy = pixel_y(img1, pos1) - pixel_y(img2, pos2);
    let di = pixel_i(img1, pos1) - pixel_i(img2, pos2);
    let dq = pixel_q(img1, pos1) - pixel_q(img2, pos2);
    let ry = pixel_y(img2, pos2) - pixel_y(img1, pos1);
    let ri = pixel_i(img2, pos2) - pixel_i(img1, pos1);
    let rq = pixel_q(img2, pos2) - pixel_q(img1, pos1);
    assert(5053 * ry * ry == 5053 * dy * dy) by (nonlinear_arith)
        requires
            ry == -dy;
    assert(2990 * ri * ri == 2990 * di * di) by (nonlinear_arith)
        requires
            ri == -di;
    assert(1957 * rq * rq == 1957 * dq * dq) by (nonlinear_arith)
        requires
            rq == -dq;
}

/// The squared distance is never negative.
pub proof fn lemma_delta_sq_nonneg(img1: Seq<u8>, pos1: int, img2: Seq<u8>, pos2: int)
    ensures
        delta_sq_num(img1, pos1, img2, pos2) >= 0,
{
    let dy = pixel_y(img1, pos1) - pixel_y(img2, pos2);
    let di = pixel_i(img1, pos1) - pixel_i(img2, pos2);
    let dq = pixel_q(img1, pos1) - pixel_q(img2, pos2);
    assert(5053 * dy * dy + 2990 * di * di + 1957 * dq * dq >= 0) by (nonlinear_arith);
}

/// Blend a channel against a white background at the given alpha.
fn blend(c: u8, a: u8) -> (r: u8)
    ensures
        r as int == blend_num(c as int, a as int),
{
    let cw: u32 = 255 - c as u32;
    let aw: u32 = a as u32;
    proof {
        assert(0 <= cw as int * aw as int <= 65025) by (nonlinear_arith)
            requires
                0 <= cw as int <= 255,
                0 <= aw as int <= 255;
    }
    let d: u32 = cw * aw;
    let q: u32 = (d + 254) / 255;
    (255 - q) as u8
}

/// Luma numerator of the blended sample at `pos`, computed exactly.
fn pixel_y_exec(img: &Vec<u8>, pos: usize) -> (y: u64)
    requires
        px_ok(img@, pos as int),
    ensures
        y as int == pixel_y(img@, pos as int),
{
    proof {
        assert(pos + 4 <= img.len());
    }
    let a = img[pos + 3];
    let r = blend(img[pos], a);
    let g = blend(img[pos + 1], a);
    let b = blend(img[pos + 2], a);
    29_889_531 * (r as u64) + 58_662_247 * (g as u64) + 11_448_223 * (b as u64)
}

/// In-phase chroma numerator of the blended sample at `pos`, computed exactly.
fn pixel_i_exec(img: &Vec<u8>, pos: usize) -> (i: i64)
    requires
        px_ok(img@, pos as int),
    ensures
        i as int == pixel_i(img@, pos as int),
{
    proof {
        assert(pos + 4 <= img.len());
    }
    let a = img[pos + 3];
    let r = blend(img[pos], a);
    let g = blend(img[pos + 1], a);
    let b = blend(img[pos + 2], a);
    59_597_799 * (r as i64) - 27_417_610 * (g as i64) - 32_180_189 * (b as i64)
}

/// Quadrature chroma numerator of the blended sample at `pos`, computed exactly.
fn pixel_q_exec(img: &Vec<u8>, pos: usize) -> (q: i64)
    requires
        px_ok(img@, pos as int),
    ensures
        q as int == pixel_q(img@, pos as int),
{
    proof {
        assert(pos + 4 <= img.len());
    }
    let a = img[pos + 3];
    let r = blend(img[pos], a);
    let g = blend(img[pos + 1], a);
    let b = blend(img[pos + 2], a);
    21_147_017 * (r as i64) - 52_261_711 * (g as i64) + 31_114_694 * (b as i64)
}

/// Exact numerator of the perceptual squared distance between the sample at
/// `pos1` of `img1` and the sample at `pos2` of `img2`.
pub fn color_delta(img1: &Vec<u8>, img2: &Vec<u8>, pos1: usize, pos2: usize) -> (d: u128)
    requires
        px_ok(img1@, pos1 as int),
        px_ok(img2@, pos2 as int),
    ensures
        d as int == delta_sq_num(img1@, pos1 as int, img2@, pos2 as int),
{
    proof {
        lemma_pixel_bounds(img1@, pos1 as int);
        lemma_pixel_bounds(img2@, pos2 as int);
    }
    let y1 = pixel_y_exec(img1, pos1);
    let y2 = pixel_y_exec(img2, pos2);
    let i1 = pixel_i_exec(img1, pos1);
    let i2 = pixel_i_exec(img2, pos2);
    let q1 = pixel_q_exec(img1, pos1);
    let q2 = pixel_q_exec(img2, pos2);
    let dy: i64 = y1 as i64 - y2 as i64;
    let di: i64 = i1 - i2;
    let dq: i64 = q1 - q2;
    assert(0 <= dy as int * dy as int <= 650_250_013_005_000_065_025) by (nonlinear_arith)
        requires
            -25_500_000_255 <= dy as int <= 25_500_000_255;
    assert(0 <= di as int * di as int <= 923_924_140_002_848_119_025) by (nonlinear_arith)
        requires
            -30_394_877_490 <= di as int <= 30_394_877_490;
    assert(0 <= dq as int * dq as int <= 710_407_602_172_020_212_100) by (nonlinear_arith)
        requires
            -26_653_472_610 <= dq as int <= 26_653_472_610;
    let dy2: i128 = (dy as i128) * (dy as i128);
    let di2: i128 = (di as i128) * (di as i128);
    let dq2: i128 = (dq as i128) * (dq as i128);
    let sum: i128 = 5053 * dy2 + 2990 * di2 + 1957 * dq2;
    proof {
        assert(5053 * (dy as int * dy as int) == 5053 * dy as int * dy as int)
            by (nonlinear_arith);
        assert(2990 * (di as int * di as int) == 2990 * di as int * di as int)
            by (nonlinear_arith);
        assert(1957 * (dq as int * dq as int) == 1957 * dq as int * dq as int)
            by (nonlinear_arith);
    }
    sum as u128
}

/// Truncated whole-unit luma difference between two samples of one image.
pub(crate) fn brightness_delta(img: &Vec<u8>, pos1: usize, pos2: usize) -> (t: i32)
    requires
        px_ok(img@, pos1 as int),
        px_ok(img@, pos2 as int),
    ensures
        t as int == bright_delta_t(img@, pos1 as int, pos2 as int),
        -255 <= t <= 255,
{
    proof {
        lemma_pixel_bounds(img@, pos1 as int);
        lemma_pixel_bounds(img@, pos2 as int);
    }
    let y1 = pixel_y_exec(img, pos1);
    let y2 = pixel_y_exec(img, pos2);
    if y1 >= y2 {
        ((y1 - y2) / 100_000_000) as i32
    } else {
        -(((y2 - y1) / 100_000_000) as i32)
    }
}

/// Whole part of the blended luma of the sample at `pos`, as a gray level.
pub fn gray_pixel(img: &Vec<u8>, pos: usize) -> (g: u8)
    requires
        px_ok(img@, pos as int),
    ensures
        g as int == gray_num(img@, pos as int),
{
    proof {
        lemma_pixel_bounds(img@, pos as int);
    }
    let y = pixel_y_exec(img, pos);
    (y / 100_000_000) as u8
}

/// Darken a gray level for the background rendering of unchanged pixels.
pub(crate) fn darken(g: u8) -> (r: u8)
    ensures
        r as int == bg_blend(g as int),
{
    let q: u32 = ((255 - g as u32) + 9) / 10;
    (255 - q) as u8
}

} // verus!
