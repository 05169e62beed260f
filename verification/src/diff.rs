//! The diff scanner: validates the input shape, walks every pixel in
//! row-major order, classifies it against the color metric and the
//! anti-alias classifier, renders the diff image and counts the genuine
//! differences.

use vstd::prelude::*;

use crate::antialias::anti_aliased;
use crate::antialias::spec_anti_aliased;
use crate::color::bg_blend;
use crate::color::color_delta;
use crate::color::darken;
use crate::color::delta_sq_num;
use crate::color::gray_num;
use crate::color::gray_pixel;
use crate::color::lemma_pos_of_bounds;
use crate::color::lemma_pos_of_lt;
use crate::color::pos_of;

verus! {

/// An RGBA color as four 8-bit channels.
pub type Rgba = (u8, u8, u8, u8);

/// Why a comparison was rejected before any pixel work was done.
#[derive(Clone, Copy, Debug, PartialEq, Eq, Structural)]
pub enum PixelmatchError {
    /// The two input buffers differ in length.
    ImageLengthError,
    /// A buffer length is not a multiple of four, so it cannot hold whole
    /// RGBA pixels.
    InvalidFormatError,
}

/// The number of genuinely differing pixels and the rendered diff image.
#[derive(Debug)]
pub struct PixelmatchOutput {
    pub diff_count: usize,
    pub diff_image: Vec<u8>,
}

/// Alternative name for the comparison result.
pub type PixelmatchResult = PixelmatchOutput;

/// Configuration of a comparison.
#[derive(Clone, Copy, Debug)]
pub struct PixelmatchOption {
    /// When true, a difference classified as anti-aliasing in either
    /// direction is drawn in `anti_aliased_color` and left out of the
    /// count; when false, every difference beyond the threshold is drawn
    /// in `diff_color` and counted. Note the polarity: the flag enables
    /// anti-alias handling; some implementations of this algorithm apply
    /// the suppression when their flag is false instead.
    pub include_anti_alias: bool,
    /// Perceptual distance threshold in hundred-thousandths: `10_000`
    /// stands for a threshold of one tenth. Must not exceed `100_000`,
    /// which stands for a threshold of one.
    pub threshold: u32,
    /// Color drawn for a genuine difference.
    pub diff_color: Rgba,
    /// Color drawn for a difference attributed to anti-aliasing.
    pub anti_aliased_color: Rgba,
}

/// The default configuration: anti-alias handling off, threshold one
/// tenth, light red for differences, orange for anti-aliased pixels.
pub open spec fn default_options() -> PixelmatchOption {
    PixelmatchOption {
        include_anti_alias: false,
        threshold: 10_000,
        diff_color: (255u8, 119u8, 119u8, 255u8),
        anti_aliased_color: (243u8, 156u8, 18u8, 255u8),
    }
}

impl Default for PixelmatchOption {
    fn default() -> (r: Self)
        ensures
            r == default_options(),
    {
        PixelmatchOption {
            include_anti_alias: false,
            threshold: 10_000,
            diff_color: (255, 119, 119, 255),
            anti_aliased_color: (243, 156, 18, 255),
        }
    }
}

/// The configuration a call runs with: the given one, or the default.
pub open spec fn opts_of(options: Option<PixelmatchOption>) -> PixelmatchOption {
    match options {
        Option::Some(o) => o,
        Option::None => default_options(),
    }
}

/// Largest acceptable squared-distance numerator for threshold numerator
/// `t`: `35215 * (t / 10^5)^2`, brought to the metric's `10^20` scale.
pub open spec fn max_delta_num(t: int) -> int {
    35215 * t * t * 10_000_000_000
}

/// The samples at `(x, y)` of the two images differ beyond the threshold.
pub open spec fn flagged(img1: Seq<u8>, img2: Seq<u8>, w: int, t: int, x: int, y: int) -> bool {
    delta_sq_num(img1, pos_of(w, x, y), img2, pos_of(w, x, y)) > max_delta_num(t)
}

/// The difference at `(x, y)` is attributed to anti-aliasing with either
/// image as the subject.
pub open spec fn aa_either(img1: Seq<u8>, img2: Seq<u8>, w: int, h: int, x: int, y: int) -> bool {
    spec_anti_aliased(img1, img2, x, y, w, h) || spec_anti_aliased(img2, img1, x, y, w, h)
}

/// The pixel at `(x, y)` is counted as a genuine difference.
pub open spec fn counted(
    img1: Seq<u8>,
    img2: Seq<u8>,
    w: int,
    h: int,
    t: int,
    inc_aa: bool,
    x: int,
    y: int,
) -> bool {
    flagged(img1, img2, w, t, x, y) && !(inc_aa && aa_either(img1, img2, w, h, x, y))
}

/// The four channels of a color, widened to integers.
pub open spec fn rgba_seq(c: Rgba) -> Seq<int> {
    seq![c.0 as int, c.1 as int, c.2 as int, c.3 as int]
}

/// The background rendering of an unchanged pixel: the darkened gray level
/// of the first image's sample, fully opaque.
pub open spec fn bg_pixel(img1: Seq<u8>, w: int, x: int, y: int) -> Seq<int> {
    let g = bg_blend(gray_num(img1, pos_of(w, x, y)));
    seq![g, g, g, 255int]
}

/// The four output bytes written for the pixel at `(x, y)`.
pub open spec fn out_pixel(
    img1: Seq<u8>,
    img2: Seq<u8>,
    w: int,
    h: int,
    opts: PixelmatchOption,
    x: int,
    y: int,
) -> Seq<int> {
    if flagged(img1, img2, w, opts.threshold as int, x, y) {
        if opts.include_anti_alias && aa_either(img1, img2, w, h, x, y) {
            rgba_seq(opts.anti_aliased_color)
        } else {
            rgba_seq(opts.diff_color)
        }
    } else {
        bg_pixel(img1, w, x, y)
    }
}

/// Number of counted pixels among those before row `y`, and before column
/// `x` within row `y`, in row-major order.
pub open spec fn count_upto(
    img1: Seq<u8>,
    img2: Seq<u8>,
    w: int,
    h: int,
    t: int,
    inc_aa: bool,
    y: int,
    x: int,
) -> int
    decreases y, x,
{
    if y == 0 && x == 0 {
        0
    } else if y >= 0 && 0 < x <= w {
        count_upto(img1, img2, w, h, t, inc_aa, y, x - 1) + if counted(
            img1,
            img2,
            w,
            h,
            t,
            inc_aa,
            x - 1,
            y,
        ) {
            1int
        } else {
            0int
        }
    } else if y > 0 && x == 0 {
        count_upto(img1, img2, w, h, t, inc_aa, y - 1, w)
    } else {
        0
    }
}

/// Number of counted pixels over the whole image.
pub open spec fn diff_count_spec(
    img1: Seq<u8>,
    img2: Seq<u8>,
    w: int,
    h: int,
    t: int,
    inc_aa: bool,
) -> int {
    count_upto(img1, img2, w, h, t, inc_aa, h, 0)
}

/// The partial count lies between zero and the number of scanned pixels.
pub proof fn lemma_count_upto_bounds(
    img1: Seq<u8>,
    img2: Seq<u8>,
    w: int,
    h: int,
    t: int,
    inc_aa: bool,
    y: int,
    x: int,
)
    requires
        0 <= y,
        0 <= x <= w,
    ensures
        0 <= count_upto(img1, img2, w, h, t, inc_aa, y, x) <= y * w + x,
    decreases y, x,
{
    if y == 0 && x == 0 {
    } else if 0 < x {
        lemma_count_upto_bounds(img1, img2, w, h, t, inc_aa, y, x - 1);
    } else {
        lemma_count_upto_bounds(img1, img2, w, h, t, inc_aa, y - 1, w);
        assert((y - 1) * w + w == y * w) by (nonlinear_arith);
    }
}

/// The diff count never exceeds the number of pixels of the image.
pub proof fn lemma_diff_count_bounded(
    img1: Seq<u8>,
    img2: Seq<u8>,
    w: int,
    h: int,
    t: int,
    inc_aa: bool,
)
    requires
        0 <= w,
        0 <= h,
    ensures
        0 <= diff_count_spec(img1, img2, w, h, t, inc_aa) <= w * h,
{
    lemma_count_upto_bounds(img1, img2, w, h, t, inc_aa, h, 0);
    assert(h * w == w * h) by (nonlinear_arith);
}

/// Fill a fresh buffer of `n` zero bytes.
fn zero_buffer(n: usize) -> (v: Vec<u8>)
    ensures
        v@.len() == n,
        forall|i: int| 0 <= i < n ==> v@[i] == 0,
{
    let mut v: Vec<u8> = Vec::new();
    let mut k: usize = 0;
    while k < n
        invariant
            k <= n,
            v@.len() == k,
            forall|i: int| 0 <= i < k ==> v@[i] == 0,
        decreases n - k,
    {
        v.push(0);
        k = k + 1;
    }
    v
}

/// Write one RGBA color at byte offset `pos` of the output buffer.
pub fn draw_pixel(diff_buf: &mut Vec<u8>, pos: usize, rgba: Rgba)
    requires
        pos + 4 <= old(diff_buf)@.len(),
    ensures
        final(diff_buf)@ == old(diff_buf)@.update(pos as int, rgba.0).update(
            pos as int + 1,
            rgba.1,
        ).update(pos as int + 2, rgba.2).update(pos as int + 3, rgba.3),
{
    proof {
        assert(pos + 4 <= diff_buf.len());
    }
    diff_buf.set(pos, rgba.0);
    diff_buf.set(pos + 1, rgba.1);
    diff_buf.set(pos + 2, rgba.2);
    diff_buf.set(pos + 3, rgba.3);
}

/// Compare two RGBA images of the given dimensions.
///
/// Buffers of unequal length, or of a length that is no multiple of four,
/// are rejected before any pixel work. Otherwise every pixel is classified:
/// a genuine difference is drawn in `diff_color` and counted, a difference
/// attributed to anti-aliasing (when `include_anti_alias` is set) is drawn
/// in `anti_aliased_color` and not counted, and an unchanged pixel is drawn
/// as the darkened grayscale of the first image.
#[verifier::loop_isolation(false)]
#[verifier::rlimit(100)]
pub fn pixelmatch(
    img1: &Vec<u8>,
    img2: &Vec<u8>,
    dimensions: (u32, u32),
    options: Option<PixelmatchOption>,
) -> (r: Result<PixelmatchOutput, PixelmatchError>)
    requires
        img1@.len() == img2@.len() && img1@.len() % 4 == 0 ==> 4 * (dimensions.0 as int) * (
        dimensions.1 as int) <= img1@.len(),
        opts_of(options).threshold <= 100_000,
    ensures
        (match r {
            Result::Ok(out) => {
                &&& img1@.len() == img2@.len()
                &&& img1@.len() % 4 == 0
                &&& out.diff_image@.len() == img1@.len()
                &&& out.diff_count as int == diff_count_spec(
                    img1@,
                    img2@,
                    dimensions.0 as int,
                    dimensions.1 as int,
                    opts_of(options).threshold as int,
                    opts_of(options).include_anti_alias,
                )
                &&& out.diff_count as int <= (dimensions.0 as int) * (dimensions.1 as int)
                &&& forall|x: int, y: int, j: int|
                    0 <= x < dimensions.0 as int && 0 <= y < dimensions.1 as int && 0 <= j < 4
                        ==> out.diff_image@[pos_of(dimensions.0 as int, x, y) + j]
                        == #[trigger] out_pixel(
                        img1@,
                        img2@,
                        dimensions.0 as int,
                        dimensions.1 as int,
                        opts_of(options),
                        x,
                        y,
                    )[j]
                &&& forall|i: int|
                    4 * (dimensions.0 as int) * (dimensions.1 as int) <= i < img1@.len()
                        ==> out.diff_image@[i] == 0
            },
            Result::Err(PixelmatchError::ImageLengthError) => img1@.len() != img2@.len(),
            Result::Err(PixelmatchError::InvalidFormatError) => img1@.len() == img2@.len()
                && img1@.len() % 4 != 0,
        }),
{
    if img1.len() != img2.len() {
        return Result::Err(PixelmatchError::ImageLengthError);
    }
    if img1.len() % 4 != 0 {
        return Result::Err(PixelmatchError::InvalidFormatError);
    }
    let opts = match options {
        Option::Some(o) => o,
        Option::None => PixelmatchOption::default(),
    };
    let (width, height) = dimensions;
    let w = width as usize;
    let h = height as usize;
    let t = opts.threshold;
    proof {
        assert(35215 * (t as int) * (t as int) <= 352_150_000_000_000) by (nonlinear_arith)
            requires
                0 <= t as int <= 100_000;
    }
    let maxd: u128 = 35215u128 * (t as u128) * (t as u128) * 10_000_000_000u128;
    let mut diff_count: usize = 0;
    let mut diff_image: Vec<u8> = zero_buffer(img1.len());
    let ghost gw = w as int;
    let ghost gh = h as int;
    let ghost gt = t as int;
    let ghost inc = opts.include_anti_alias;
    let mut y: usize = 0;
    while y < h
        invariant
            y <= h,
            diff_image@.len() == img1@.len(),
            diff_count as int == count_upto(img1@, img2@, gw, gh, gt, inc, y as int, 0),
            diff_count as int <= (y as int) * gw,
            forall|xx: int, yy: int, j: int|
                0 <= xx < gw && 0 <= yy < y as int && 0 <= j < 4 ==> diff_image@[pos_of(
                    gw,
                    xx,
                    yy,
                ) + j] == #[trigger] out_pixel(img1@, img2@, gw, gh, opts, xx, yy)[j],
            forall|i: int|
                4 * ((y as int) * gw) <= i < img1@.len() ==> diff_image@[i] == 0,
        decreases h - y,
    {
        let mut x: usize = 0;
        while x < w
            invariant
                x <= w,
                y < h,
                diff_image@.len() == img1@.len(),
                diff_count as int == count_upto(img1@, img2@, gw, gh, gt, inc, y as int, x as int),
                diff_count as int <= (y as int) * gw + x as int,
                forall|xx: int, yy: int, j: int|
                    0 <= xx < gw && 0 <= yy <= y as int && (yy < y as int || xx < x as int) && 0
                        <= j < 4 ==> diff_image@[pos_of(gw, xx, yy) + j] == #[trigger] out_pixel(
                        img1@,
                        img2@,
                        gw,
                        gh,
                        opts,
                        xx,
                        yy,
                    )[j],
                forall|i: int|
                    4 * ((y as int) * gw + x as int) <= i < img1@.len() ==> diff_image@[i] == 0,
            decreases w - x,
        {
            proof {
                lemma_pos_of_bounds(gw, gh, x as int, y as int);
            }
            let pos = (y * w + x) * 4;
            let delta = color_delta(img1, img2, pos, pos);
            let ghost prev_image = diff_image@;
            if delta > maxd {
                if opts.include_anti_alias && (anti_aliased(img1, x, y, dimensions, img2)
                    || anti_aliased(img2, x, y, dimensions, img1)) {
                    draw_pixel(&mut diff_image, pos, opts.anti_aliased_color);
                } else {
                    draw_pixel(&mut diff_image, pos, opts.diff_color);
                    diff_count = diff_count + 1;
                }
            } else {
                let g = gray_pixel(img1, pos);
                let gb = darken(g);
                draw_pixel(&mut diff_image, pos, (gb, gb, gb, 255));
            }
            proof {
                assert forall|xx: int, yy: int, j: int|
                    0 <= xx < gw && 0 <= yy <= y as int && (yy < y as int || xx < x as int) && 0
                        <= j < 4 implies diff_image@[pos_of(gw, xx, yy) + j] == #[trigger] out_pixel(
                    img1@,
                    img2@,
                    gw,
                    gh,
                    opts,
                    xx,
                    yy,
                )[j] by {
                    lemma_pos_of_lt(gw, xx, yy, x as int, y as int);
                    lemma_pos_of_bounds(gw, gh, xx, yy);
                    assert(diff_image@[pos_of(gw, xx, yy) + j] == prev_image[pos_of(gw, xx, yy)
                        + j]);
                }
                assert(diff_image@[pos_of(gw, x as int, y as int) + 0] == out_pixel(
                    img1@,
                    img2@,
                    gw,
                    gh,
                    opts,
                    x as int,
                    y as int,
                )[0]);
                assert(diff_image@[pos_of(gw, x as int, y as int) + 1] == out_pixel(
                    img1@,
                    img2@,
                    gw,
                    gh,
                    opts,
                    x as int,
                    y as int,
                )[1]);
                assert(diff_image@[pos_of(gw, x as int, y as int) + 2] == out_pixel(
                    img1@,
                    img2@,
                    gw,
                    gh,
                    opts,
                    x as int,
                    y as int,
                )[2]);
                assert(diff_image@[pos_of(gw, x as int, y as int) + 3] == out_pixel(
                    img1@,
                    img2@,
                    gw,
                    gh,
                    opts,
                    x as int,
                    y as int,
                )[3]);
            }
            x = x + 1;
        }
        y = y + 1;
        proof {
            assert((y as int) * gw == (y as int - 1) * gw + gw) by (nonlinear_arith);
            assert(count_upto(img1@, img2@, gw, gh, gt, inc, y as int, 0) == count_upto(
                img1@,
                img2@,
                gw,
                gh,
                gt,
                inc,
                y as int - 1,
                gw,
            ));
        }
    }
    proof {
        lemma_count_upto_bounds(img1@, img2@, gw, gh, gt, inc, gh, 0);
        assert(gh * gw == gw * gh) by (nonlinear_arith);
        assert(4 * (gh * gw) == 4 * gw * gh) by (nonlinear_arith);
    }
    Result::Ok(PixelmatchOutput { diff_count, diff_image })
}

} // verus!
