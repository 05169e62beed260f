//! Laws of the comparison: proved facts that relate whole runs of the
//! scanner to each other, stated over the same spec functions that
//! `pixelmatch` is specified with.

use vstd::prelude::*;

use crate::color::delta_sq_num;
use crate::color::lemma_delta_sq_symmetric;
use crate::color::pos_of;
use crate::diff::bg_pixel;
use crate::diff::count_upto;
use crate::diff::counted;
use crate::diff::diff_count_spec;
use crate::diff::flagged;
use crate::diff::max_delta_num;
use crate::diff::out_pixel;
use crate::diff::PixelmatchOption;

verus! {

/// A nonnegative threshold numerator yields a nonnegative distance bound.
proof fn lemma_max_delta_nonneg(t: int)
    requires
        0 <= t,
    ensures
        max_delta_num(t) >= 0,
{
    assert(35215 * t * t * 10_000_000_000 >= 0) by (nonlinear_arith)
        requires
            0 <= t;
}

/// No prefix of a scan of an image against itself counts any pixel.
proof fn lemma_identity_upto(img: Seq<u8>, w: int, h: int, t: int, inc_aa: bool, y: int, x: int)
    requires
        0 <= t,
        0 <= y,
        0 <= x <= w,
    ensures
        count_upto(img, img, w, h, t, inc_aa, y, x) == 0,
    decreases y, x,
{
    lemma_max_delta_nonneg(t);
    if y == 0 && x == 0 {
    } else if 0 < x {
        lemma_identity_upto(img, w, h, t, inc_aa, y, x - 1);
        assert(delta_sq_num(img, pos_of(w, x - 1, y), img, pos_of(w, x - 1, y)) == 0);
        assert(!counted(img, img, w, h, t, inc_aa, x - 1, y));
    } else {
        lemma_identity_upto(img, w, h, t, inc_aa, y - 1, w);
    }
}

/// Comparing an image with itself counts no pixel, and every output pixel
/// is the grayscale background rendering of that image.
pub proof fn lemma_identity(img: Seq<u8>, w: int, h: int, opts: PixelmatchOption)
    requires
        0 <= w,
        0 <= h,
    ensures
        diff_count_spec(img, img, w, h, opts.threshold as int, opts.include_anti_alias) == 0,
        forall|x: int, y: int|
            0 <= x < w && 0 <= y < h ==> #[trigger] out_pixel(img, img, w, h, opts, x, y)
                == bg_pixel(img, w, x, y),
{
    lemma_identity_upto(img, w, h, opts.threshold as int, opts.include_anti_alias, h, 0);
    lemma_max_delta_nonneg(opts.threshold as int);
    assert forall|x: int, y: int| 0 <= x < w && 0 <= y < h implies #[trigger] out_pixel(
        img,
        img,
        w,
        h,
        opts,
        x,
        y,
    ) == bg_pixel(img, w, x, y) by {
        assert(delta_sq_num(img, pos_of(w, x, y), img, pos_of(w, x, y)) == 0);
        assert(!flagged(img, img, w, opts.threshold as int, x, y));
    }
}

/// Prefix counts agree when the two images swap roles.
proof fn lemma_symmetry_upto(
    a: Seq<u8>,
    b: Seq<u8>,
    w: int,
    h: int,
    t: int,
    inc_aa: bool,
    y: int,
    x: int,
)
    requires
        0 <= y,
        0 <= x <= w,
    ensures
        count_upto(a, b, w, h, t, inc_aa, y, x) == count_upto(b, a, w, h, t, inc_aa, y, x),
    decreases y, x,
{
    if y == 0 && x == 0 {
    } else if 0 < x {
        lemma_symmetry_upto(a, b, w, h, t, inc_aa, y, x - 1);
        lemma_delta_sq_symmetric(a, pos_of(w, x - 1, y), b, pos_of(w, x - 1, y));
        assert(counted(a, b, w, h, t, inc_aa, x - 1, y) == counted(b, a, w, h, t, inc_aa, x - 1, y));
    } else {
        lemma_symmetry_upto(a, b, w, h, t, inc_aa, y - 1, w);
    }
}

/// The diff count does not depend on the order of the two images: the
/// distance metric is symmetric, and anti-aliasing is tried with both
/// images as the subject either way.
pub proof fn lemma_diff_count_symmetric(a: Seq<u8>, b: Seq<u8>, w: int, h: int, t: int, inc_aa: bool)
    requires
        0 <= w,
        0 <= h,
    ensures
        diff_count_spec(a, b, w, h, t, inc_aa) == diff_count_spec(b, a, w, h, t, inc_aa),
{
    lemma_symmetry_upto(a, b, w, h, t, inc_aa, h, 0);
}

/// A larger threshold flags no pixel that a smaller one lets pass.
proof fn lemma_monotone_upto(
    img1: Seq<u8>,
    img2: Seq<u8>,
    w: int,
    h: int,
    t1: int,
    t2: int,
    inc_aa: bool,
    y: int,
    x: int,
)
    requires
        0 <= t1 <= t2,
        0 <= y,
        0 <= x <= w,
    ensures
        count_upto(img1, img2, w, h, t2, inc_aa, y, x) <= count_upto(
            img1,
            img2,
            w,
            h,
            t1,
            inc_aa,
            y,
            x,
        ),
    decreases y, x,
{
    if y == 0 && x == 0 {
    } else if 0 < x {
        lemma_monotone_upto(img1, img2, w, h, t1, t2, inc_aa, y, x - 1);
        assert(35215 * t1 * t1 * 10_000_000_000 <= 35215 * t2 * t2 * 10_000_000_000)
            by (nonlinear_arith)
            requires
                0 <= t1 <= t2;
        assert(counted(img1, img2, w, h, t2, inc_aa, x - 1, y) ==> counted(
            img1,
            img2,
            w,
            h,
            t1,
            inc_aa,
            x - 1,
            y,
        ));
    } else {
        lemma_monotone_upto(img1, img2, w, h, t1, t2, inc_aa, y - 1, w);
    }
}

/// Raising the threshold never raises the diff count.
pub proof fn lemma_threshold_monotone(
    img1: Seq<u8>,
    img2: Seq<u8>,
    w: int,
    h: int,
    t1: int,
    t2: int,
    inc_aa: bool,
)
    requires
        0 <= t1 <= t2,
        0 <= w,
        0 <= h,
    ensures
        diff_count_spec(img1, img2, w, h, t2, inc_aa) <= diff_count_spec(
            img1,
            img2,
            w,
            h,
            t1,
            inc_aa,
        ),
{
    lemma_monotone_upto(img1, img2, w, h, t1, t2, inc_aa, h, 0);
}

} // verus!
