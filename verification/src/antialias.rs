//! The anti-alias classifier: decides whether a differing pixel is part of
//! an anti-aliased edge by scanning its up-to-eight neighbors.
//!
//! The scan walks the clamped 3x3 window around the center column by
//! column, counting neighbors of equal brightness and remembering the
//! darkest and the brightest neighbor. Its result is specified by a fold
//! (`aa_scan_upto`, `hms_upto`) over the window cells in that same order.

use vstd::prelude::*;

use crate::color::brightness_delta;
use crate::color::bright_delta_t;
use crate::color::lemma_pos_of_bounds;
use crate::color::pos_of;
use crate::color::same_pixel;

verus! {

/// Leftmost column of the neighbor window around column `cx`.
pub open spec fn win_x0(cx: int) -> int {
    if cx >= 1 {
        cx - 1
    } else {
        0
    }
}

/// Topmost row of the neighbor window around row `cy`.
pub open spec fn win_y0(cy: int) -> int {
    if cy >= 1 {
        cy - 1
    } else {
        0
    }
}

/// Rightmost column of the neighbor window, clamped to the image.
pub open spec fn win_x2(cx: int, w: int) -> int {
    if cx + 1 <= w - 1 {
        cx + 1
    } else {
        w - 1
    }
}

/// Bottom row of the neighbor window, clamped to the image.
pub open spec fn win_y2(cy: int, h: int) -> int {
    if cy + 1 <= h - 1 {
        cy + 1
    } else {
        h - 1
    }
}

/// A pixel on an image edge starts with one equal neighbor already counted.
pub open spec fn border_seed(cx: int, cy: int, w: int, h: int) -> int {
    if cx == win_x0(cx) || cx == win_x2(cx, w) || cy == win_y0(cy) || cy == win_y2(cy, h) {
        1
    } else {
        0
    }
}

/// Count of identical neighbors after the window cells before column `x`,
/// and before row `y` within column `x`, have been scanned.
pub open spec fn hms_upto(img: Seq<u8>, cx: int, cy: int, w: int, h: int, x: int, y: int) -> int
    decreases 4 * (x - win_x0(cx)) + (y - win_y0(cy)),
{
    let x0 = win_x0(cx);
    let y0 = win_y0(cy);
    let y2 = win_y2(cy, h);
    if x == x0 && y == y0 {
        border_seed(cx, cy, w, h)
    } else if x >= x0 && y0 < y <= y2 + 1 {
        hms_upto(img, cx, cy, w, h, x, y - 1) + if (x != cx || y - 1 != cy) && same_pixel(
            img,
            pos_of(w, cx, cy),
            pos_of(w, x, y - 1),
        ) {
            1int
        } else {
            0int
        }
    } else if x > x0 && y == y0 && y0 <= y2 {
        hms_upto(img, cx, cy, w, h, x - 1, y2 + 1)
    } else {
        border_seed(cx, cy, w, h)
    }
}

/// Count of identical neighbors over the whole window.
pub open spec fn hms_total(img: Seq<u8>, cx: int, cy: int, w: int, h: int) -> int {
    hms_upto(img, cx, cy, w, h, win_x2(cx, w) + 1, win_y0(cy))
}

/// The pixel at `(cx, cy)` has more than two neighbors with identical raw
/// RGBA bytes, a pixel on an image edge being granted one for free.
pub open spec fn spec_has_many_siblings(img: Seq<u8>, cx: int, cy: int, w: int, h: int) -> bool {
    hms_total(img, cx, cy, w, h) > 2
}

/// State of the neighbor scan: equal-brightness count, the most negative
/// brightness delta seen with its coordinates, and the most positive one.
pub struct AaState {
    pub zeroes: int,
    pub min_d: int,
    pub min_x: int,
    pub min_y: int,
    pub max_d: int,
    pub max_x: int,
    pub max_y: int,
}

/// Scan state before any neighbor has been visited.
pub open spec fn aa_init(cx: int, cy: int, w: int, h: int) -> AaState {
    AaState {
        zeroes: border_seed(cx, cy, w, h),
        min_d: 0,
        min_x: 0,
        min_y: 0,
        max_d: 0,
        max_x: 0,
        max_y: 0,
    }
}

/// One neighbor with truncated brightness delta `t` at `(x, y)`: an equal
/// neighbor bumps the counter, a strictly darker or strictly brighter one
/// replaces the running extremum.
pub open spec fn aa_step(st: AaState, t: int, x: int, y: int) -> AaState {
    if t == 0 {
        AaState { zeroes: st.zeroes + 1, ..st }
    } else if t < st.min_d {
        AaState { min_d: t, min_x: x, min_y: y, ..st }
    } else if t > st.max_d {
        AaState { max_d: t, max_x: x, max_y: y, ..st }
    } else {
        st
    }
}

/// Scan state after the window cells before column `x`, and before row `y`
/// within column `x`, have been visited (the center cell is skipped).
pub open spec fn aa_scan_upto(
    img: Seq<u8>,
    cx: int,
    cy: int,
    w: int,
    h: int,
    x: int,
    y: int,
) -> AaState
    decreases 4 * (x - win_x0(cx)) + (y - win_y0(cy)),
{
    let x0 = win_x0(cx);
    let y0 = win_y0(cy);
    let y2 = win_y2(cy, h);
    if x == x0 && y == y0 {
        aa_init(cx, cy, w, h)
    } else if x >= x0 && y0 < y <= y2 + 1 {
        let st = aa_scan_upto(img, cx, cy, w, h, x, y - 1);
        if x == cx && y - 1 == cy {
            st
        } else {
            aa_step(st, bright_delta_t(img, pos_of(w, cx, cy), pos_of(w, x, y - 1)), x, y - 1)
        }
    } else if x > x0 && y == y0 && y0 <= y2 {
        aa_scan_upto(img, cx, cy, w, h, x - 1, y2 + 1)
    } else {
        aa_init(cx, cy, w, h)
    }
}

/// Scan state over the whole window.
pub open spec fn aa_scan_total(img: Seq<u8>, cx: int, cy: int, w: int, h: int) -> AaState {
    aa_scan_upto(img, cx, cy, w, h, win_x2(cx, w) + 1, win_y0(cy))
}

/// The pixel at `(cx, cy)` of `sub` is classified as anti-aliased: it has
/// at most two equal-brightness neighbors, both a darker and a brighter
/// neighbor, and its darkest or its brightest neighbor sits in a flat
/// region of both images.
pub open spec fn spec_anti_aliased(
    sub: Seq<u8>,
    other: Seq<u8>,
    cx: int,
    cy: int,
    w: int,
    h: int,
) -> bool {
    let st = aa_scan_total(sub, cx, cy, w, h);
    if st.zeroes > 2 {
        false
    } else if st.min_d == 0 || st.max_d == 0 {
        false
    } else {
        (spec_has_many_siblings(sub, st.min_x, st.min_y, w, h) && spec_has_many_siblings(
            other,
            st.min_x,
            st.min_y,
            w,
            h,
        )) || (spec_has_many_siblings(sub, st.max_x, st.max_y, w, h) && spec_has_many_siblings(
            other,
            st.max_x,
            st.max_y,
            w,
            h,
        ))
    }
}

/// The identical-neighbor count can only grow as the scan proceeds.
proof fn lemma_hms_upto_le_total(img: Seq<u8>, cx: int, cy: int, w: int, h: int, x: int, y: int)
    requires
        0 <= cx < w,
        0 <= cy < h,
        win_x0(cx) <= x <= win_x2(cx, w),
        win_y0(cy) <= y <= win_y2(cy, h) + 1,
    ensures
        hms_upto(img, cx, cy, w, h, x, y) <= hms_total(img, cx, cy, w, h),
    decreases 4 * (win_x2(cx, w) - x) + (win_y2(cy, h) + 1 - y),
{
    let x2 = win_x2(cx, w);
    let y0 = win_y0(cy);
    let y2 = win_y2(cy, h);
    if y <= y2 {
        lemma_hms_upto_le_total(img, cx, cy, w, h, x, y + 1);
    } else if x < x2 {
        assert(hms_upto(img, cx, cy, w, h, x + 1, y0) == hms_upto(img, cx, cy, w, h, x, y2 + 1));
        lemma_hms_upto_le_total(img, cx, cy, w, h, x + 1, y0);
    }
}

/// The equal-brightness count can only grow as the scan proceeds.
proof fn lemma_aa_zeroes_le_total(img: Seq<u8>, cx: int, cy: int, w: int, h: int, x: int, y: int)
    requires
        0 <= cx < w,
        0 <= cy < h,
        win_x0(cx) <= x <= win_x2(cx, w),
        win_y0(cy) <= y <= win_y2(cy, h) + 1,
    ensures
        aa_scan_upto(img, cx, cy, w, h, x, y).zeroes <= aa_scan_total(img, cx, cy, w, h).zeroes,
    decreases 4 * (win_x2(cx, w) - x) + (win_y2(cy, h) + 1 - y),
{
    let x2 = win_x2(cx, w);
    let y0 = win_y0(cy);
    let y2 = win_y2(cy, h);
    if y <= y2 {
        lemma_aa_zeroes_le_total(img, cx, cy, w, h, x, y + 1);
    } else if x < x2 {
        assert(aa_scan_upto(img, cx, cy, w, h, x + 1, y0) == aa_scan_upto(
            img,
            cx,
            cy,
            w,
            h,
            x,
            y2 + 1,
        ));
        lemma_aa_zeroes_le_total(img, cx, cy, w, h, x + 1, y0);
    }
}

/// Invariants of the scan state: the extrema have the right signs and, when
/// set, their coordinates name a window cell other than the center.
proof fn lemma_aa_scan_wf(img: Seq<u8>, cx: int, cy: int, w: int, h: int, x: int, y: int)
    requires
        0 <= cx < w,
        0 <= cy < h,
        (win_x0(cx) <= x <= win_x2(cx, w) && win_y0(cy) <= y <= win_y2(cy, h) + 1) || (x == win_x2(
            cx,
            w,
        ) + 1 && y == win_y0(cy)),
    ensures
        aa_scan_upto(img, cx, cy, w, h, x, y).min_d <= 0,
        aa_scan_upto(img, cx, cy, w, h, x, y).max_d >= 0,
        aa_scan_upto(img, cx, cy, w, h, x, y).min_d < 0 ==> win_x0(cx) <= aa_scan_upto(
            img,
            cx,
            cy,
            w,
            h,
            x,
            y,
        ).min_x <= win_x2(cx, w) && win_y0(cy) <= aa_scan_upto(img, cx, cy, w, h, x, y).min_y
            <= win_y2(cy, h),
        aa_scan_upto(img, cx, cy, w, h, x, y).max_d > 0 ==> win_x0(cx) <= aa_scan_upto(
            img,
            cx,
            cy,
            w,
            h,
            x,
            y,
        ).max_x <= win_x2(cx, w) && win_y0(cy) <= aa_scan_upto(img, cx, cy, w, h, x, y).max_y
            <= win_y2(cy, h),
    decreases 4 * (x - win_x0(cx)) + (y - win_y0(cy)),
{
    let x0 = win_x0(cx);
    let y0 = win_y0(cy);
    let y2 = win_y2(cy, h);
    if x == x0 && y == y0 {
    } else if x >= x0 && y0 < y <= y2 + 1 {
        lemma_aa_scan_wf(img, cx, cy, w, h, x, y - 1);
    } else if x > x0 && y == y0 && y0 <= y2 {
        lemma_aa_scan_wf(img, cx, cy, w, h, x - 1, y2 + 1);
    }
}

/// Whether the pixel at `(x1, y1)` has more than two neighbors (border seed
/// included) whose raw RGBA bytes equal its own.
#[verifier::loop_isolation(false)]
#[verifier::rlimit(60)]
pub fn has_many_siblings(img: &Vec<u8>, x1: usize, y1: usize, width: u32, height: u32) -> (r: bool)
    requires
        (x1 as int) < width as int,
        (y1 as int) < height as int,
        4 * (width as int) * (height as int) <= img@.len(),
    ensures
        r == spec_has_many_siblings(img@, x1 as int, y1 as int, width as int, height as int),
{
    let w = width as usize;
    let h = height as usize;
    let ghost cx = x1 as int;
    let ghost cy = y1 as int;
    proof {
        lemma_pos_of_bounds(w as int, h as int, cx, cy);
        assert(4 * (w as int) * (h as int) <= img.len());
    }
    let x0 = if x1 > 0 {
        x1 - 1
    } else {
        0
    };
    let y0 = if y1 > 0 {
        y1 - 1
    } else {
        0
    };
    let x2 = if x1 + 1 < w {
        x1 + 1
    } else {
        w - 1
    };
    let y2 = if y1 + 1 < h {
        y1 + 1
    } else {
        h - 1
    };
    let cpos = (y1 * w + x1) * 4;
    let mut zeroes: u32 = if x1 == x0 || x1 == x2 || y1 == y0 || y1 == y2 {
        1
    } else {
        0
    };
    let mut x = x0;
    while x <= x2
        invariant
            x0 <= x <= x2 + 1,
            zeroes as int == hms_upto(img@, cx, cy, w as int, h as int, x as int, y0 as int),
            zeroes <= 2,
        decreases x2 + 1 - x,
    {
        let mut y = y0;
        while y <= y2
            invariant
                x0 <= x <= x2,
                y0 <= y <= y2 + 1,
                zeroes as int == hms_upto(img@, cx, cy, w as int, h as int, x as int, y as int),
                zeroes <= 2,
            decreases y2 + 1 - y,
        {
            if !(x == x1 && y == y1) {
                proof {
                    lemma_pos_of_bounds(w as int, h as int, x as int, y as int);
                }
                let npos = (y * w + x) * 4;
                if img[cpos] == img[npos] && img[cpos + 1] == img[npos + 1] && img[cpos + 2]
                    == img[npos + 2] && img[cpos + 3] == img[npos + 3] {
                    zeroes = zeroes + 1;
                }
                if zeroes > 2 {
                    proof {
                        lemma_hms_upto_le_total(
                            img@,
                            cx,
                            cy,
                            w as int,
                            h as int,
                            x as int,
                            y as int + 1,
                        );
                    }
                    return true;
                }
            }
            y = y + 1;
        }
        x = x + 1;
        proof {
            assert(hms_upto(img@, cx, cy, w as int, h as int, x as int, y0 as int) == hms_upto(
                img@,
                cx,
                cy,
                w as int,
                h as int,
                x as int - 1,
                y2 as int + 1,
            ));
        }
    }
    false
}

/// Whether the pixel at `(x1, y1)` of `img1` is likely part of an
/// anti-aliased edge, cross-checked against the same coordinates of `img2`.
#[verifier::loop_isolation(false)]
#[verifier::rlimit(100)]
pub fn anti_aliased(
    img1: &Vec<u8>,
    x1: usize,
    y1: usize,
    dimensions: (u32, u32),
    img2: &Vec<u8>,
) -> (r: bool)
    requires
        (x1 as int) < dimensions.0 as int,
        (y1 as int) < dimensions.1 as int,
        4 * (dimensions.0 as int) * (dimensions.1 as int) <= img1@.len(),
        4 * (dimensions.0 as int) * (dimensions.1 as int) <= img2@.len(),
    ensures
        r == spec_anti_aliased(
            img1@,
            img2@,
            x1 as int,
            y1 as int,
            dimensions.0 as int,
            dimensions.1 as int,
        ),
{
    let (width, height) = dimensions;
    let w = width as usize;
    let h = height as usize;
    let ghost cx = x1 as int;
    let ghost cy = y1 as int;
    proof {
        lemma_pos_of_bounds(w as int, h as int, cx, cy);
        assert(4 * (w as int) * (h as int) <= img1.len());
    }
    let x0 = if x1 > 0 {
        x1 - 1
    } else {
        0
    };
    let y0 = if y1 > 0 {
        y1 - 1
    } else {
        0
    };
    let x2 = if x1 + 1 < w {
        x1 + 1
    } else {
        w - 1
    };
    let y2 = if y1 + 1 < h {
        y1 + 1
    } else {
        h - 1
    };
    let cpos = (y1 * w + x1) * 4;
    let mut zeroes: u32 = if x1 == x0 || x1 == x2 || y1 == y0 || y1 == y2 {
        1
    } else {
        0
    };
    let mut min_d: i32 = 0;
    let mut max_d: i32 = 0;
    let mut min_x: usize = 0;
    let mut min_y: usize = 0;
    let mut max_x: usize = 0;
    let mut max_y: usize = 0;
    let mut x = x0;
    while x <= x2
        invariant
            x0 <= x <= x2 + 1,
            (aa_scan_upto(img1@, cx, cy, w as int, h as int, x as int, y0 as int) == (AaState {
                zeroes: zeroes as int,
                min_d: min_d as int,
                min_x: min_x as int,
                min_y: min_y as int,
                max_d: max_d as int,
                max_x: max_x as int,
                max_y: max_y as int,
            })),
            zeroes <= 2,
        decreases x2 + 1 - x,
    {
        let mut y = y0;
        while y <= y2
            invariant
                x0 <= x <= x2,
                y0 <= y <= y2 + 1,
                (aa_scan_upto(img1@, cx, cy, w as int, h as int, x as int, y as int) == (AaState {
                    zeroes: zeroes as int,
                    min_d: min_d as int,
                    min_x: min_x as int,
                    min_y: min_y as int,
                    max_d: max_d as int,
                    max_x: max_x as int,
                    max_y: max_y as int,
                })),
                zeroes <= 2,
            decreases y2 + 1 - y,
        {
            if !(x == x1 && y == y1) {
                proof {
                    lemma_pos_of_bounds(w as int, h as int, x as int, y as int);
                }
                let npos = (y * w + x) * 4;
                let t = brightness_delta(img1, cpos, npos);
                if t == 0 {
                    zeroes = zeroes + 1;
                    if zeroes > 2 {
                        proof {
                            lemma_aa_zeroes_le_total(
                                img1@,
                                cx,
                                cy,
                                w as int,
                                h as int,
                                x as int,
                                y as int + 1,
                            );
                        }
                        return false;
                    }
                } else if t < min_d {
                    min_d = t;
                    min_x = x;
                    min_y = y;
                } else if t > max_d {
                    max_d = t;
                    max_x = x;
                    max_y = y;
                }
            }
            y = y + 1;
        }
        x = x + 1;
        proof {
            assert(aa_scan_upto(img1@, cx, cy, w as int, h as int, x as int, y0 as int)
                == aa_scan_upto(img1@, cx, cy, w as int, h as int, x as int - 1, y2 as int + 1));
        }
    }
    proof {
        assert(aa_scan_total(img1@, cx, cy, w as int, h as int) == (AaState {
            zeroes: zeroes as int,
            min_d: min_d as int,
            min_x: min_x as int,
            min_y: min_y as int,
            max_d: max_d as int,
            max_x: max_x as int,
            max_y: max_y as int,
        }));
    }
    if min_d == 0 || max_d == 0 {
        return false;
    }
    proof {
        lemma_aa_scan_wf(img1@, cx, cy, w as int, h as int, x2 as int + 1, y0 as int);
    }
    (has_many_siblings(img1, min_x, min_y, width, height) && has_many_siblings(
        img2,
        min_x,
        min_y,
        width,
        height,
    )) || (has_many_siblings(img1, max_x, max_y, width, height) && has_many_siblings(
        img2,
        max_x,
        max_y,
        width,
        height,
    ))
}

} // verus!
