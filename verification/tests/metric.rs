use pixelmatch::anti_aliased;
use pixelmatch::color_delta;
use pixelmatch::gray_pixel;
use pixelmatch::has_many_siblings;
use pixelmatch::PixelmatchOption;

#[test]
fn default_options_match_the_reference() {
    let opts = PixelmatchOption::default();
    assert!(!opts.include_anti_alias);
    assert_eq!(opts.threshold, 10_000);
    assert_eq!(opts.diff_color, (255, 119, 119, 255));
    assert_eq!(opts.anti_aliased_color, (243, 156, 18, 255));
}

#[test]
fn color_delta_of_identical_samples_is_zero() {
    let img = vec![12, 34, 56, 78];
    assert_eq!(color_delta(&img, &img, 0, 0), 0);
}

#[test]
fn color_delta_of_white_and_black_is_exact() {
    let white = vec![255, 255, 255, 255];
    let black = vec![0, 0, 0, 255];
    // 0.5053*dy^2 + 0.299*di^2 + 0.1957*dq^2 at the 10^20 scale,
    // with dy, di, dq the differences of the exact YIQ numerators.
    assert_eq!(color_delta(&white, &black, 0, 0), 3_285_713_315_714_265_328_571_325);
    assert_eq!(
        color_delta(&black, &white, 0, 0),
        color_delta(&white, &black, 0, 0)
    );
}

#[test]
fn gray_pixel_blends_alpha_against_white() {
    // Half-transparent sample: each channel is first blended toward white,
    // then projected onto the luma axis and truncated.
    let img = vec![100, 150, 200, 128];
    assert_eq!(gray_pixel(&img, 0), 197);
    // A fully transparent sample blends to pure white.
    let clear = vec![0, 0, 0, 0];
    assert_eq!(gray_pixel(&clear, 0), 255);
    // An opaque gray keeps its level.
    let gray = vec![77, 77, 77, 255];
    assert_eq!(gray_pixel(&gray, 0), 77);
}

#[test]
fn uniform_region_has_many_siblings() {
    let img = vec![7, 7, 7, 255].repeat(9);
    assert!(has_many_siblings(&img, 1, 1, 3, 3));
}

#[test]
fn distinct_region_has_no_siblings() {
    let mut img = Vec::new();
    for k in 0..9u8 {
        img.extend_from_slice(&[k, k, k, 255]);
    }
    assert!(!has_many_siblings(&img, 1, 1, 3, 3));
}

#[test]
fn ramp_pixel_is_anti_aliased() {
    let mut img1 = Vec::new();
    for color in [[0u8, 0, 0, 255], [128, 128, 128, 255], [255, 255, 255, 255]] {
        for _ in 0..5 {
            img1.extend_from_slice(&color);
        }
    }
    let mut img2 = img1.clone();
    let pos = (5 + 2) * 4;
    img2[pos..pos + 4].copy_from_slice(&[160, 160, 160, 255]);
    assert!(anti_aliased(&img1, 2, 1, (5, 3), &img2));
    assert!(anti_aliased(&img2, 2, 1, (5, 3), &img1));
}

#[test]
fn flat_pixel_is_not_anti_aliased() {
    // A pixel surrounded by more than two identical neighbors sits in a
    // flat region, not on an edge.
    let img1 = vec![9, 9, 9, 255].repeat(9);
    let img2 = vec![200, 200, 200, 255].repeat(9);
    assert!(!anti_aliased(&img1, 1, 1, (3, 3), &img2));
}

#[test]
fn draw_pixel_writes_exactly_four_bytes() {
    let mut buf = vec![9u8; 12];
    pixelmatch::draw_pixel(&mut buf, 4, (10, 20, 30, 40));
    assert_eq!(buf, vec![9, 9, 9, 9, 10, 20, 30, 40, 9, 9, 9, 9]);
}

#[test]
fn corner_pixel_counts_border_seed() {
    // A corner of a uniform 2x2 image: one seed for the clamped window plus
    // three identical neighbors.
    let img = vec![5, 5, 5, 255].repeat(4);
    assert!(has_many_siblings(&img, 0, 0, 2, 2));
}
