use pixelmatch::pixelmatch;
use pixelmatch::PixelmatchError;
use pixelmatch::PixelmatchOption;

#[test]
fn should_detect_1pixel_diff() {
    let img1 = vec![255, 255, 255, 255, 0, 0, 0, 0, 0, 0, 0, 0, 0, 0, 0, 0];
    let img2 = vec![0, 0, 0, 255, 0, 0, 0, 0, 0, 0, 0, 0, 0, 0, 0, 0];
    let result = pixelmatch(&img1, &img2, (2, 2), None).unwrap();
    assert_eq!(result.diff_count, 1);
    assert_eq!(
        result.diff_image,
        vec![255, 119, 119, 255, 255, 255, 255, 255, 255, 255, 255, 255, 255, 255, 255, 255]
    );
}

#[test]
fn lib_should_detect_1pixel_diff() {
    let img1 = vec![255, 255, 255, 255, 0, 0, 0, 0, 0, 0, 0, 0, 0, 0, 0, 0];
    let img2 = vec![0, 0, 0, 255, 0, 0, 0, 0, 0, 0, 0, 0, 0, 0, 0, 0];
    let result = pixelmatch(&img1, &img2, (2, 2), None).unwrap();
    assert_eq!(result.diff_count, 1);
    // The three unchanged pixels are fully transparent black, which blends
    // against the white background to opaque white.
    assert_eq!(
        result.diff_image,
        vec![255, 119, 119, 255, 255, 255, 255, 255, 255, 255, 255, 255, 255, 255, 255, 255]
    );
}

#[test]
fn identity_counts_nothing_and_renders_background() {
    let img = vec![10, 20, 30, 40, 200, 100, 50, 255, 0, 0, 0, 0, 128, 128, 128, 128];
    let result = pixelmatch(&img, &img, (2, 2), None).unwrap();
    assert_eq!(result.diff_count, 0);
    assert_eq!(
        result.diff_image,
        vec![251, 251, 251, 255, 241, 241, 241, 255, 255, 255, 255, 255, 248, 248, 248, 255]
    );
}

#[test]
fn diff_count_is_symmetric() {
    let a = vec![255, 0, 0, 255, 0, 255, 0, 255, 0, 0, 255, 255, 255, 255, 0, 255];
    let b = vec![0, 0, 255, 255, 0, 255, 0, 255, 255, 0, 0, 255, 10, 10, 10, 255];
    let ab = pixelmatch(&a, &b, (2, 2), None).unwrap();
    let ba = pixelmatch(&b, &a, (2, 2), None).unwrap();
    assert_eq!(ab.diff_count, 3);
    assert_eq!(ba.diff_count, 3);
    let opts = PixelmatchOption {
        include_anti_alias: true,
        ..PixelmatchOption::default()
    };
    let ab_aa = pixelmatch(&a, &b, (2, 2), Some(opts)).unwrap();
    let ba_aa = pixelmatch(&b, &a, (2, 2), Some(opts)).unwrap();
    assert_eq!(ab_aa.diff_count, ba_aa.diff_count);
}

#[test]
fn raising_threshold_never_raises_count() {
    let a = vec![128, 128, 128, 255];
    let b = vec![160, 160, 160, 255];
    let low = pixelmatch(
        &a,
        &b,
        (1, 1),
        Some(PixelmatchOption {
            threshold: 10_000,
            ..PixelmatchOption::default()
        }),
    )
    .unwrap();
    let high = pixelmatch(
        &a,
        &b,
        (1, 1),
        Some(PixelmatchOption {
            threshold: 20_000,
            ..PixelmatchOption::default()
        }),
    )
    .unwrap();
    assert_eq!(low.diff_count, 1);
    assert_eq!(high.diff_count, 0);
    assert!(high.diff_count <= low.diff_count);
    assert_eq!(low.diff_image, vec![255, 119, 119, 255]);
    assert_eq!(high.diff_image, vec![242, 242, 242, 255]);
}

#[test]
fn unequal_lengths_are_rejected() {
    let a = vec![1, 2, 3, 4, 5, 6, 7, 8];
    let b = vec![1, 2, 3, 4];
    let err = pixelmatch(&a, &b, (1, 1), None).unwrap_err();
    assert_eq!(err, PixelmatchError::ImageLengthError);
}

#[test]
fn non_multiple_of_four_is_rejected() {
    let a = vec![1, 2, 3, 4, 5, 6];
    let b = vec![6, 5, 4, 3, 2, 1];
    let err = pixelmatch(&a, &b, (1, 1), None).unwrap_err();
    assert_eq!(err, PixelmatchError::InvalidFormatError);
}

#[test]
fn diff_count_is_bounded_by_pixel_count() {
    let white = vec![255, 255, 255, 255, 255, 255, 255, 255, 255, 255, 255, 255, 255, 255, 255, 255];
    let black = vec![0, 0, 0, 255, 0, 0, 0, 255, 0, 0, 0, 255, 0, 0, 0, 255];
    let result = pixelmatch(&white, &black, (2, 2), None).unwrap();
    assert_eq!(result.diff_count, 4);
    assert!(result.diff_count <= 4);
}

#[test]
fn empty_image_yields_empty_diff() {
    let a: Vec<u8> = Vec::new();
    let b: Vec<u8> = Vec::new();
    let result = pixelmatch(&a, &b, (0, 0), None).unwrap();
    assert_eq!(result.diff_count, 0);
    assert_eq!(result.diff_image, Vec::<u8>::new());
}

#[test]
fn bytes_past_the_scanned_pixels_stay_zero() {
    let a = vec![50, 60, 70, 255, 50, 60, 70, 255, 9, 9, 9, 9, 8, 8, 8, 8];
    let b = vec![50, 60, 70, 255, 50, 60, 70, 255, 1, 2, 3, 4, 5, 6, 7, 8];
    let result = pixelmatch(&a, &b, (1, 2), None).unwrap();
    assert_eq!(result.diff_count, 0);
    assert_eq!(
        result.diff_image,
        vec![235, 235, 235, 255, 235, 235, 235, 255, 0, 0, 0, 0, 0, 0, 0, 0]
    );
}

fn gradient_pair() -> (Vec<u8>, Vec<u8>) {
    // Three rows of five pixels: black, mid gray, white. The second image
    // changes the middle pixel of the gray row to a lighter gray, so the
    // change sits on a smooth vertical brightness ramp.
    let mut img1 = Vec::new();
    for color in [[0u8, 0, 0, 255], [128, 128, 128, 255], [255, 255, 255, 255]] {
        for _ in 0..5 {
            img1.extend_from_slice(&color);
        }
    }
    let mut img2 = img1.clone();
    let pos = (5 + 2) * 4;
    img2[pos..pos + 4].copy_from_slice(&[160, 160, 160, 255]);
    (img1, img2)
}

#[test]
fn anti_aliased_difference_is_suppressed_when_enabled() {
    let (img1, img2) = gradient_pair();
    let opts = PixelmatchOption {
        include_anti_alias: true,
        ..PixelmatchOption::default()
    };
    let result = pixelmatch(&img1, &img2, (5, 3), Some(opts)).unwrap();
    assert_eq!(result.diff_count, 0);
    let pos = (5 + 2) * 4;
    assert_eq!(&result.diff_image[pos..pos + 4], &[243, 156, 18, 255]);
}

#[test]
fn anti_aliased_difference_is_counted_when_disabled() {
    let (img1, img2) = gradient_pair();
    let result = pixelmatch(&img1, &img2, (5, 3), None).unwrap();
    assert_eq!(result.diff_count, 1);
    let pos = (5 + 2) * 4;
    assert_eq!(&result.diff_image[pos..pos + 4], &[255, 119, 119, 255]);
}

#[test]
fn custom_colors_are_honored() {
    let a = vec![255, 255, 255, 255];
    let b = vec![0, 0, 0, 255];
    let opts = PixelmatchOption {
        diff_color: (1, 2, 3, 4),
        ..PixelmatchOption::default()
    };
    let result: pixelmatch::PixelmatchResult =
        pixelmatch(&a, &b, (1, 1), Some(opts)).unwrap();
    assert_eq!(result.diff_count, 1);
    assert_eq!(result.diff_image, vec![1, 2, 3, 4]);
}

#[test]
fn zero_width_image_is_ok() {
    let a: Vec<u8> = Vec::new();
    let b: Vec<u8> = Vec::new();
    let result = pixelmatch(&a, &b, (0, 5), None).unwrap();
    assert_eq!(result.diff_count, 0);
    assert!(result.diff_image.is_empty());
}
