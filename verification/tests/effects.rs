use rustlock::effects::{blur_pixels, pixelate_pixels, pixelate_sums_fit};

fn sample() -> Vec<u8> {
    vec![
        10, 20, 30, 255, 40, 50, 60, 200, 70, 80, 90, 100, 0, 0, 0, 0, //
        100, 110, 120, 255, 130, 140, 150, 255, 160, 170, 180, 255, 9, 9, 9, 9,
    ]
}

#[test]
fn blur_one_pass() {
    let mut d = sample();
    assert!(blur_pixels(&mut d, 3, 2, 16, 1, 1));
    assert_eq!(
        d,
        vec![
            70, 80, 90, 255, 85, 95, 105, 200, 100, 110, 120, 100, 0, 0, 0, 0, //
            70, 80, 90, 255, 85, 95, 105, 255, 100, 110, 120, 255, 9, 9, 9, 9,
        ]
    );
}

#[test]
fn blurring_in_parts_equals_blurring_at_once() {
    let mut whole = sample();
    assert!(blur_pixels(&mut whole, 3, 2, 16, 1, 3));
    let mut parts = sample();
    assert!(blur_pixels(&mut parts, 3, 2, 16, 1, 1));
    assert!(blur_pixels(&mut parts, 3, 2, 16, 1, 2));
    assert_eq!(parts, whole);
}

#[test]
fn blur_two_passes() {
    let mut d = sample();
    assert!(blur_pixels(&mut d, 3, 2, 16, 1, 2));
    assert_eq!(
        d,
        vec![
            77, 87, 97, 255, 85, 95, 105, 200, 92, 102, 112, 100, 0, 0, 0, 0, //
            77, 87, 97, 255, 85, 95, 105, 255, 92, 102, 112, 255, 9, 9, 9, 9,
        ]
    );
}

#[test]
fn blur_of_a_single_row_averages_along_the_row() {
    let mut d = sample();
    d.truncate(16);
    assert!(blur_pixels(&mut d, 3, 1, 16, 1, 1));
    assert_eq!(d, vec![25, 35, 45, 255, 40, 50, 60, 200, 55, 65, 75, 100, 0, 0, 0, 0]);

    let mut e = vec![61, 0, 0, 255, 0, 90, 0, 255, 0, 0, 0, 0];
    assert!(blur_pixels(&mut e, 3, 1, 12, 1, 1));
    assert_eq!(e, vec![30, 45, 0, 255, 20, 30, 0, 255, 0, 45, 0, 0]);
}

#[test]
fn blur_of_a_single_pixel_keeps_it() {
    let mut d = vec![200, 100, 50, 255];
    assert!(blur_pixels(&mut d, 1, 1, 4, 3, 2));
    assert_eq!(d, vec![200, 100, 50, 255]);
}

#[test]
fn blur_with_zero_radius_or_passes_changes_nothing() {
    let mut d = sample();
    assert!(blur_pixels(&mut d, 3, 2, 16, 0, 3));
    assert_eq!(d, sample());
    assert!(blur_pixels(&mut d, 3, 2, 16, 4, 0));
    assert_eq!(d, sample());
}

fn ramp() -> Vec<u8> {
    (0..64u32).map(|i| ((i * 7) % 256) as u8).collect()
}

#[test]
fn pixelate_in_two_by_two_blocks() {
    let mut d = ramp();
    pixelate_pixels(&mut d, 4, 4, 16, 2);
    assert_eq!(
        d,
        vec![
            70, 77, 84, 21, 70, 77, 84, 49, 126, 133, 140, 77, 126, 133, 140, 105, //
            70, 77, 84, 133, 70, 77, 84, 161, 126, 133, 140, 189, 126, 133, 140, 217, //
            166, 109, 116, 245, 166, 109, 116, 17, 94, 101, 108, 45, 94, 101, 108, 73, //
            166, 109, 116, 101, 166, 109, 116, 129, 94, 101, 108, 157, 94, 101, 108, 185,
        ]
    );
}

#[test]
fn pixelate_clips_edge_blocks() {
    let mut d = ramp();
    d.truncate(36);
    pixelate_pixels(&mut d, 3, 3, 12, 2);
    assert_eq!(
        d,
        vec![
            56, 63, 70, 21, 56, 63, 70, 49, 98, 105, 112, 77, //
            56, 63, 70, 105, 56, 63, 70, 133, 98, 105, 112, 161, //
            182, 189, 196, 189, 182, 189, 196, 217, 224, 231, 238, 245,
        ]
    );
}

#[test]
fn pixelating_twice_equals_pixelating_once() {
    let mut once = ramp();
    pixelate_pixels(&mut once, 4, 4, 16, 2);
    let mut twice = ramp();
    pixelate_pixels(&mut twice, 4, 4, 16, 2);
    pixelate_pixels(&mut twice, 4, 4, 16, 2);
    assert_eq!(once, twice);
    let mut clipped = ramp();
    clipped.truncate(36);
    pixelate_pixels(&mut clipped, 3, 3, 12, 2);
    let first = clipped.clone();
    pixelate_pixels(&mut clipped, 3, 3, 12, 2);
    assert_eq!(clipped, first);
}

#[test]
fn pixelate_with_size_one_changes_nothing() {
    let mut d = ramp();
    pixelate_pixels(&mut d, 4, 4, 16, 1);
    assert_eq!(d, ramp());
    pixelate_pixels(&mut d, 4, 4, 16, 0);
    assert_eq!(d, ramp());
}

#[test]
fn ordinary_blocks_fit_the_counters() {
    let d = vec![255u8; 4 * 4 * 16];
    assert!(pixelate_sums_fit(&d, 4, 4, 16, 2));
    assert!(pixelate_sums_fit(&d, 4, 4, 16, 1000));
    assert!(pixelate_sums_fit(&Vec::new(), 0, 0, 0, 2));
}

#[test]
fn a_huge_bright_block_overflows_the_counters() {
    // 4105 x 4105 white pixels: each channel sums to more than u32::MAX.
    let n = 4105usize;
    let bright = vec![255u8; n * n * 4];
    assert!(!pixelate_sums_fit(&bright, n, n, 4 * n, 5000));
    // The same block in black fits.
    let dark = vec![0u8; n * n * 4];
    assert!(pixelate_sums_fit(&dark, n, n, 4 * n, 5000));
}

#[test]
fn effects_keep_alpha_and_padding() {
    // Two pixels per row, one byte of padding after each row.
    let mut d: Vec<u8> = (0..27).map(|i| (i * 9) as u8).collect();
    let before = d.clone();
    assert!(blur_pixels(&mut d, 2, 3, 9, 1, 2));
    pixelate_pixels(&mut d, 2, 3, 9, 2);
    for i in 0..d.len() {
        let q = i % 9;
        if q >= 8 || q % 4 == 3 {
            assert_eq!(d[i], before[i]);
        }
    }
}

#[test]
fn a_huge_bright_window_overflows_the_blur_sums() {
    // One row of 16,843,010 white pixels: the first window already sums past u32::MAX.
    let n = 16_843_010usize;
    let mut bright = vec![255u8; n * 4];
    assert!(!blur_pixels(&mut bright, n, 1, 4 * n, 9_000_000, 1));
}

#[test]
fn a_huge_dark_window_blurs() {
    let n = 16_843_010usize;
    let mut dark = vec![0u8; n * 4];
    assert!(blur_pixels(&mut dark, n, 1, 4 * n, 9_000_000, 1));
    assert!(dark.iter().all(|&v| v == 0));
}
