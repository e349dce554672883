use small_recorder::detector::{and_mask, binarize, brightness, difference, score};
use small_recorder::frame::{from_yuyv_vec, reduce_color, Frame};

fn frame(width: usize, height: usize, data: Vec<u8>) -> Frame {
    Frame::new(width, height, data).expect("frame dimensions must match the buffer")
}

#[test]
fn brightness_is_the_luminance_sum() {
    let f = frame(3, 1, vec![1, 2, 3]);
    assert_eq!(brightness(&f), 6);
    let black = frame(2, 2, vec![0, 0, 0, 0]);
    assert_eq!(brightness(&black), 0);
}

#[test]
fn identical_frames_difference_is_all_zero() {
    let f = frame(4, 2, vec![10, 200, 30, 64, 65, 255, 0, 100]);
    let d = difference(&f, &f);
    assert!(d.data.iter().all(|&p| p == 0));
    assert_eq!(score(&binarize(&d, 64), 64), 0);
}

#[test]
fn black_frames_difference_is_all_zero() {
    let a = frame(2, 2, vec![0, 0, 0, 0]);
    let b = frame(2, 2, vec![0, 0, 0, 0]);
    let d = difference(&a, &b);
    assert!(d.data.iter().all(|&p| p == 0));
}

#[test]
fn a_pure_black_frame_weighs_the_other_side_to_zero() {
    // With one all-black operand both weighted products vanish, so the
    // difference is all-zero whatever the other frame holds.
    let black = frame(3, 1, vec![0, 0, 0]);
    let bright = frame(3, 1, vec![200, 10, 255]);
    let d = difference(&black, &bright);
    assert!(d.data.iter().all(|&p| p == 0));
}

#[test]
fn global_exposure_change_is_normalized_away() {
    // Second frame is the first at twice the exposure: the weighted
    // difference cancels exactly.
    let a = frame(3, 1, vec![10, 20, 30]);
    let b = frame(3, 1, vec![20, 40, 60]);
    let d = difference(&a, &b);
    assert!(d.data.iter().all(|&p| p == 0));
}

#[test]
fn difference_is_clamped_to_a_byte() {
    // One bright pixel against a dim frame drives the normalized
    // difference above 255; the result must clamp, not wrap.
    // Brightness sums are 255 and 765. Pixel 0 is
    // |255*765 - 0*255| * 2 / (255 + 765) = 382, clamped to 255; the
    // others are |0*765 - 255*255| * 2 / 1020 = 127.
    let a = frame(4, 1, vec![255, 0, 0, 0]);
    let b = frame(4, 1, vec![0, 255, 255, 255]);
    let d = difference(&a, &b);
    assert_eq!(d.data, vec![255, 127, 127, 127]);
}

#[test]
fn binarize_thresholds_strictly() {
    let f = frame(4, 1, vec![0, 64, 65, 255]);
    let m = binarize(&f, 64);
    assert_eq!(m.data, vec![0, 0, 255, 255]);
}

#[test]
fn and_mask_keeps_close_pixels_and_zeroes_the_rest() {
    let a = frame(4, 1, vec![100, 100, 100, 255]);
    let b = frame(4, 1, vec![60, 149, 150, 0]);
    let m = and_mask(&a, &b, 50);
    assert_eq!(m.data, vec![100, 100, 0, 0]);
}

#[test]
fn and_mask_with_itself_is_the_identity() {
    let m = frame(4, 1, vec![0, 255, 255, 0]);
    let once = and_mask(&m, &m, 50);
    assert_eq!(once.data, m.data);
    let twice = and_mask(&once, &once, 50);
    assert_eq!(twice.data, m.data);
}

#[test]
fn score_counts_pixels_above_the_threshold() {
    let m = frame(5, 1, vec![255, 0, 255, 64, 65]);
    assert_eq!(score(&m, 64), 3);
}

#[test]
fn score_is_monotonic_in_pixel_wise_change() {
    let small = frame(4, 1, vec![255, 0, 0, 0]);
    let large = frame(4, 1, vec![255, 255, 0, 255]);
    assert!(score(&small, 64) <= score(&large, 64));
}

#[test]
fn reduce_color_shifts_each_pixel() {
    let f = frame(4, 1, vec![255, 16, 15, 0]);
    let r = reduce_color(&f, 4);
    assert_eq!(r.data, vec![15, 1, 0, 0]);
}

#[test]
fn from_yuyv_keeps_only_luma_samples() {
    let data = vec![10, 99, 20, 98, 30, 97];
    let f = from_yuyv_vec(&data, 3, 1).expect("three luma samples");
    assert_eq!(f.data, vec![10, 20, 30]);
    assert_eq!(f.width, 3);
    assert_eq!(f.height, 1);
}

#[test]
fn from_yuyv_rejects_mismatched_dimensions() {
    let data = vec![10, 99, 20, 98];
    assert!(from_yuyv_vec(&data, 3, 1).is_none());
}

#[test]
fn from_yuyv_counts_a_trailing_odd_byte() {
    let data = vec![10, 99, 20];
    let f = from_yuyv_vec(&data, 2, 1).expect("two luma samples");
    assert_eq!(f.data, vec![10, 20]);
}
