use video_fixer::frame::GrayImage;
use video_fixer::scorer::{score, ScoreError, DROP_THRESHOLD, SCORE_SCALE};

fn gray(width: u32, height: u32, pixels: Vec<u8>) -> GrayImage {
    GrayImage::new(width, height, pixels).unwrap()
}

#[test]
fn identical_images_score_maximum() {
    let a = gray(3, 2, vec![0, 50, 100, 150, 200, 255]);
    let b = gray(3, 2, vec![0, 50, 100, 150, 200, 255]);
    let s = score(&a, &b).unwrap();
    assert_eq!(s, SCORE_SCALE);
    assert!(s > DROP_THRESHOLD);
}

#[test]
fn black_vs_white_scores_far_below_threshold() {
    let a = gray(4, 4, vec![0; 16]);
    let b = gray(4, 4, vec![255; 16]);
    let s = score(&a, &b).unwrap();
    assert_eq!(s, 99);
    assert!(s < DROP_THRESHOLD);
}

#[test]
fn single_pixel_pair_exact_value() {
    let a = gray(1, 1, vec![10]);
    let b = gray(1, 1, vec![20]);
    assert_eq!(score(&a, &b).unwrap(), 802_567);
}

#[test]
fn near_identical_images_exact_average() {
    let a = gray(2, 2, vec![10, 20, 30, 40]);
    let b = gray(2, 2, vec![10, 20, 30, 41]);
    assert_eq!(score(&a, &b).unwrap(), 999_923);
}

#[test]
fn dimension_mismatch_is_an_error() {
    let a = gray(2, 2, vec![1, 2, 3, 4]);
    let b = gray(4, 1, vec![1, 2, 3, 4]);
    assert_eq!(score(&a, &b), Err(ScoreError::DimensionMismatch));
}

#[test]
fn empty_images_score_minimum() {
    let a = gray(0, 5, vec![]);
    let b = gray(0, 5, vec![]);
    assert_eq!(score(&a, &b).unwrap(), 0);
}

#[test]
fn frame_rejects_wrong_buffer_length() {
    assert!(GrayImage::new(2, 2, vec![1, 2, 3]).is_err());
    assert!(GrayImage::new(2, 2, vec![1, 2, 3, 4]).is_ok());
}
