use video_fixer::adapter::{
    compare_images, decode_args, encode_args, frame_pattern, gray_of_image, output_name,
    parse_report_score, similarity_args, unpack_tool, CompareError, ToolError,
};
use video_fixer::scorer::SCORE_SCALE;

fn v(s: &str) -> Vec<u8> {
    s.as_bytes().to_vec()
}

#[test]
fn output_name_strips_directory_and_extension() {
    assert_eq!(output_name(&v("videos/clip.mp4")), v("clip_processed.mp4"));
    assert_eq!(output_name(&v("clip.mp4")), v("clip_processed.mp4"));
    assert_eq!(output_name(&v("/a/b/movie.avi")), v("movie_processed.mp4"));
}

#[test]
fn output_name_takes_last_extension_only() {
    assert_eq!(
        output_name(&v("archive.tar.gz")),
        v("archive.tar_processed.mp4")
    );
    assert_eq!(output_name(&v("noext")), v("noext_processed.mp4"));
}

#[test]
fn frame_pattern_is_folder_plus_numbered_name() {
    assert_eq!(frame_pattern(&v("/tmp/work")), v("/tmp/work/frame_%04d.png"));
}

#[test]
fn decode_invocation_arguments() {
    let args = decode_args(&v("in.mp4"), &v("/w/frame_%04d.png"));
    let want: Vec<Vec<u8>> = ["-i", "in.mp4", "/w/frame_%04d.png", "-threads", "0"]
        .iter()
        .map(|s| v(s))
        .collect();
    assert_eq!(args, want);
}

#[test]
fn encode_invocation_arguments() {
    let args = encode_args(&v("/w/frame_%04d.png"), &v("clip_processed.mp4"));
    let want: Vec<Vec<u8>> = [
        "-framerate",
        "30",
        "-i",
        "/w/frame_%04d.png",
        "-c:v",
        "libx264",
        "-preset",
        "fast",
        "-threads",
        "0",
        "-pix_fmt",
        "yuv420p",
        "clip_processed.mp4",
    ]
    .iter()
    .map(|s| v(s))
    .collect();
    assert_eq!(args, want);
}

#[test]
fn similarity_invocation_arguments() {
    let args = similarity_args(&v("a.png"), &v("b.png"));
    let want: Vec<Vec<u8>> = [
        "-i",
        "a.png",
        "-i",
        "b.png",
        "-filter_complex",
        "ssim",
        "-f",
        "null",
    ]
    .iter()
    .map(|s| v(s))
    .collect();
    assert_eq!(args, want);
}

#[test]
fn report_score_reads_overall_value() {
    let report = v("[Parsed_ssim_0] SSIM Y:0.98 (17.0) All: 0.978 (16.5)");
    assert_eq!(parse_report_score(&report), 978_000);
}

#[test]
fn report_score_variants() {
    assert_eq!(parse_report_score(&v("All: 1")), 1_000_000);
    assert_eq!(parse_report_score(&v("All: 0.5 tail")), 500_000);
    assert_eq!(parse_report_score(&v("All: .5")), 500_000);
    assert_eq!(parse_report_score(&v("All: 3.")), 3_000_000);
    assert_eq!(parse_report_score(&v("All: 0.9999999")), 999_999);
}

#[test]
fn report_score_unreadable_is_minimum() {
    assert_eq!(parse_report_score(&v("")), 0);
    assert_eq!(parse_report_score(&v("no marker here")), 0);
    assert_eq!(parse_report_score(&v("All: ")), 0);
    assert_eq!(parse_report_score(&v("All: abc")), 0);
    assert_eq!(parse_report_score(&v("All: 1.2.3")), 0);
    assert_eq!(parse_report_score(&v("All: -0.5")), 0);
}

#[test]
fn report_score_uses_first_marker() {
    assert_eq!(parse_report_score(&v("All: 0.25 then All: 0.75")), 250_000);
}

#[test]
fn unpack_tool_round_trips_zstd() {
    let payload: Vec<u8> = (0u8..=255).cycle().take(4096).collect();
    let packed = zstd::encode_all(payload.as_slice(), 3).unwrap();
    assert_eq!(unpack_tool(&packed).unwrap(), payload);
}

#[test]
fn unpack_tool_rejects_damaged_archive() {
    assert_eq!(
        unpack_tool(&v("this is not a zstd stream")),
        Err(ToolError::Staging)
    );
}

#[test]
fn gray_of_image_keeps_luma_samples() {
    let buf = image::GrayImage::from_raw(2, 2, vec![10, 20, 30, 40]).unwrap();
    let img = image::DynamicImage::ImageLuma8(buf);
    let g = gray_of_image(&img).unwrap();
    assert_eq!(g.width, 2);
    assert_eq!(g.height, 2);
    assert_eq!(g.pixels, vec![10, 20, 30, 40]);
}

#[test]
fn gray_of_image_rejects_oversized_buffer() {
    // An already-grayscale image built around a buffer longer than its
    // pixel grid passes through the luminance reduction unchanged; the
    // conversion must reject it rather than hand out a malformed frame.
    let buf = image::GrayImage::from_raw(1, 1, vec![0u8, 0u8]).unwrap();
    let img = image::DynamicImage::ImageLuma8(buf);
    assert!(gray_of_image(&img).is_err());
}

#[test]
fn compare_images_rejects_oversized_buffer() {
    let bad = image::DynamicImage::ImageLuma8(
        image::GrayImage::from_raw(1, 1, vec![0u8, 0u8]).unwrap(),
    );
    let good = image::DynamicImage::ImageLuma8(
        image::GrayImage::from_raw(1, 1, vec![0u8]).unwrap(),
    );
    assert_eq!(compare_images(&bad, &good), Err(CompareError::Image));
    assert_eq!(compare_images(&good, &bad), Err(CompareError::Image));
}

#[test]
fn compare_images_identical_is_maximum() {
    let buf = image::GrayImage::from_raw(2, 2, vec![9, 9, 200, 200]).unwrap();
    let a = image::DynamicImage::ImageLuma8(buf.clone());
    let b = image::DynamicImage::ImageLuma8(buf);
    assert_eq!(compare_images(&a, &b).unwrap(), SCORE_SCALE);
}

#[test]
fn compare_images_mismatched_dimensions_fail() {
    let a = image::DynamicImage::ImageLuma8(
        image::GrayImage::from_raw(2, 2, vec![0; 4]).unwrap(),
    );
    let b = image::DynamicImage::ImageLuma8(
        image::GrayImage::from_raw(4, 1, vec![0; 4]).unwrap(),
    );
    assert_eq!(compare_images(&a, &b), Err(CompareError::DimensionMismatch));
}
