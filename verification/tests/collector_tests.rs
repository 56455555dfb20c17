use video_fixer::collector::{frame_number, is_png, order_frames};

fn names(list: &[&str]) -> Vec<Vec<u8>> {
    list.iter().map(|s| s.as_bytes().to_vec()).collect()
}

#[test]
fn png_suffix_is_recognized() {
    assert!(is_png(&b"frame_0001.png".to_vec()));
    assert!(is_png(&b".png".to_vec()));
    assert!(!is_png(&b"frame_0001.jpg".to_vec()));
    assert!(!is_png(&b"png".to_vec()));
    assert!(!is_png(&b"".to_vec()));
}

#[test]
fn frame_number_reads_zero_padded_suffix() {
    assert_eq!(frame_number(&b"frame_0001.png".to_vec()), 1);
    assert_eq!(frame_number(&b"frame_0230.png".to_vec()), 230);
    assert_eq!(frame_number(&b"a/b/frame_9999.png".to_vec()), 9999);
    assert_eq!(frame_number(&b"shot12_0005.png".to_vec()), 5);
}

#[test]
fn frame_number_without_digits_is_zero() {
    assert_eq!(frame_number(&b"cover.png".to_vec()), 0);
    assert_eq!(frame_number(&b".png".to_vec()), 0);
}

#[test]
fn frame_number_saturates_on_huge_values() {
    assert_eq!(
        frame_number(&b"frame_99999999999999999999.png".to_vec()),
        u64::MAX
    );
}

#[test]
fn order_frames_sorts_by_numeric_suffix() {
    let input = names(&[
        "frame_0003.png",
        "frame_0001.png",
        "frame_0010.png",
        "frame_0002.png",
    ]);
    let r = order_frames(input);
    let got: Vec<u64> = r.iter().map(|f| f.key).collect();
    assert_eq!(got, vec![1, 2, 3, 10]);
    assert_eq!(r[0].name, b"frame_0001.png".to_vec());
    assert_eq!(r[3].name, b"frame_0010.png".to_vec());
}

#[test]
fn order_frames_filters_non_images() {
    let input = names(&[
        "frame_0002.png",
        "notes.txt",
        "frame_0001.png",
        "clip.mp4",
        "frame_0001.jpg",
    ]);
    let r = order_frames(input);
    assert_eq!(r.len(), 2);
    assert_eq!(r[0].name, b"frame_0001.png".to_vec());
    assert_eq!(r[1].name, b"frame_0002.png".to_vec());
}

#[test]
fn order_frames_keeps_duplicates_and_empty_input() {
    assert_eq!(order_frames(Vec::new()).len(), 0);
    let input = names(&["frame_0001.png", "frame_0001.png"]);
    let r = order_frames(input);
    assert_eq!(r.len(), 2);
    assert_eq!(r[0].name, r[1].name);
}

#[test]
fn order_frames_ignores_traversal_order() {
    let a = names(&["frame_0005.png", "frame_0002.png", "frame_0009.png"]);
    let b = names(&["frame_0009.png", "frame_0005.png", "frame_0002.png"]);
    let ra: Vec<Vec<u8>> = order_frames(a).into_iter().map(|f| f.name).collect();
    let rb: Vec<Vec<u8>> = order_frames(b).into_iter().map(|f| f.name).collect();
    assert_eq!(ra, rb);
}
