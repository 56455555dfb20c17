use video_fixer::filter::{decide, decide_batch, dropped_indices, BATCH_SIZE};
use video_fixer::frame::GrayImage;

/// Three 2x2 patterns that pairwise score far below the drop threshold
/// (each pair disagrees on at least half its pixels with full contrast),
/// while two frames of the same pattern score the maximum.
fn pattern(which: usize) -> GrayImage {
    let pixels = match which % 3 {
        0 => vec![0, 255, 0, 255],
        1 => vec![255, 0, 255, 0],
        _ => vec![0, 255, 255, 0],
    };
    GrayImage::new(2, 2, pixels).unwrap()
}

/// A sequence whose adjacent frames all differ strongly: no drops expected.
fn distinct_frames(n: usize) -> Vec<GrayImage> {
    (0..n).map(pattern).collect()
}

#[test]
fn identical_adjacent_pair_drops_earlier_frame() {
    let frames = vec![pattern(0), pattern(0), pattern(1)];
    let d = decide(&frames);
    assert_eq!(d.len(), 3);
    assert!(!d[0].keep);
    assert!(d[1].keep);
    assert!(d[2].keep);
}

#[test]
fn last_frame_is_always_kept() {
    for n in [1usize, 2, 9, 10, 11, 21] {
        let d = decide(&distinct_frames(n));
        assert_eq!(d.len(), n);
        assert!(d[n - 1].keep, "last frame dropped for n = {}", n);
    }
}

#[test]
fn all_identical_frames_keep_batch_tails() {
    let frames: Vec<GrayImage> = (0..21).map(|_| pattern(0)).collect();
    let d = decide(&frames);
    for i in 0..21 {
        let expected_keep = i % BATCH_SIZE == BATCH_SIZE - 1 || i == 20;
        assert_eq!(d[i].keep, expected_keep, "frame {}", i);
    }
}

#[test]
fn batch_boundary_pair_is_never_scored() {
    // 21 frames, adjacent ones all different except the maximally similar
    // pair straddling the end of the first batch (indices 9 and 10).
    let mut frames = distinct_frames(21);
    frames[10] = pattern(9);
    let d = decide(&frames);
    assert_eq!(d.len(), 21);
    for i in 0..21 {
        assert!(d[i].keep, "frame {} wrongly dropped", i);
    }
}

#[test]
fn no_duplicates_means_no_drops() {
    let d = decide(&distinct_frames(30));
    assert!(d.iter().all(|x| x.keep));
    assert_eq!(dropped_indices(&d).len(), 0);
}

#[test]
fn dimension_mismatch_keeps_earlier_frame() {
    let a = GrayImage::new(2, 2, vec![5; 4]).unwrap();
    let b = GrayImage::new(4, 1, vec![5; 4]).unwrap();
    let c = GrayImage::new(4, 1, vec![9; 4]).unwrap();
    let d = decide(&vec![a, b, c]);
    assert!(d[0].keep);
    assert!(d[1].keep);
    assert!(d[2].keep);
}

#[test]
fn end_to_end_duplicate_pair_scenario() {
    // Eight frames where the fifth and sixth (indices 4 and 5) are
    // bit-identical and all other adjacent pairs differ: exactly the fifth
    // frame is dropped and one fewer frame survives.
    let mut frames = distinct_frames(8);
    frames[5] = pattern(4);
    let d = decide(&frames);
    let dropped = dropped_indices(&d);
    assert_eq!(dropped, vec![4]);
    let surviving = d.iter().filter(|x| x.keep).count();
    assert_eq!(surviving, frames.len() - 1);
}

#[test]
fn frame_indices_are_positions() {
    let d = decide(&distinct_frames(5));
    for (i, x) in d.iter().enumerate() {
        assert_eq!(x.frame_index, i);
    }
}

#[test]
fn batches_decided_independently_agree_with_whole() {
    // Duplicates inside the first and second batch and one straddling the
    // boundary: the merged per-batch decisions match the whole-sequence run.
    let mut frames = distinct_frames(25);
    frames[3] = pattern(2);
    frames[10] = pattern(9);
    frames[12] = pattern(11);
    let whole = decide(&frames);
    let mut merged = Vec::new();
    let mut start = 0usize;
    while start < frames.len() {
        let end = (start + BATCH_SIZE).min(frames.len());
        let batch: Vec<GrayImage> = frames[start..end]
            .iter()
            .map(|g| GrayImage::new(g.width, g.height, g.pixels.clone()).unwrap())
            .collect();
        merged.extend(decide_batch(&batch, start));
        start = end;
    }
    assert_eq!(whole.len(), merged.len());
    for i in 0..whole.len() {
        assert_eq!(whole[i].frame_index, merged[i].frame_index);
        assert_eq!(whole[i].keep, merged[i].keep, "frame {}", i);
    }
}
