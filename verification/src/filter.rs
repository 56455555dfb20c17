//! Keep/drop decisions over the frame sequence.
//!
//! The sequence is cut into contiguous batches of `BATCH_SIZE` frames.  Each
//! frame is compared against its immediate successor only when both lie in
//! the same batch; a pair scoring strictly above `DROP_THRESHOLD` marks the
//! earlier frame as a duplicate to drop.  The last frame of every batch — and
//! with it the last frame of the whole sequence — is never compared forward,
//! so it is always kept; in particular the adjacency across a batch boundary
//! is never scored, an inherited limitation of batch-local scoring that these
//! contracts state rather than repair.  A pair that cannot be scored
//! (mismatched dimensions) takes the minimum score, which keeps the frame.

use vstd::arithmetic::div_mod::lemma_fundamental_div_mod;
use vstd::prelude::*;

use crate::frame::GrayImage;
use crate::scorer::{score, spec_score, DROP_THRESHOLD, SCORE_SCALE};
use crate::scorer::lemma_score_identical;
use crate::scorer::lemma_score_black_white;

verus! {

/// Number of frames in one comparison batch.
pub const BATCH_SIZE: usize = 10;

/// One keep/drop decision for the frame at `frame_index`.
#[derive(Clone, Copy, Debug, PartialEq, Eq, Structural)]
pub struct FrameDecision {
    pub frame_index: usize,
    pub keep: bool,
}

/// The score the filter ascribes to the adjacent pair (i, i+1): the scorer's
/// value when the dimensions agree, the minimum score otherwise, so that an
/// unscorable pair conservatively keeps the earlier frame.
pub open spec fn pair_sim(frames: Seq<GrayImage>, i: int) -> int {
    if frames[i].dims_match(frames[i + 1]) {
        spec_score(frames[i], frames[i + 1])
    } else {
        0
    }
}

/// The keep rule over the whole sequence: frame `i` is dropped exactly when
/// its successor exists, lies in the same batch, and the pair scores strictly
/// above the threshold.
pub open spec fn spec_keep(frames: Seq<GrayImage>, i: int) -> bool {
    !(i % (BATCH_SIZE as int) != BATCH_SIZE as int - 1 && i + 1 < frames.len()
        && pair_sim(frames, i) > DROP_THRESHOLD as int)
}

/// The keep rule local to one batch of at most `BATCH_SIZE` frames: frame `i`
/// of the batch is dropped exactly when its successor lies in the batch and
/// the pair scores strictly above the threshold.
pub open spec fn spec_keep_in_batch(batch: Seq<GrayImage>, i: int) -> bool {
    !(i + 1 < batch.len() && pair_sim(batch, i) > DROP_THRESHOLD as int)
}

/// First frame index of the batch that holds frame `i`.
pub open spec fn batch_start(i: int) -> int {
    (i / BATCH_SIZE as int) * BATCH_SIZE as int
}

/// One past the last frame index of the batch that holds frame `i`, in a
/// sequence of `n` frames.
pub open spec fn batch_end(n: int, i: int) -> int {
    if batch_start(i) + BATCH_SIZE as int <= n {
        batch_start(i) + BATCH_SIZE as int
    } else {
        n
    }
}

/// Decides every frame of the sequence.  Exactly one decision per frame, in
/// frame order, each following the batch-local keep rule.
pub fn decide(frames: &Vec<GrayImage>) -> (d: Vec<FrameDecision>)
    requires
        forall|i: int| 0 <= i < frames@.len() ==> (#[trigger] frames@[i]).wf(),
    ensures
        d@.len() == frames@.len(),
        forall|i: int| 0 <= i < d@.len() ==> (#[trigger] d@[i]).frame_index == i,
        forall|i: int| 0 <= i < d@.len() ==> ((#[trigger] d@[i]).keep <==> spec_keep(
            frames@,
            i,
        )),
{
    let n = frames.len();
    let mut d: Vec<FrameDecision> = Vec::new();
    let mut i: usize = 0;
    while i < n
        invariant
            i <= n,
            n == frames@.len(),
            forall|k: int| 0 <= k < frames@.len() ==> (#[trigger] frames@[k]).wf(),
            d@.len() == i,
            forall|j: int| 0 <= j < i ==> (#[trigger] d@[j]).frame_index == j,
            forall|j: int| 0 <= j < i ==> ((#[trigger] d@[j]).keep <==> spec_keep(frames@, j)),
        decreases n - i,
    {
        let in_batch = i % BATCH_SIZE != BATCH_SIZE - 1;
        let keep: bool = if in_batch && i + 1 < n {
            match score(&frames[i], &frames[i + 1]) {
                Ok(s) => s <= DROP_THRESHOLD,
                Err(_) => true,
            }
        } else {
            true
        };
        d.push(FrameDecision { frame_index: i, keep });
        i = i + 1;
    }
    d
}

/// Decides one batch of at most `BATCH_SIZE` frames that starts at frame
/// `start_index` of the whole sequence.  Batches are independent, so callers
/// may decide them in any order — or in parallel — and lay the results side
/// by side; `lemma_keep_batch_local` says the outcome agrees with `decide`
/// over the whole sequence.
pub fn decide_batch(batch: &Vec<GrayImage>, start_index: usize) -> (d: Vec<FrameDecision>)
    requires
        forall|i: int| 0 <= i < batch@.len() ==> (#[trigger] batch@[i]).wf(),
        batch@.len() <= BATCH_SIZE as int,
        start_index as int + batch@.len() <= usize::MAX as int,
    ensures
        d@.len() == batch@.len(),
        forall|i: int| 0 <= i < d@.len() ==> (#[trigger] d@[i]).frame_index == start_index + i,
        forall|i: int| 0 <= i < d@.len() ==> ((#[trigger] d@[i]).keep <==> spec_keep_in_batch(
            batch@,
            i,
        )),
{
    let n = batch.len();
    let mut d: Vec<FrameDecision> = Vec::new();
    let mut i: usize = 0;
    while i < n
        invariant
            i <= n,
            n == batch@.len(),
            forall|k: int| 0 <= k < batch@.len() ==> (#[trigger] batch@[k]).wf(),
            start_index as int + batch@.len() <= usize::MAX as int,
            d@.len() == i,
            forall|j: int| 0 <= j < i ==> (#[trigger] d@[j]).frame_index == start_index + j,
            forall|j: int| 0 <= j < i ==> ((#[trigger] d@[j]).keep <==> spec_keep_in_batch(
                batch@,
                j,
            )),
        decreases n - i,
    {
        let keep: bool = if i + 1 < n {
            match score(&batch[i], &batch[i + 1]) {
                Ok(s) => s <= DROP_THRESHOLD,
                Err(_) => true,
            }
        } else {
            true
        };
        d.push(FrameDecision { frame_index: start_index + i, keep });
        i = i + 1;
    }
    d
}

/// Batch locality: the whole-sequence keep rule for frame `i` coincides with
/// the batch-local rule applied to frame `i`'s own batch.  This is what lets
/// batches be decided independently and merged by frame index.
pub proof fn lemma_keep_batch_local(frames: Seq<GrayImage>, i: int)
    requires
        0 <= i < frames.len(),
    ensures
        spec_keep(frames, i) == spec_keep_in_batch(
            frames.subrange(batch_start(i), batch_end(frames.len() as int, i)),
            i - batch_start(i),
        ),
{
    let b = BATCH_SIZE as int;
    lemma_fundamental_div_mod(i, b);
    let bs = batch_start(i);
    let be = batch_end(frames.len() as int, i);
    let s = frames.subrange(bs, be);
    let li = i - bs;
    assert(li == i % b);
    if i % b == b - 1 {
        assert(li + 1 >= s.len());
    } else {
        assert(i + 1 < frames.len() <==> li + 1 < s.len());
        if i + 1 < frames.len() {
            assert(s[li] == frames[i]);
            assert(s[li + 1] == frames[i + 1]);
        }
    }
}

/// An unscorable pair — the two frames differ in dimensions — always keeps
/// the earlier frame.
pub proof fn lemma_mismatch_keeps(frames: Seq<GrayImage>, i: int)
    requires
        0 <= i,
        i + 1 < frames.len(),
        !frames[i].dims_match(frames[i + 1]),
    ensures
        spec_keep(frames, i),
{
}

/// The last frame of the sequence is always kept, whatever its content.
pub proof fn lemma_last_frame_kept(frames: Seq<GrayImage>)
    requires
        frames.len() >= 1,
    ensures
        spec_keep(frames, frames.len() - 1),
{
}

/// The last frame of a batch is always kept, even when the first frame of
/// the next batch is its twin: the adjacency across a batch boundary is
/// never scored.
pub proof fn lemma_batch_boundary_kept(frames: Seq<GrayImage>, i: int)
    requires
        0 <= i < frames.len(),
        i % (BATCH_SIZE as int) == BATCH_SIZE as int - 1,
    ensures
        spec_keep(frames, i),
{
}

/// A sequence without duplicate-like adjacent pairs loses no frame: when no
/// scored pair exceeds the threshold, every frame is kept.
pub proof fn lemma_no_duplicates_all_kept(frames: Seq<GrayImage>)
    requires
        forall|i: int| 0 <= i && i + 1 < frames.len() ==> #[trigger] pair_sim(frames, i)
            <= DROP_THRESHOLD as int,
    ensures
        forall|i: int| 0 <= i < frames.len() ==> #[trigger] spec_keep(frames, i),
{
}

/// How many frames a run of decisions keeps: the frames the output video
/// will hold.
pub open spec fn kept_count(d: Seq<FrameDecision>) -> int
    decreases d.len(),
{
    if d.len() == 0 {
        0
    } else {
        kept_count(d.drop_last()) + if d.last().keep {
            1int
        } else {
            0int
        }
    }
}

/// Idempotence of the pipeline on clean input: decisions for a sequence
/// without duplicate-like adjacent pairs keep every frame, so the output
/// holds exactly as many frames as the input — no spurious drops.
pub proof fn lemma_idempotent_count(frames: Seq<GrayImage>, d: Seq<FrameDecision>)
    requires
        d.len() == frames.len(),
        forall|i: int| 0 <= i < d.len() ==> ((#[trigger] d[i]).keep <==> spec_keep(frames, i)),
        forall|i: int| 0 <= i && i + 1 < frames.len() ==> #[trigger] pair_sim(frames, i)
            <= DROP_THRESHOLD as int,
    ensures
        kept_count(d) == frames.len(),
{
    lemma_no_duplicates_all_kept(frames);
    lemma_all_kept_count(d);
}

/// A run of decisions that keeps every frame counts them all.
proof fn lemma_all_kept_count(d: Seq<FrameDecision>)
    requires
        forall|i: int| 0 <= i < d.len() ==> (#[trigger] d[i]).keep,
    ensures
        kept_count(d) == d.len(),
    decreases d.len(),
{
    if d.len() > 0 {
        lemma_all_kept_count(d.drop_last());
    }
}

/// A frame whose in-batch successor has identical pixel content is dropped:
/// the pair scores the maximum value, which exceeds the threshold.
pub proof fn lemma_identical_pair_dropped(frames: Seq<GrayImage>, i: int)
    requires
        0 <= i,
        i + 1 < frames.len(),
        i % (BATCH_SIZE as int) != BATCH_SIZE as int - 1,
        frames[i].wf(),
        frames[i + 1].wf(),
        frames[i].dims_match(frames[i + 1]),
        frames[i].pixels@ == frames[i + 1].pixels@,
        frames[i].pixel_total() > 0,
    ensures
        !spec_keep(frames, i),
{
    lemma_score_identical(frames[i], frames[i + 1]);
    assert(pair_sim(frames, i) == SCORE_SCALE as int);
}

/// The survivor of a duplicate pair is itself kept, provided its own
/// forward pair is not duplicate-like: it ends its batch or the sequence,
/// or scores within the threshold against its successor.  Without that
/// proviso the claim fails — in a batch of three identical frames the first
/// two are both dropped.
pub proof fn lemma_duplicate_successor_kept(frames: Seq<GrayImage>, i: int)
    requires
        0 <= i,
        i + 1 < frames.len(),
        (i + 1) % (BATCH_SIZE as int) == BATCH_SIZE as int - 1 || i + 2 >= frames.len()
            || pair_sim(frames, i + 1) <= DROP_THRESHOLD as int,
    ensures
        spec_keep(frames, i + 1),
{
}

/// A solid black frame followed by a solid white one is kept: maximally
/// different content scores far below the threshold.
pub proof fn lemma_black_white_pair_kept(frames: Seq<GrayImage>, i: int)
    requires
        0 <= i,
        i + 1 < frames.len(),
        frames[i].wf(),
        frames[i + 1].wf(),
        frames[i].dims_match(frames[i + 1]),
        frames[i].pixel_total() > 0,
        forall|k: int| 0 <= k < frames[i].pixels@.len() ==> #[trigger] frames[i].pixels@[k] == 0,
        forall|k: int| 0 <= k < frames[i + 1].pixels@.len() ==> #[trigger] frames[i
            + 1].pixels@[k] == 255,
    ensures
        spec_keep(frames, i),
{
    lemma_score_black_white(frames[i], frames[i + 1]);
}

/// The frame indices marked drop, in increasing order: the frames the shell
/// removes from the workspace before encoding.
pub fn dropped_indices(d: &Vec<FrameDecision>) -> (r: Vec<usize>)
    requires
        forall|i: int| 0 <= i < d@.len() ==> (#[trigger] d@[i]).frame_index == i,
    ensures
        forall|j: int| 0 <= j < d@.len() ==> (r@.contains(j as usize) <==> !(
        #[trigger] d@[j]).keep),
        forall|k: int| 0 <= k < r@.len() ==> (#[trigger] r@[k]) < d@.len(),
        forall|k1: int, k2: int| 0 <= k1 < k2 < r@.len() ==> r@[k1] < r@[k2],
{
    let n = d.len();
    let mut r: Vec<usize> = Vec::new();
    let mut i: usize = 0;
    while i < n
        invariant
            i <= n,
            n == d@.len(),
            forall|k: int| 0 <= k < d@.len() ==> (#[trigger] d@[k]).frame_index == k,
            forall|j: int| 0 <= j < i ==> (r@.contains(j as usize) <==> !(#[trigger] d@[j]).keep),
            forall|k: int| 0 <= k < r@.len() ==> (#[trigger] r@[k]) < i,
            forall|k1: int, k2: int| 0 <= k1 < k2 < r@.len() ==> r@[k1] < r@[k2],
        decreases n - i,
    {
        let ghost old_r = r@;
        if !d[i].keep {
            r.push(i);
            proof {
                assert forall|j: int| 0 <= j < i + 1 implies (r@.contains(j as usize) <==> !(
                d[j]).keep) by {
                    if j < i {
                        assert(r@.contains(j as usize) <==> old_r.contains(j as usize)) by {
                            if old_r.contains(j as usize) {
                                let w = choose|w: int| 0 <= w < old_r.len() && old_r[w] == j as usize;
                                assert(r@[w] == j as usize);
                            }
                            if r@.contains(j as usize) {
                                let w = choose|w: int| 0 <= w < r@.len() && r@[w] == j as usize;
                                assert(w < old_r.len());
                                assert(old_r[w] == j as usize);
                            }
                        }
                    } else {
                        assert(r@[r@.len() - 1] == i as usize);
                    }
                }
            }
        } else {
            proof {
                assert forall|j: int| 0 <= j < i + 1 implies (r@.contains(j as usize) <==> !(
                d[j]).keep) by {
                    if j == i {
                        if r@.contains(i as usize) {
                            let w = choose|w: int| 0 <= w < r@.len() && r@[w] == i as usize;
                            assert(r@[w] < i);
                        }
                    }
                }
            }
        }
        i = i + 1;
    }
    r
}

} // verus!
