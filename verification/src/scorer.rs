//! Similarity scoring between two equally sized grayscale frames.
//!
//! The metric is the per-pixel structural-similarity style formula of the
//! pipeline: each pixel acts as its own mean, so the variance terms vanish
//! and the stabilized term `c2` cancels, leaving per pixel
//! `(2*a*b + c1) / (a*a + b*b + c1)` with `c1 = (0.01 * 255)^2 = 6.5025`.
//! The score of a pair of frames is the average of the per-pixel values.
//! All arithmetic is exact fixed point: the stabilization constant is carried
//! at a scale of 10^4 (so `c1` becomes the integer 65025) and scores are
//! carried in units of 1/1'000'000.  Integer summation is order-independent,
//! so the result is reproducible however the work is partitioned.

use vstd::arithmetic::div_mod::{lemma_div_is_ordered, lemma_div_multiples_vanish};
use vstd::prelude::*;

use crate::frame::GrayImage;

verus! {

/// Fixed-point unit for similarity scores: `SCORE_SCALE` stands for 1.0.
pub const SCORE_SCALE: u64 = 1_000_000;

/// A pair scoring strictly above this (0.95) marks the earlier frame as a
/// duplicate of its successor.
pub const DROP_THRESHOLD: u64 = 950_000;

/// The stabilization constant (0.01 * 255)^2 = 6.5025, carried at a scale of
/// 10^4 so that it is the exact integer 65025.
pub const STABILIZER: u64 = 65_025;

/// The scale (10^4) that clears the decimals of the stabilization constant.
pub const RANGE_SCALE: u64 = 10_000;

/// Numerator of the per-pixel similarity, at a scale of 10^4.
pub open spec fn pixel_cross(a: int, b: int) -> int {
    2 * RANGE_SCALE as int * (a * b) + STABILIZER as int
}

/// Denominator of the per-pixel similarity, at a scale of 10^4.
pub open spec fn pixel_energy(a: int, b: int) -> int {
    RANGE_SCALE as int * (a * a + b * b) + STABILIZER as int
}

/// The per-pixel similarity in fixed point: floor(SCORE_SCALE * cross / energy).
pub open spec fn pixel_sim(a: int, b: int) -> int {
    (SCORE_SCALE as int * pixel_cross(a, b)) / pixel_energy(a, b)
}

/// Sum of the per-pixel similarities of two equally long sample buffers.
pub open spec fn sim_sum(a: Seq<u8>, b: Seq<u8>) -> int
    decreases a.len(),
{
    if a.len() == 0 || b.len() == 0 {
        0
    } else {
        sim_sum(a.drop_last(), b.drop_last()) + pixel_sim(a.last() as int, b.last() as int)
    }
}

/// The score of two equally long sample buffers covering `pixel_total`
/// pixels: the average per-pixel similarity, and 0 for an empty pair.
pub open spec fn spec_score_raw(a: Seq<u8>, b: Seq<u8>, pixel_total: int) -> int {
    if pixel_total == 0 {
        0
    } else {
        sim_sum(a, b) / pixel_total
    }
}

/// The score of a pair of frames with matching dimensions.
pub open spec fn spec_score(a: GrayImage, b: GrayImage) -> int {
    spec_score_raw(a.pixels@, b.pixels@, a.pixel_total())
}

/// A pixel compared against itself has full similarity: numerator and
/// denominator of the per-pixel formula coincide.
pub proof fn lemma_pixel_sim_identical(v: int)
    requires
        0 <= v,
    ensures
        pixel_sim(v, v) == SCORE_SCALE as int,
{
    assert(2 * (RANGE_SCALE as int) * (v * v) == (RANGE_SCALE as int) * (v * v + v * v))
        by (nonlinear_arith);
    assert(v * v >= 0) by (nonlinear_arith);
    let e = pixel_energy(v, v);
    assert(pixel_cross(v, v) == e);
    lemma_div_multiples_vanish(SCORE_SCALE as int, e);
    assert(e * (SCORE_SCALE as int) == SCORE_SCALE as int * pixel_cross(v, v));
}

/// A black pixel against a white one scores 99 of 1'000'000: the numerator is
/// the bare stabilizer, the denominator ten thousand and one times it.
pub proof fn lemma_pixel_sim_extreme()
    ensures
        pixel_sim(0, 255) == 99,
        pixel_sim(255, 0) == 99,
{
    assert(2 * (RANGE_SCALE as int) * ((0int) * (255int)) == 0) by (nonlinear_arith);
    assert(pixel_cross(0, 255) == 65_025);
    assert(pixel_energy(0, 255) == 650_315_025);
    assert(pixel_cross(255, 0) == 65_025);
    assert(pixel_energy(255, 0) == 650_315_025);
    assert(65_025_000_000int / 650_315_025int == 99) by (nonlinear_arith);
}

/// Two identical sample buffers sum to full similarity at every pixel.
pub proof fn lemma_sim_sum_identical(s: Seq<u8>)
    ensures
        sim_sum(s, s) == s.len() * (SCORE_SCALE as int),
    decreases s.len(),
{
    if s.len() > 0 {
        lemma_sim_sum_identical(s.drop_last());
        lemma_pixel_sim_identical(s.last() as int);
    }
}

/// An all-black buffer against an all-white one sums to 99 at every pixel.
pub proof fn lemma_sim_sum_extreme(a: Seq<u8>, b: Seq<u8>)
    requires
        a.len() == b.len(),
        forall|i: int| 0 <= i < a.len() ==> a[i] == 0 && b[i] == 255,
    ensures
        sim_sum(a, b) == a.len() * 99,
    decreases a.len(),
{
    if a.len() > 0 {
        lemma_sim_sum_extreme(a.drop_last(), b.drop_last());
        lemma_pixel_sim_extreme();
    }
}

/// Frames with identical pixel content score the maximum value.
pub proof fn lemma_score_identical(a: GrayImage, b: GrayImage)
    requires
        a.wf(),
        b.wf(),
        a.dims_match(b),
        a.pixels@ == b.pixels@,
        a.pixel_total() > 0,
    ensures
        spec_score(a, b) == SCORE_SCALE as int,
{
    lemma_sim_sum_identical(a.pixels@);
    let n = a.pixel_total();
    lemma_div_multiples_vanish(SCORE_SCALE as int, n);
    assert(n * (SCORE_SCALE as int) == a.pixels@.len() * (SCORE_SCALE as int));
}

/// A solid black frame against a solid white one scores 99 of 1'000'000,
/// far below the drop threshold.
pub proof fn lemma_score_black_white(a: GrayImage, b: GrayImage)
    requires
        a.wf(),
        b.wf(),
        a.dims_match(b),
        a.pixel_total() > 0,
        forall|i: int| 0 <= i < a.pixels@.len() ==> a.pixels@[i] == 0,
        forall|i: int| 0 <= i < b.pixels@.len() ==> b.pixels@[i] == 255,
    ensures
        spec_score(a, b) == 99,
        spec_score(a, b) < DROP_THRESHOLD as int,
{
    lemma_sim_sum_extreme(a.pixels@, b.pixels@);
    let n = a.pixel_total();
    lemma_div_multiples_vanish(99, n);
    assert(n * 99 == a.pixels@.len() * 99);
}

/// Why a pair of frames could not be scored.
#[derive(Clone, Copy, Debug, PartialEq, Eq, Structural)]
pub enum ScoreError {
    /// The two frames do not cover the same pixel grid.
    DimensionMismatch,
}

/// The per-pixel similarity of one pair of luminance samples.
pub fn pixel_score(a: u8, b: u8) -> (r: u64)
    ensures
        r == pixel_sim(a as int, b as int),
        r <= SCORE_SCALE,
{
    let ai: u64 = a as u64;
    let bi: u64 = b as u64;
    proof {
        assert(ai * bi <= 65025) by (nonlinear_arith)
            requires ai <= 255, bi <= 255;
        assert(ai * ai <= 65025) by (nonlinear_arith)
            requires ai <= 255;
        assert(bi * bi <= 65025) by (nonlinear_arith)
            requires bi <= 255;
        assert(2 * (ai * bi) <= ai * ai + bi * bi) by (nonlinear_arith);
    }
    let cross: u64 = 2 * RANGE_SCALE * (ai * bi) + STABILIZER;
    let energy: u64 = RANGE_SCALE * (ai * ai + bi * bi) + STABILIZER;
    let q: u64 = (SCORE_SCALE * cross) / energy;
    proof {
        assert(cross <= energy);
        lemma_div_is_ordered((SCORE_SCALE * cross) as int, (SCORE_SCALE * energy) as int,
            energy as int);
        lemma_div_multiples_vanish(SCORE_SCALE as int, energy as int);
        assert((energy as int) * (SCORE_SCALE as int) == (SCORE_SCALE * energy) as int);
    }
    q
}

/// Scores two frames.  Frames of matching dimensions always score: the
/// result is the exact fixed-point average `spec_score`, never above
/// `SCORE_SCALE`.  A dimension mismatch is the one error.
pub fn score(a: &GrayImage, b: &GrayImage) -> (r: Result<u64, ScoreError>)
    requires
        a.wf(),
        b.wf(),
    ensures
        r is Ok <==> a.dims_match(*b),
        r matches Ok(s) ==> s == spec_score(*a, *b) && s <= SCORE_SCALE,
        r matches Err(e) ==> e == ScoreError::DimensionMismatch,
{
    if a.width != b.width || a.height != b.height {
        return Err(ScoreError::DimensionMismatch);
    }
    let n = a.pixels.len();
    let mut i: usize = 0;
    let mut total: u128 = 0;
    while i < n
        invariant
            i <= n,
            n == a.pixels@.len(),
            n == b.pixels@.len(),
            total == sim_sum(a.pixels@.subrange(0, i as int), b.pixels@.subrange(0, i as int)),
            total <= (i as int) * (SCORE_SCALE as int),
        decreases n - i,
    {
        let p = pixel_score(a.pixels[i], b.pixels[i]);
        proof {
            let sa = a.pixels@.subrange(0, i as int + 1);
            let sb = b.pixels@.subrange(0, i as int + 1);
            assert(sa.drop_last() =~= a.pixels@.subrange(0, i as int));
            assert(sb.drop_last() =~= b.pixels@.subrange(0, i as int));
            assert(sim_sum(sa, sb) == total + pixel_sim(a.pixels@[i as int] as int,
                b.pixels@[i as int] as int));
        }
        total = total + p as u128;
        i = i + 1;
    }
    proof {
        assert(a.pixels@.subrange(0, n as int) =~= a.pixels@);
        assert(b.pixels@.subrange(0, n as int) =~= b.pixels@);
    }
    if n == 0 {
        Ok(0)
    } else {
        let avg: u128 = total / (n as u128);
        proof {
            lemma_div_is_ordered(total as int, (n as int) * (SCORE_SCALE as int), n as int);
            lemma_div_multiples_vanish(SCORE_SCALE as int, n as int);
        }
        Ok(avg as u64)
    }
}

} // verus!
