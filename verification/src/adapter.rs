//! The seam to the external media tool and the image decoder.
//!
//! The pipeline shells out to an external executable for decoding and
//! encoding, and reads still images through the `image` crate.  Everything
//! the library itself can state — the exact argument lists of the two
//! invocations, the frame-pattern and output-file names, the parse of the
//! tool's similarity report — is verified here.  The outside calls
//! themselves stand behind trusted wrappers with the narrowest contracts
//! their sources support.

use vstd::prelude::*;

use crate::collector::{digits_val, is_digit};
use crate::frame::{FrameError, GrayImage};
use crate::scorer::{score, spec_score_raw, SCORE_SCALE};

verus! {

/// Why the external tool could not be made ready.
#[derive(Clone, Copy, Debug, PartialEq, Eq, Structural)]
pub enum ToolError {
    /// The compressed tool image did not unpack: the fatal startup condition.
    Staging,
}

/// What `zstd` decompression yields for a given compressed stream: a pure
/// function of the bytes alone.
pub uninterp spec fn zstd_plain_of(data: Seq<u8>) -> Seq<u8>;

/// Whether a byte stream is a well-formed `zstd` stream, the ones that
/// decompress successfully: a function of the bytes alone.
pub uninterp spec fn zstd_ok_of(data: Seq<u8>) -> bool;

/// Relies on `zstd::decode_all`: decompression of an in-memory byte stream
/// is deterministic, succeeding exactly on well-formed streams; a damaged
/// stream is an error, never a panic.
#[verifier::external_body]
fn zstd_decode(data: &Vec<u8>) -> (r: Option<Vec<u8>>)
    ensures
        r is Some <==> zstd_ok_of(data@),
        r matches Some(out) ==> out@ == zstd_plain_of(data@),
{
    match zstd::decode_all(data.as_slice()) {
        Ok(v) => Some(v),
        Err(_) => None,
    }
}

/// Unpacks the compressed image of the external media tool into its
/// executable bytes.  The shell writes them beside the other temporary
/// files, once per process.  Exactly a well-formed stream unpacks, to its
/// decompressed bytes; anything else is the staging error, the pipeline's
/// one fatal startup condition.
pub fn unpack_tool(archive: &Vec<u8>) -> (r: Result<Vec<u8>, ToolError>)
    ensures
        r is Ok <==> zstd_ok_of(archive@),
        r matches Ok(b) ==> b@ == zstd_plain_of(archive@),
        r matches Err(e) ==> e == ToolError::Staging,
{
    match zstd_decode(archive) {
        Some(b) => Ok(b),
        None => Err(ToolError::Staging),
    }
}

/// Declares `image::DynamicImage` so that a decoded image can pass through
/// signatures; the library never looks inside one.
#[verifier::external_type_specification]
#[verifier::external_body]
pub struct ExDynamicImage(image::DynamicImage);

/// The luminance samples that reducing an image yields: a function of the
/// image value alone.  Nothing is assumed of the buffer's length: an image
/// can be built around an oversized container, which the reduction of an
/// already-grayscale image hands through unchanged.
pub uninterp spec fn luma_of(img: image::DynamicImage) -> Seq<u8>;

/// The pixel width of the reduced image: a function of the image alone.
pub uninterp spec fn luma_width_of(img: image::DynamicImage) -> int;

/// The pixel height of the reduced image: a function of the image alone.
pub uninterp spec fn luma_height_of(img: image::DynamicImage) -> int;

/// Whether an image's luminance reduction holds exactly one byte per pixel,
/// as every image decoded from a file does.
pub open spec fn luma_fits(img: image::DynamicImage) -> bool {
    luma_of(img).len() == luma_width_of(img) * luma_height_of(img)
}

/// Relies on `image::DynamicImage::to_luma8` (with `width`, `height` and
/// `into_raw` converting the resulting buffer): the luminance reduction of
/// an image depends on the image value alone.
#[verifier::external_body]
fn luma_samples(img: &image::DynamicImage) -> (r: (u32, u32, Vec<u8>))
    ensures
        r.0 as int == luma_width_of(*img),
        r.1 as int == luma_height_of(*img),
        r.2@ == luma_of(*img),
{
    let g = img.to_luma8();
    let w = g.width();
    let h = g.height();
    (w, h, g.into_raw())
}

/// Reduces a decoded image to the library's grayscale frame.  The buffer
/// the reduction yields is validated against the dimensions, never trusted:
/// exactly an image whose reduction fits its pixel grid converts, and the
/// frame then holds that reduction outright.
pub fn gray_of_image(img: &image::DynamicImage) -> (r: Result<GrayImage, FrameError>)
    ensures
        r is Ok <==> luma_fits(*img),
        r matches Ok(g) ==> g.wf() && g.pixels@ == luma_of(*img) && g.width as int
            == luma_width_of(*img) && g.height as int == luma_height_of(*img),
        r matches Err(e) ==> e == FrameError::BufferSize,
{
    let (width, height, pixels) = luma_samples(img);
    GrayImage::new(width, height, pixels)
}

/// Why two decoded images could not be scored.
#[derive(Clone, Copy, Debug, PartialEq, Eq, Structural)]
pub enum CompareError {
    /// A luminance reduction does not fit its own pixel grid.
    Image,
    /// The two images do not cover the same pixel grid.
    DimensionMismatch,
}

/// Scores two decoded images: reduces both to luminance and hands them to
/// the verified scorer.  Exactly a pair whose reductions fit their grids
/// and agree in width and height scores, to the scorer's fixed-point value
/// for the two luminance buffers; the errors say which condition failed.
pub fn compare_images(a: &image::DynamicImage, b: &image::DynamicImage) -> (r: Result<
    u64,
    CompareError,
>)
    ensures
        r is Ok <==> (luma_fits(*a) && luma_fits(*b) && luma_width_of(*a) == luma_width_of(*b)
            && luma_height_of(*a) == luma_height_of(*b)),
        r matches Ok(s) ==> s == spec_score_raw(
            luma_of(*a),
            luma_of(*b),
            luma_width_of(*a) * luma_height_of(*a),
        ) && s <= SCORE_SCALE,
        !(luma_fits(*a) && luma_fits(*b)) ==> (r matches Err(e) && e == CompareError::Image),
        (luma_fits(*a) && luma_fits(*b) && !(r is Ok)) ==> (r matches Err(e) && e
            == CompareError::DimensionMismatch),
{
    let ga = match gray_of_image(a) {
        Ok(g) => g,
        Err(_) => {
            return Err(CompareError::Image);
        },
    };
    let gb = match gray_of_image(b) {
        Ok(g) => g,
        Err(_) => {
            return Err(CompareError::Image);
        },
    };
    match score(&ga, &gb) {
        Ok(s) => Ok(s),
        Err(_) => Err(CompareError::DimensionMismatch),
    }
}

/// An owned copy of a byte string.
fn copy_bytes(v: &Vec<u8>) -> (r: Vec<u8>)
    ensures
        r@ == v@,
{
    vstd::slice::slice_to_vec(v.as_slice())
}

/// "-i"
pub open spec fn arg_input() -> Seq<u8> {
    seq![45u8, 105u8]
}

/// "-threads"
pub open spec fn arg_threads() -> Seq<u8> {
    seq![45u8, 116u8, 104u8, 114u8, 101u8, 97u8, 100u8, 115u8]
}

/// "0"
pub open spec fn arg_zero() -> Seq<u8> {
    seq![48u8]
}

/// "-framerate"
pub open spec fn arg_framerate() -> Seq<u8> {
    seq![45u8, 102u8, 114u8, 97u8, 109u8, 101u8, 114u8, 97u8, 116u8, 101u8]
}

/// "30"
pub open spec fn arg_thirty() -> Seq<u8> {
    seq![51u8, 48u8]
}

/// "-c:v"
pub open spec fn arg_codec() -> Seq<u8> {
    seq![45u8, 99u8, 58u8, 118u8]
}

/// "libx264"
pub open spec fn arg_x264() -> Seq<u8> {
    seq![108u8, 105u8, 98u8, 120u8, 50u8, 54u8, 52u8]
}

/// "-preset"
pub open spec fn arg_preset() -> Seq<u8> {
    seq![45u8, 112u8, 114u8, 101u8, 115u8, 101u8, 116u8]
}

/// "fast"
pub open spec fn arg_fast() -> Seq<u8> {
    seq![102u8, 97u8, 115u8, 116u8]
}

/// "-pix_fmt"
pub open spec fn arg_pix_fmt() -> Seq<u8> {
    seq![45u8, 112u8, 105u8, 120u8, 95u8, 102u8, 109u8, 116u8]
}

/// "yuv420p"
pub open spec fn arg_yuv420p() -> Seq<u8> {
    seq![121u8, 117u8, 118u8, 52u8, 50u8, 48u8, 112u8]
}

/// "-filter_complex"
pub open spec fn arg_filter_complex() -> Seq<u8> {
    seq![45u8, 102u8, 105u8, 108u8, 116u8, 101u8, 114u8, 95u8, 99u8, 111u8, 109u8, 112u8, 108u8, 101u8, 120u8]
}

/// "ssim"
pub open spec fn arg_ssim() -> Seq<u8> {
    seq![115u8, 115u8, 105u8, 109u8]
}

/// "-f"
pub open spec fn arg_format() -> Seq<u8> {
    seq![45u8, 102u8]
}

/// "null"
pub open spec fn arg_null() -> Seq<u8> {
    seq![110u8, 117u8, 108u8, 108u8]
}

/// "/frame_%04d.png"
pub open spec fn frame_pattern_suffix() -> Seq<u8> {
    seq![47u8, 102u8, 114u8, 97u8, 109u8, 101u8, 95u8, 37u8, 48u8, 52u8, 100u8, 46u8, 112u8, 110u8, 103u8]
}

/// "_processed.mp4"
pub open spec fn processed_suffix() -> Seq<u8> {
    seq![95u8, 112u8, 114u8, 111u8, 99u8, 101u8, 115u8, 115u8, 101u8, 100u8, 46u8, 109u8, 112u8, 52u8]
}

/// The numbered-frame pattern inside the workspace directory:
/// `<folder>/frame_%04d.png`, the naming contract shared with the external
/// tool on both decode and encode.
pub fn frame_pattern(folder: &Vec<u8>) -> (r: Vec<u8>)
    ensures
        r@ == folder@ + frame_pattern_suffix(),
{
    let mut r = copy_bytes(folder);
    let mut suffix: Vec<u8> = vec![47u8, 102u8, 114u8, 97u8, 109u8, 101u8, 95u8, 37u8, 48u8, 52u8, 100u8, 46u8, 112u8, 110u8, 103u8];
    r.append(&mut suffix);
    proof {
        assert(r@ =~= folder@ + frame_pattern_suffix());
    }
    r
}

/// The argument list of the decode invocation: split `input` into numbered
/// stills at `pattern`, on all available threads.
pub fn decode_args(input: &Vec<u8>, pattern: &Vec<u8>) -> (r: Vec<Vec<u8>>)
    ensures
        r@.len() == 5,
        r@[0]@ == arg_input(),
        r@[1]@ == input@,
        r@[2]@ == pattern@,
        r@[3]@ == arg_threads(),
        r@[4]@ == arg_zero(),
{
    let mut r: Vec<Vec<u8>> = Vec::new();
    r.push(vec![45u8, 105u8]);
    r.push(copy_bytes(input));
    r.push(copy_bytes(pattern));
    r.push(vec![45u8, 116u8, 104u8, 114u8, 101u8, 97u8, 100u8, 115u8]);
    r.push(vec![48u8]);
    proof {
        assert(r@[0]@ =~= arg_input());
        assert(r@[3]@ =~= arg_threads());
        assert(r@[4]@ =~= arg_zero());
    }
    r
}

/// The argument list of the encode invocation: assemble the numbered stills
/// at `pattern` into `output` at 30 frames a second, with the fixed
/// H.264-compatible, constant-pixel-format, multi-threaded configuration.
pub fn encode_args(pattern: &Vec<u8>, output: &Vec<u8>) -> (r: Vec<Vec<u8>>)
    ensures
        r@.len() == 13,
        r@[12]@ == output@,
        r@[0]@ == arg_framerate(),
        r@[1]@ == arg_thirty(),
        r@[2]@ == arg_input(),
        r@[3]@ == pattern@,
        r@[4]@ == arg_codec(),
        r@[5]@ == arg_x264(),
        r@[6]@ == arg_preset(),
        r@[7]@ == arg_fast(),
        r@[8]@ == arg_threads(),
        r@[9]@ == arg_zero(),
        r@[10]@ == arg_pix_fmt(),
        r@[11]@ == arg_yuv420p(),
{
    let mut r: Vec<Vec<u8>> = Vec::new();
    r.push(vec![45u8, 102u8, 114u8, 97u8, 109u8, 101u8, 114u8, 97u8, 116u8, 101u8]);
    r.push(vec![51u8, 48u8]);
    r.push(vec![45u8, 105u8]);
    r.push(copy_bytes(pattern));
    r.push(vec![45u8, 99u8, 58u8, 118u8]);
    r.push(vec![108u8, 105u8, 98u8, 120u8, 50u8, 54u8, 52u8]);
    r.push(vec![45u8, 112u8, 114u8, 101u8, 115u8, 101u8, 116u8]);
    r.push(vec![102u8, 97u8, 115u8, 116u8]);
    r.push(vec![45u8, 116u8, 104u8, 114u8, 101u8, 97u8, 100u8, 115u8]);
    r.push(vec![48u8]);
    r.push(vec![45u8, 112u8, 105u8, 120u8, 95u8, 102u8, 109u8, 116u8]);
    r.push(vec![121u8, 117u8, 118u8, 52u8, 50u8, 48u8, 112u8]);
    r.push(copy_bytes(output));
    proof {
        assert(r@[0]@ =~= arg_framerate());
        assert(r@[1]@ =~= arg_thirty());
        assert(r@[2]@ =~= arg_input());
        assert(r@[4]@ =~= arg_codec());
        assert(r@[5]@ =~= arg_x264());
        assert(r@[6]@ =~= arg_preset());
        assert(r@[7]@ =~= arg_fast());
        assert(r@[8]@ =~= arg_threads());
        assert(r@[9]@ =~= arg_zero());
        assert(r@[10]@ =~= arg_pix_fmt());
        assert(r@[11]@ =~= arg_yuv420p());
    }
    r
}

/// The argument list of the tool-based similarity invocation: compare two
/// stills through the tool's similarity filter, discarding the media output
/// and keeping the report.
pub fn similarity_args(image1: &Vec<u8>, image2: &Vec<u8>) -> (r: Vec<Vec<u8>>)
    ensures
        r@.len() == 8,
        r@[0]@ == arg_input(),
        r@[1]@ == image1@,
        r@[2]@ == arg_input(),
        r@[3]@ == image2@,
        r@[4]@ == arg_filter_complex(),
        r@[5]@ == arg_ssim(),
        r@[6]@ == arg_format(),
        r@[7]@ == arg_null(),
{
    let mut r: Vec<Vec<u8>> = Vec::new();
    r.push(vec![45u8, 105u8]);
    r.push(copy_bytes(image1));
    r.push(vec![45u8, 105u8]);
    r.push(copy_bytes(image2));
    r.push(vec![45u8, 102u8, 105u8, 108u8, 116u8, 101u8, 114u8, 95u8, 99u8, 111u8, 109u8, 112u8, 108u8, 101u8, 120u8]);
    r.push(vec![115u8, 115u8, 105u8, 109u8]);
    r.push(vec![45u8, 102u8]);
    r.push(vec![110u8, 117u8, 108u8, 108u8]);
    proof {
        assert(r@[0]@ =~= arg_input());
        assert(r@[2]@ =~= arg_input());
        assert(r@[4]@ =~= arg_filter_complex());
        assert(r@[5]@ =~= arg_ssim());
        assert(r@[6]@ =~= arg_format());
        assert(r@[7]@ =~= arg_null());
    }
    r
}

/// Index where the base name of a path starts: one past the last '/' (47).
pub open spec fn base_start(p: Seq<u8>) -> int
    decreases p.len(),
{
    if p.len() == 0 {
        0
    } else if p.last() == 47u8 {
        p.len() as int
    } else {
        base_start(p.drop_last())
    }
}

/// Length of the stem of a base name, scanning backward from `end` for the
/// extension dot: the dot must stand strictly after the first byte, so a
/// name that is all extension (".mp4") is its own stem.
pub open spec fn stem_cut(base: Seq<u8>, end: int) -> int
    decreases end,
{
    if end <= 1 {
        base.len() as int
    } else if base[end - 1] == 46u8 {
        end - 1
    } else {
        stem_cut(base, end - 1)
    }
}

/// The base name of the input path without its extension.
pub open spec fn spec_stem(p: Seq<u8>) -> Seq<u8> {
    let bs = base_start(p);
    let base = p.subrange(bs, p.len() as int);
    base.subrange(0, stem_cut(base, base.len() as int))
}

/// The name of the output artifact: `<stem>_processed.mp4`.
pub open spec fn spec_output_name(p: Seq<u8>) -> Seq<u8> {
    spec_stem(p) + processed_suffix()
}

/// Whether the byte before position `j` is not a path separator.
fn no_slash_before(p: &Vec<u8>, j: usize) -> (r: bool)
    requires
        1 <= j <= p@.len(),
    ensures
        r == (p@[j - 1] != 47u8),
{
    p[j - 1] != 47u8
}

/// Whether the byte before position `j` is not a dot.
fn no_dot_before(p: &Vec<u8>, j: usize) -> (r: bool)
    requires
        1 <= j <= p@.len(),
    ensures
        r == (p@[j - 1] != 46u8),
{
    p[j - 1] != 46u8
}

/// The name of the output video for a given input path: the input's base
/// name without its extension, with `_processed.mp4` appended — written
/// beside the process's working directory, never over the input.
pub fn output_name(input: &Vec<u8>) -> (r: Vec<u8>)
    requires
        base_start(input@) < input@.len(),
    ensures
        r@ == spec_output_name(input@),
{
    let n = input.len();
    let mut k = n;
    proof {
        assert(input@.take(n as int) =~= input@);
    }
    while k > 0 && no_slash_before(input, k)
        invariant
            k <= n,
            n == input@.len(),
            base_start(input@) == base_start(input@.take(k as int)),
        decreases k,
    {
        proof {
            assert(input@.take(k as int).drop_last() =~= input@.take(k as int - 1));
            assert(input@.take(k as int).last() == input@[k - 1]);
        }
        k = k - 1;
    }
    proof {
        if k > 0 {
            assert(input@.take(k as int).last() == input@[k - 1]);
        }
        assert(base_start(input@) == k as int);
    }
    let bs = k;
    let ghost base = input@.subrange(bs as int, n as int);
    let mut e = n;
    while e > bs + 1 && no_dot_before(input, e)
        invariant
            bs < n,
            bs + 1 <= e + 1,
            e <= n,
            n == input@.len(),
            base == input@.subrange(bs as int, n as int),
            stem_cut(base, (n - bs) as int) == stem_cut(base, (e - bs) as int),
        decreases e,
    {
        proof {
            assert(base[e - bs - 1] == input@[e - 1]);
        }
        e = e - 1;
    }
    let cut: usize = if e > bs + 1 {
        proof {
            assert(base[e - bs - 1] == input@[e - 1]);
        }
        e - bs - 1
    } else {
        n - bs
    };
    proof {
        assert(cut as int == stem_cut(base, base.len() as int));
        assert(cut <= base.len());
    }
    let mut r: Vec<u8> = Vec::new();
    let mut i = bs;
    while i < bs + cut
        invariant
            bs <= i <= bs + cut,
            bs + cut <= n,
            n == input@.len(),
            r@ =~= input@.subrange(bs as int, i as int),
        decreases bs + cut - i,
    {
        r.push(input[i]);
        proof {
            assert(r@ =~= input@.subrange(bs as int, i as int + 1));
        }
        i = i + 1;
    }
    let mut suffix: Vec<u8> = vec![95u8, 112u8, 114u8, 111u8, 99u8, 101u8, 115u8, 115u8, 101u8, 100u8, 46u8, 109u8, 112u8, 52u8];
    r.append(&mut suffix);
    proof {
        assert(base.subrange(0, cut as int) =~= input@.subrange(bs as int, bs as int + cut));
        assert(r@ =~= spec_output_name(input@));
    }
    r
}

/// The marker before the overall value in the tool's similarity report:
/// "All: " at position `i`.
pub open spec fn marker_at(s: Seq<u8>, i: int) -> bool {
    &&& i + 5 <= s.len()
    &&& s[i] == 65u8
    &&& s[i + 1] == 108u8
    &&& s[i + 2] == 108u8
    &&& s[i + 3] == 58u8
    &&& s[i + 4] == 32u8
}

/// Position of the first marker at or after `i`; the sequence length when
/// there is none.
pub open spec fn first_marker_from(s: Seq<u8>, i: int) -> int
    decreases s.len() - i,
{
    if i + 5 > s.len() {
        s.len() as int
    } else if marker_at(s, i) {
        i
    } else {
        first_marker_from(s, i + 1)
    }
}

/// An ASCII whitespace byte, as the report's token separator.
pub open spec fn is_space(c: u8) -> bool {
    c == 32u8 || (9 <= c && c <= 13)
}

/// End of the whitespace-free token that starts at `i`.
pub open spec fn token_end_from(s: Seq<u8>, i: int) -> int
    decreases s.len() - i,
{
    if i >= s.len() || is_space(s[i]) {
        i
    } else {
        token_end_from(s, i + 1)
    }
}

/// Position of the first dot at or after `i`; the sequence length when
/// there is none.
pub open spec fn first_dot_from(s: Seq<u8>, i: int) -> int
    decreases s.len() - i,
{
    if i >= s.len() {
        s.len() as int
    } else if s[i] == 46u8 {
        i
    } else {
        first_dot_from(s, i + 1)
    }
}

/// A plain decimal token: at least one digit, all bytes digits but for at
/// most one dot.
pub open spec fn valid_decimal(t: Seq<u8>) -> bool {
    let d = first_dot_from(t, 0);
    &&& t.len() >= 1
    &&& (forall|i: int| 0 <= i < t.len() && i != d ==> is_digit(#[trigger] t[i]))
    &&& (d < t.len() ==> t.len() >= 2)
}

/// Ten to the power `n`, for the six fractional places carried.
pub open spec fn pow10(n: int) -> int {
    if n <= 0 {
        1
    } else if n == 1 {
        10
    } else if n == 2 {
        100
    } else if n == 3 {
        1000
    } else if n == 4 {
        10000
    } else if n == 5 {
        100000
    } else {
        1000000
    }
}

/// The fractional digits after the dot at `d`, scaled to millionths; places
/// beyond the sixth are cut off.
pub open spec fn frac_millionths(t: Seq<u8>, d: int) -> int {
    let e = if d + 7 <= t.len() {
        d + 7
    } else {
        t.len() as int
    };
    digits_val(t, d + 1, e) * pow10(6 - (e - d - 1))
}

/// The value of a decimal token in millionths, saturating at `u64::MAX`;
/// 0 for a token that is not a plain decimal number.
pub open spec fn dec_millionths(t: Seq<u8>) -> int {
    if !valid_decimal(t) {
        0
    } else {
        let d = first_dot_from(t, 0);
        let iv = digits_val(t, 0, d);
        let fr = if d < t.len() {
            frac_millionths(t, d)
        } else {
            0
        };
        if iv * 1000000 + fr > u64::MAX {
            u64::MAX as int
        } else {
            iv * 1000000 + fr
        }
    }
}

/// The similarity value of the tool's report: the decimal token after the
/// first "All: " marker, in millionths; 0 when the marker is missing or the
/// token is not a number.
pub open spec fn spec_report_score(s: Seq<u8>) -> int {
    let m = first_marker_from(s, 0);
    if m == s.len() {
        0
    } else {
        dec_millionths(s.subrange(m + 5, token_end_from(s, m + 5)))
    }
}

/// Whether the report holds its marker at position `i`.
fn marker_here(s: &Vec<u8>, i: usize) -> (r: bool)
    requires
        i + 5 <= s@.len(),
        s@.len() <= usize::MAX,
    ensures
        r == marker_at(s@, i as int),
{
    s[i] == 65u8 && s[i + 1] == 108u8 && s[i + 2] == 108u8 && s[i + 3] == 58u8 && s[i + 4] == 32u8
}

/// Whether the byte at `i` is not a token separator.
fn no_space_at(s: &Vec<u8>, i: usize) -> (r: bool)
    requires
        i < s@.len(),
    ensures
        r == !is_space(s@[i as int]),
{
    let c = s[i];
    !(c == 32u8 || (9 <= c && c <= 13))
}

/// The saturating decimal value of the digit bytes `v[from..to)`.
fn digits_value(v: &Vec<u8>, from: usize, to: usize) -> (k: u64)
    requires
        from <= to <= v@.len(),
        forall|m: int| from <= m < to ==> is_digit(#[trigger] v@[m]),
    ensures
        k as int == digits_val(v@, from as int, to as int),
{
    let mut acc: u64 = 0;
    let mut m = from;
    while m < to
        invariant
            from <= m <= to,
            to <= v@.len(),
            forall|w: int| from <= w < to ==> is_digit(#[trigger] v@[w]),
            acc as int == digits_val(v@, from as int, m as int),
        decreases to - m,
    {
        let d = v[m] - 48;
        if acc > 1_844_674_407_370_955_161u64 || (acc == 1_844_674_407_370_955_161u64 && d > 5) {
            acc = u64::MAX;
        } else {
            acc = acc * 10 + d as u64;
        }
        m = m + 1;
    }
    acc
}

/// Reads the overall similarity value out of the tool's report, in
/// millionths: the decimal token after the first "All: " marker.  Only
/// plain decimal tokens are read; a report without the marker, or with any
/// other token — signed, exponent form, or not a number — conservatively
/// reads as the minimum score, which keeps the frame.
#[verifier::rlimit(50)]
pub fn parse_report_score(report: &Vec<u8>) -> (v: u64)
    ensures
        v as int == spec_report_score(report@),
{
    let n = report.len();
    if n < 5 {
        proof {
            assert(first_marker_from(report@, 0) == n as int);
        }
        return 0;
    }
    let mut i: usize = 0;
    while i <= n - 5 && !marker_here(report, i)
        invariant
            i <= n,
            n >= 5,
            n == report@.len(),
            first_marker_from(report@, 0) == first_marker_from(report@, i as int),
        decreases n - i,
    {
        proof {
            assert(first_marker_from(report@, i as int) == first_marker_from(
                report@,
                i as int + 1,
            ));
        }
        i = i + 1;
    }
    if i > n - 5 {
        proof {
            assert(first_marker_from(report@, i as int) == n as int);
        }
        return 0;
    }
    let ts = i + 5;
    let mut e = ts;
    while e < n && no_space_at(report, e)
        invariant
            ts <= e <= n,
            n == report@.len(),
            token_end_from(report@, ts as int) == token_end_from(report@, e as int),
        decreases n - e,
    {
        proof {
            assert(token_end_from(report@, e as int) == token_end_from(report@, e as int + 1));
        }
        e = e + 1;
    }
    let te = e;
    proof {
        assert(token_end_from(report@, te as int) == te as int);
    }
    let ghost token = report@.subrange(ts as int, te as int);
    if ts == te {
        proof {
            assert(token.len() == 0);
            assert(!valid_decimal(token));
        }
        return 0;
    }
    let mut d = ts;
    while d < te && report[d] != 46u8
        invariant
            ts <= d <= te,
            te <= n,
            n == report@.len(),
            token == report@.subrange(ts as int, te as int),
            first_dot_from(token, 0) == first_dot_from(token, (d - ts) as int),
        decreases te - d,
    {
        proof {
            assert(token[d - ts] == report@[d as int]);
            assert(first_dot_from(token, (d - ts) as int) == first_dot_from(
                token,
                (d - ts) as int + 1,
            ));
        }
        d = d + 1;
    }
    let dot = d;
    proof {
        if dot < te {
            assert(token[dot - ts] == report@[dot as int]);
        }
        assert(first_dot_from(token, (dot - ts) as int) == (dot - ts) as int);
    }
    if dot < te && te - ts < 2 {
        proof {
            assert(token.len() == 1);
            assert(first_dot_from(token, 0) == dot - ts);
            assert(dot - ts == 0);
            assert(!valid_decimal(token));
        }
        return 0;
    }
    let mut ok = true;
    let mut c = ts;
    while c < te
        invariant
            ts <= c <= te,
            te <= n,
            n == report@.len(),
            token == report@.subrange(ts as int, te as int),
            ts <= dot <= te,
            ts < te,
            first_dot_from(token, 0) == dot - ts,
            ok ==> forall|w: int| 0 <= w < c - ts && w != dot - ts ==> is_digit(
                #[trigger] token[w],
            ),
            !ok ==> !valid_decimal(token),
        decreases te - c,
    {
        if c != dot {
            let b = report[c];
            if !(48 <= b && b <= 57) {
                proof {
                    assert(token[c - ts] == report@[c as int]);
                    assert(!is_digit(token[c - ts]));
                    assert(c - ts != dot - ts);
                    assert(!valid_decimal(token));
                }
                ok = false;
            } else {
                proof {
                    assert(token[c - ts] == report@[c as int]);
                }
            }
        }
        c = c + 1;
    }
    if !ok {
        return 0;
    }
    proof {
        assert(valid_decimal(token));
        assert forall|w: int| ts <= w < dot implies is_digit(#[trigger] report@[w]) by {
            assert(token[w - ts] == report@[w]);
            assert(w - ts != dot - ts);
        }
        lemma_digits_val_sub(report@, ts as int, te as int, ts as int, dot as int);
    }
    let iv = digits_value(report, ts, dot);
    let fr: u64 = if dot < te {
        let fe: usize = if te >= 7 && dot <= te - 7 {
            dot + 7
        } else {
            te
        };
        proof {
            assert forall|w: int| dot + 1 <= w < fe implies is_digit(#[trigger] report@[w]) by {
                assert(token[w - ts] == report@[w]);
                assert(w - ts != dot - ts);
            }
            lemma_digits_val_sub(report@, ts as int, te as int, dot as int + 1, fe as int);
        }
        let digits = digits_value(report, dot + 1, fe);
        let places = fe - dot - 1;
        proof {
            lemma_digits_val_bound(report@, dot as int + 1, fe as int);
        }
        let part: u64 = if places == 0 {
            0
        } else if places == 1 {
            digits * 100_000
        } else if places == 2 {
            digits * 10_000
        } else if places == 3 {
            digits * 1_000
        } else if places == 4 {
            digits * 100
        } else if places == 5 {
            digits * 10
        } else {
            digits
        };
        proof {
            let d_rel = (dot - ts) as int;
            let e_rel = (fe - ts) as int;
            assert(digits as int == digits_val(token, d_rel + 1, e_rel));
            assert(e_rel == (if d_rel + 7 <= token.len() {
                d_rel + 7
            } else {
                token.len() as int
            }));
            assert(frac_millionths(token, d_rel) == digits_val(token, d_rel + 1, e_rel) * pow10(
                6 - (e_rel - d_rel - 1),
            ));
            assert(places as int == e_rel - d_rel - 1);
            if places == 0 {
                assert(digits_val(token, d_rel + 1, e_rel) == 0);
                assert(frac_millionths(token, d_rel) == 0);
            } else if places == 1 {
                assert(pow10(6 - (e_rel - d_rel - 1)) == 100_000);
            } else if places == 2 {
                assert(pow10(6 - (e_rel - d_rel - 1)) == 10_000);
            } else if places == 3 {
                assert(pow10(6 - (e_rel - d_rel - 1)) == 1_000);
            } else if places == 4 {
                assert(pow10(6 - (e_rel - d_rel - 1)) == 100);
            } else if places == 5 {
                assert(pow10(6 - (e_rel - d_rel - 1)) == 10);
            } else {
                assert(places == 6);
                assert(pow10(6 - (e_rel - d_rel - 1)) == 1);
            }
            assert(part as int == frac_millionths(token, d_rel));
            assert(part <= 999_999);
        }
        part
    } else {
        0
    };
    proof {
        assert(fr as int == (if (dot - ts) < token.len() {
            frac_millionths(token, (dot - ts) as int)
        } else {
            0
        }));
        assert(fr <= 999_999);
    }
    if iv > 18_446_744_073_709u64 || (iv == 18_446_744_073_709u64 && fr > 551_615) {
        u64::MAX
    } else {
        iv * 1_000_000 + fr
    }
}

/// The decimal value of a digit run in a longer sequence is the same read
/// through any window that contains it.
proof fn lemma_digits_val_sub(s: Seq<u8>, a: int, b: int, from: int, to: int)
    requires
        0 <= a <= from <= to <= b <= s.len(),
    ensures
        digits_val(s.subrange(a, b), from - a, to - a) == digits_val(s, from, to),
    decreases to - from,
{
    if to > from {
        lemma_digits_val_sub(s, a, b, from, to - 1);
        assert(s.subrange(a, b)[to - a - 1] == s[to - 1]);
    }
}

/// At most `to - from` digits bound the value below ten to that power.
proof fn lemma_digits_val_bound(s: Seq<u8>, from: int, to: int)
    requires
        0 <= from <= to <= s.len(),
        to - from <= 6,
        forall|m: int| from <= m < to ==> is_digit(#[trigger] s[m]),
    ensures
        0 <= digits_val(s, from, to) < pow10(to - from),
    decreases to - from,
{
    if to > from {
        lemma_digits_val_bound(s, from, to - 1);
    }
}

} // verus!
