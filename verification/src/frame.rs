//! Frames as plain pixel data.

use vstd::prelude::*;

verus! {

/// Why a frame could not be built from raw parts.
#[derive(Clone, Copy, Debug, PartialEq, Eq, Structural)]
pub enum FrameError {
    /// The sample buffer does not hold exactly one byte per pixel.
    BufferSize,
}

/// One grayscale frame, held as one luminance sample per pixel in row-major
/// order.  All scoring works on values of this type; how the samples were
/// obtained (decoding a file, converting a color image) is the shell's
/// business.
pub struct GrayImage {
    pub width: u32,
    pub height: u32,
    pub pixels: Vec<u8>,
}

impl GrayImage {
    /// The number of pixels the dimensions call for.
    pub open spec fn pixel_total(self) -> int {
        self.width as int * self.height as int
    }

    /// Well-formed: the sample buffer holds exactly one byte per pixel.
    pub open spec fn wf(self) -> bool {
        self.pixels@.len() == self.pixel_total()
    }

    /// Both frames cover the same pixel grid.
    pub open spec fn dims_match(self, other: GrayImage) -> bool {
        self.width == other.width && self.height == other.height
    }

    /// Builds a frame, rejecting a buffer whose length does not fit the
    /// dimensions.
    pub fn new(width: u32, height: u32, pixels: Vec<u8>) -> (r: Result<GrayImage, FrameError>)
        ensures
            r is Ok <==> pixels@.len() == width as int * height as int,
            r matches Ok(g) ==> g.wf() && g.width == width && g.height == height
                && g.pixels@ == pixels@,
            r matches Err(e) ==> e == FrameError::BufferSize,
    {
        proof {
            assert((width as int) * (height as int) < 0x1_0000_0000_0000_0000)
                by (nonlinear_arith)
                requires width as int <= 0xffff_ffff, height as int <= 0xffff_ffff;
        }
        let need: u64 = (width as u64) * (height as u64);
        if pixels.len() as u64 == need {
            Ok(GrayImage { width, height, pixels })
        } else {
            Err(FrameError::BufferSize)
        }
    }
}

} // verus!
