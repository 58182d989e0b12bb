//! Data model of the pipeline: the sensor mosaic handed over by a RAW
//! decoder, and the 8-bit RGB frame the pipeline produces.

use vstd::prelude::*;

verus! {

/// A white-balance gain as an exact rational `num / den`.
///
/// Camera metadata stores gains as floating-point numbers; the pipeline
/// works on an exact rational rendering of them so that every arithmetic
/// step has a precise meaning. The bounds in `wf` keep all intermediate
/// products of the color pipeline inside 128-bit integers.
#[derive(Clone, Copy, Debug)]
pub struct WbGain {
    pub num: u32,
    pub den: u32,
}

impl WbGain {
    pub open spec fn wf(self) -> bool {
        1 <= self.den <= 0x10000 && self.num <= 0x10000
    }

    /// A neutral gain of exactly 1.
    pub fn neutral() -> (g: WbGain)
        ensures
            g.wf(),
            g.num == 1,
            g.den == 1,
    {
        WbGain { num: 1, den: 1 }
    }
}

/// The single-channel mosaic produced by a RAW decoder, with its
/// calibration metadata.
pub struct MosaicFrame {
    pub width: usize,
    pub height: usize,
    /// Row-major sensor samples, one per site; length `width * height`.
    pub samples: Vec<u16>,
    /// Four-letter CFA identifier; only "RGGB" and "BGGR" get color
    /// treatment, every other name falls back to grayscale.
    pub pattern: String,
    /// Per-channel (R, G, B, G2) calibration floors.
    pub black_levels: Vec<u16>,
    /// Per-channel (R, G, B, G2) calibration ceilings.
    pub white_levels: Vec<u16>,
    /// Per-channel (R, G, B, G2) white-balance gains.
    pub wb: Vec<WbGain>,
    pub make: String,
    pub model: String,
}

impl MosaicFrame {
    /// Well-formedness: the buffer matches the declared dimensions, the
    /// calibration vectors carry the four conventional entries, and each
    /// used channel has a strictly positive range `white > black`.
    pub open spec fn wf(self) -> bool {
        &&& self.width >= 1
        &&& self.height >= 1
        &&& self.width * self.height * 3 <= usize::MAX
        &&& self.samples@.len() == self.width * self.height
        &&& self.black_levels@.len() == 4
        &&& self.white_levels@.len() == 4
        &&& self.wb@.len() == 4
        &&& forall|c: int| 0 <= c < 3 ==> self.white_levels@[c] > self.black_levels@[c]
        &&& forall|c: int| 0 <= c < 3 ==> (#[trigger] self.wb@[c]).wf()
    }
}

/// An 8-bit RGB frame: row-major `width * height * 3` bytes in
/// sRGB-gamma-encoded space.
#[derive(Clone, Debug)]
pub struct RgbImage {
    pub width: usize,
    pub height: usize,
    pub data: Vec<u8>,
}

impl RgbImage {
    pub open spec fn wf(self) -> bool {
        &&& self.width * self.height * 3 <= usize::MAX
        &&& self.data@.len() == self.width * self.height * 3
    }

    /// The byte of channel `c` of the pixel at `(x, y)`.
    pub open spec fn pixel(self, x: int, y: int, c: int) -> u8 {
        self.data@[(y * self.width + x) * 3 + c]
    }
}

} // verus!
