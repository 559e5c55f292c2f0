use vstd::prelude::*;
use crate::quantize::{MAX_LEVELS, UNIT};

verus! {

/// The twenty-four supported dithering algorithms, spanning four families:
/// error diffusion, ordered/matrix thresholding, stochastic noise, and
/// space-filling-curve traversal.
#[derive(Clone, Copy, Debug, PartialEq, Eq, Structural)]
pub enum DitheringAlgorithm {
    FloydSteinberg,
    Atkinson,
    JarvisJudiceNinke,
    Stucki,
    Burkes,
    Sierra,
    SierraTwoRow,
    SierraLite,
    Bayer2x2,
    Bayer4x4,
    Bayer8x8,
    Bayer16x16,
    BlueNoise,
    WhiteNoise,
    SimpleThreshold,
    RandomThreshold,
    Pattern,
    ClusteredDot,
    HalftoneCircle,
    HalftoneDiamond,
    Riemersma,
    FalseFloydSteinberg,
    StevenPigeon,
    GradientBased,
}

/// Advisory color-mode metadata. No algorithm in this engine consults it:
/// channels are always quantized independently, and the custom palette is
/// declared configuration that nothing reads yet.
#[derive(Clone, Debug)]
pub enum ColorMode {
    Monochrome,
    Grayscale,
    FullColor,
    CustomPalette(Vec<[u8; 3]>),
}

/// Immutable configuration for one dithering call. `threshold` and
/// `error_diffusion` are fixed-point fractions of UNIT (so UNIT means 1.0).
#[derive(Clone, Debug)]
pub struct DitheringSettings {
    pub algorithm: DitheringAlgorithm,
    /// Number of quantization levels per channel, at least 2.
    pub colors: usize,
    /// Threshold in [0, UNIT], scaling the ordered-family threshold fields.
    pub threshold: u32,
    /// Error-diffusion strength in [0, UNIT], scaling all diffused error.
    pub error_diffusion: u32,
    /// Pattern/halftone cell scale in pixels, at least 1.
    pub pattern_scale: u32,
    /// Traverse odd rows right-to-left during error diffusion.
    pub serpentine: bool,
    pub color_mode: ColorMode,
}

impl DitheringSettings {
    /// The configuration ranges every algorithm requires of its settings.
    pub open spec fn wf(self) -> bool {
        &&& 2 <= self.colors <= MAX_LEVELS
        &&& self.threshold <= UNIT
        &&& self.error_diffusion <= UNIT
        &&& 1 <= self.pattern_scale
    }
}

impl Default for DitheringSettings {
    /// Floyd-Steinberg at two levels per channel, threshold 0.5, full
    /// diffusion strength, cell scale 2, serpentine scanning, monochrome.
    fn default() -> (s: Self)
        ensures
            s.algorithm == DitheringAlgorithm::FloydSteinberg,
            s.colors == 2,
            s.threshold == UNIT / 2,
            s.error_diffusion == UNIT,
            s.pattern_scale == 2,
            s.serpentine,
            s.color_mode is Monochrome,
            s.wf(),
    {
        DitheringSettings {
            algorithm: DitheringAlgorithm::FloydSteinberg,
            colors: 2,
            threshold: 32768,
            error_diffusion: 65536,
            pattern_scale: 2,
            serpentine: true,
            color_mode: ColorMode::Monochrome,
        }
    }
}

} // verus!
