//! Dithering engine: converts continuous-tone RGB images into
//! reduced-color-depth images with classical and modern dithering
//! algorithms (error diffusion, ordered/matrix, stochastic noise, and
//! space-filling-curve families).
//!
//! Fractional quantities (channel intensities, thresholds, diffusion
//! weights) are held in exact fixed-point form: an intensity in [0, 1] is
//! an integer count of 1/(255 * 65536) units, so every 8-bit channel value
//! and every documented kernel weight is representable without rounding.

mod error_diffusion;
mod halftone;
mod hilbert;
mod kernel;
mod noise;
mod ordered;
mod quantize;
mod rgb_image;
mod riemersma;
mod rng;
mod settings;

pub use error_diffusion::{
    atkinson, burkes, byte_scan, diffuse_amount, diffuse_tap, diffuse_taps, ed_output, ed_params,
    ed_params_wf, ed_state, ed_step, error_diffusion_generic, errs_view, false_floyd_steinberg,
    floyd_steinberg, jarvis_judice_ninke, lemma_ed_output_levels, lemma_ed_state_out,
    lemma_ed_state_wf, row_reversed, scan_of_pixel, scan_x, scan_y, sierra, sierra_lite,
    sierra_two_row, steven_pigeon, stucki, tap_x, DiffuseCtx, EdParams, EdState,
};
pub use halftone::{
    abs_int, circle_on, diamond_on, halftone_circle, halftone_circle_on, halftone_diamond,
    halftone_diamond_on, halftone_scale,
};
pub use hilbert::{
    hilbert_index, hilbert_index_to_xy, hilbert_xy, hpow2, lemma_hilbert_round_trip_1,
    lemma_hilbert_round_trip_2, lemma_hilbert_xy_range, lemma_hpow2_mono, lemma_pow_facts, pow4,
};
pub use kernel::{
    atkinson_kernel, atkinson_taps, burkes_kernel, burkes_taps, false_floyd_steinberg_kernel,
    false_floyd_steinberg_taps, floyd_steinberg_kernel, floyd_steinberg_taps,
    jarvis_judice_ninke_kernel, jarvis_judice_ninke_taps, sierra_kernel, sierra_lite_kernel,
    sierra_lite_taps, sierra_taps, sierra_two_row_kernel, sierra_two_row_taps,
    steven_pigeon_kernel, steven_pigeon_taps, stucki_kernel, stucki_taps, tap_wf, taps_num_sum,
    DiffusionKernel, KernelTap,
};
pub use noise::{
    blue_noise, blue_noise_field, blue_noise_on, bn_attempts, bn_pass, bn_state, bn_target,
    bn_try, generate_blue_noise, random_threshold, random_threshold_on, white_noise,
    white_noise_on, BnState, BLUE_NOISE_SEED, RANDOM_THRESHOLD_SEED, WHITE_NOISE_SEED,
};
pub use ordered::{
    bay_interleave, bayer, bayer_num, bayer_on, bin_byte, clustered_dot, clustered_on,
    clustered_table, generate_bayer_matrix, gradient_based, gradient_g, gradient_on, is_pow2,
    lemma_bay_interleave_injective, lemma_bay_interleave_range, lemma_bayer_matrix_distinct,
    over_threshold, pattern_dither, pattern_on, pattern_table, simple_threshold,
    simple_threshold_on,
};
pub use quantize::{
    clamp_intensity, find_nearest_color, is_level, lemma_level_value_range,
    lemma_quant_level_range, lemma_quantize_endpoints, lemma_quantize_is_level, level_value,
    quant_level, quantize_color, quantize_spec, FULL, MAX_LEVELS, UNIT,
};
pub use rgb_image::{
    lemma_byte_coords, lemma_pix_base_injective, lemma_pix_base_range, pix_base, RgbImage,
    MAX_PIXELS,
};
pub use riemersma::{
    lemma_riem_level_covers, lemma_riem_output_levels, lemma_riem_state_out, lemma_riem_state_wf,
    riem_level, riem_output, riem_state, riem_step, riemersma, RiemState, RIEM_DECAY_DEN,
    RIEM_DECAY_NUM,
};
pub use rng::{lcg_at, lcg_next, lcg_rand};
pub use settings::{ColorMode, DitheringAlgorithm, DitheringSettings};

use vstd::prelude::*;

verus! {

/// The output bytes every algorithm produces for a given image and
/// settings, as one mathematical function: error-diffusion and Riemersma
/// variants through their scan/walk recurrences, and the stateless ordered,
/// noise and halftone variants pixel by pixel.
pub open spec fn apply_spec(img: RgbImage, settings: DitheringSettings) -> Seq<u8> {
    let w = img.width as int;
    let h = img.height as int;
    let t = settings.threshold as int;
    let ps = settings.pattern_scale as int;
    let len = img.data@.len() as int;
    match settings.algorithm {
        DitheringAlgorithm::FloydSteinberg => ed_output(
            img.data@,
            ed_params(img, settings, floyd_steinberg_taps(), 16),
        ),
        DitheringAlgorithm::Atkinson => ed_output(
            img.data@,
            ed_params(img, settings, atkinson_taps(), 8),
        ),
        DitheringAlgorithm::JarvisJudiceNinke => ed_output(
            img.data@,
            ed_params(img, settings, jarvis_judice_ninke_taps(), 48),
        ),
        DitheringAlgorithm::Stucki => ed_output(
            img.data@,
            ed_params(img, settings, stucki_taps(), 42),
        ),
        DitheringAlgorithm::Burkes => ed_output(
            img.data@,
            ed_params(img, settings, burkes_taps(), 32),
        ),
        DitheringAlgorithm::Sierra => ed_output(
            img.data@,
            ed_params(img, settings, sierra_taps(), 32),
        ),
        DitheringAlgorithm::SierraTwoRow => ed_output(
            img.data@,
            ed_params(img, settings, sierra_two_row_taps(), 16),
        ),
        DitheringAlgorithm::SierraLite => ed_output(
            img.data@,
            ed_params(img, settings, sierra_lite_taps(), 4),
        ),
        DitheringAlgorithm::FalseFloydSteinberg => ed_output(
            img.data@,
            ed_params(img, settings, false_floyd_steinberg_taps(), 8),
        ),
        DitheringAlgorithm::StevenPigeon => ed_output(
            img.data@,
            ed_params(img, settings, steven_pigeon_taps(), 8),
        ),
        DitheringAlgorithm::Bayer2x2 => Seq::new(
            len as nat,
            |i: int| bin_byte(bayer_on(img, 2, i)),
        ),
        DitheringAlgorithm::Bayer4x4 => Seq::new(
            len as nat,
            |i: int| bin_byte(bayer_on(img, 4, i)),
        ),
        DitheringAlgorithm::Bayer8x8 => Seq::new(
            len as nat,
            |i: int| bin_byte(bayer_on(img, 8, i)),
        ),
        DitheringAlgorithm::Bayer16x16 => Seq::new(
            len as nat,
            |i: int| bin_byte(bayer_on(img, 16, i)),
        ),
        DitheringAlgorithm::BlueNoise => Seq::new(
            len as nat,
            |i: int| bin_byte(blue_noise_on(img, t, i)),
        ),
        DitheringAlgorithm::WhiteNoise => Seq::new(
            len as nat,
            |i: int| bin_byte(white_noise_on(img, t, i)),
        ),
        DitheringAlgorithm::SimpleThreshold => Seq::new(
            len as nat,
            |i: int| bin_byte(simple_threshold_on(img, t, i)),
        ),
        DitheringAlgorithm::RandomThreshold => Seq::new(
            len as nat,
            |i: int| bin_byte(random_threshold_on(img, t, i)),
        ),
        DitheringAlgorithm::Pattern => Seq::new(
            len as nat,
            |i: int| bin_byte(pattern_on(img, ps, i)),
        ),
        DitheringAlgorithm::ClusteredDot => Seq::new(
            len as nat,
            |i: int| bin_byte(clustered_on(img, i)),
        ),
        DitheringAlgorithm::HalftoneCircle => Seq::new(
            len as nat,
            |i: int| bin_byte(halftone_circle_on(img, ps, i)),
        ),
        DitheringAlgorithm::HalftoneDiamond => Seq::new(
            len as nat,
            |i: int| bin_byte(halftone_diamond_on(img, ps, i)),
        ),
        DitheringAlgorithm::GradientBased => Seq::new(
            len as nat,
            |i: int| bin_byte(gradient_on(img, t, i)),
        ),
        DitheringAlgorithm::Riemersma => riem_output(
            img.data@,
            w,
            h,
            settings.colors as int,
            settings.error_diffusion as int,
        ),
    }
}

/// The algorithm honors the configured level count: error diffusion and
/// the space-filling-curve walk.
pub open spec fn is_level_quantized_family(a: DitheringAlgorithm) -> bool {
    match a {
        DitheringAlgorithm::FloydSteinberg => true,
        DitheringAlgorithm::Atkinson => true,
        DitheringAlgorithm::JarvisJudiceNinke => true,
        DitheringAlgorithm::Stucki => true,
        DitheringAlgorithm::Burkes => true,
        DitheringAlgorithm::Sierra => true,
        DitheringAlgorithm::SierraTwoRow => true,
        DitheringAlgorithm::SierraLite => true,
        DitheringAlgorithm::FalseFloydSteinberg => true,
        DitheringAlgorithm::StevenPigeon => true,
        DitheringAlgorithm::Riemersma => true,
        _ => false,
    }
}

/// Applies the configured dithering algorithm to the image, producing a
/// fresh buffer of identical dimensions whose bytes are exactly the ones
/// `apply_spec` assigns to this image and settings.
pub fn apply_dithering(img: &RgbImage, settings: &DitheringSettings) -> (r: RgbImage)
    requires
        img.wf(),
        1 <= img.width,
        1 <= img.height,
        settings.wf(),
    ensures
        r.wf(),
        r.width == img.width,
        r.height == img.height,
        r.data@.len() == img.data@.len(),
        r.data@ == apply_spec(*img, *settings),
{
    proof {
        assert(is_pow2(1));
        assert(is_pow2(2));
        assert(is_pow2(4));
        assert(is_pow2(8));
        assert(is_pow2(16));
    }
    let r = match settings.algorithm {
        DitheringAlgorithm::FloydSteinberg => floyd_steinberg(img, settings),
        DitheringAlgorithm::Atkinson => atkinson(img, settings),
        DitheringAlgorithm::JarvisJudiceNinke => jarvis_judice_ninke(img, settings),
        DitheringAlgorithm::Stucki => stucki(img, settings),
        DitheringAlgorithm::Burkes => burkes(img, settings),
        DitheringAlgorithm::Sierra => sierra(img, settings),
        DitheringAlgorithm::SierraTwoRow => sierra_two_row(img, settings),
        DitheringAlgorithm::SierraLite => sierra_lite(img, settings),
        DitheringAlgorithm::Bayer2x2 => bayer(img, settings, 2),
        DitheringAlgorithm::Bayer4x4 => bayer(img, settings, 4),
        DitheringAlgorithm::Bayer8x8 => bayer(img, settings, 8),
        DitheringAlgorithm::Bayer16x16 => bayer(img, settings, 16),
        DitheringAlgorithm::BlueNoise => blue_noise(img, settings),
        DitheringAlgorithm::WhiteNoise => white_noise(img, settings),
        DitheringAlgorithm::SimpleThreshold => simple_threshold(img, settings),
        DitheringAlgorithm::RandomThreshold => random_threshold(img, settings),
        DitheringAlgorithm::Pattern => pattern_dither(img, settings),
        DitheringAlgorithm::ClusteredDot => clustered_dot(img, settings),
        DitheringAlgorithm::HalftoneCircle => halftone_circle(img, settings),
        DitheringAlgorithm::HalftoneDiamond => halftone_diamond(img, settings),
        DitheringAlgorithm::Riemersma => riemersma(img, settings),
        DitheringAlgorithm::FalseFloydSteinberg => false_floyd_steinberg(img, settings),
        DitheringAlgorithm::StevenPigeon => steven_pigeon(img, settings),
        DitheringAlgorithm::GradientBased => gradient_based(img, settings),
    };
    proof {
        assert(r.data@ =~= apply_spec(*img, *settings));
    }
    r
}

/// Every tap table of the ten documented kernels is well formed over its
/// denominator.
proof fn lemma_taps_wf()
    ensures
        forall|j: int|
            0 <= j < floyd_steinberg_taps().len() ==> tap_wf(#[trigger] floyd_steinberg_taps()[j], 16),
        forall|j: int| 0 <= j < atkinson_taps().len() ==> tap_wf(#[trigger] atkinson_taps()[j], 8),
        forall|j: int|
            0 <= j < jarvis_judice_ninke_taps().len() ==> tap_wf(
                #[trigger] jarvis_judice_ninke_taps()[j],
                48,
            ),
        forall|j: int| 0 <= j < stucki_taps().len() ==> tap_wf(#[trigger] stucki_taps()[j], 42),
        forall|j: int| 0 <= j < burkes_taps().len() ==> tap_wf(#[trigger] burkes_taps()[j], 32),
        forall|j: int| 0 <= j < sierra_taps().len() ==> tap_wf(#[trigger] sierra_taps()[j], 32),
        forall|j: int|
            0 <= j < sierra_two_row_taps().len() ==> tap_wf(#[trigger] sierra_two_row_taps()[j], 16),
        forall|j: int|
            0 <= j < sierra_lite_taps().len() ==> tap_wf(#[trigger] sierra_lite_taps()[j], 4),
        forall|j: int|
            0 <= j < false_floyd_steinberg_taps().len() ==> tap_wf(
                #[trigger] false_floyd_steinberg_taps()[j],
                8,
            ),
        forall|j: int|
            0 <= j < steven_pigeon_taps().len() ==> tap_wf(#[trigger] steven_pigeon_taps()[j], 8),
{
}

/// For every error-diffusion kernel and for the Riemersma walk, each
/// channel of every output byte is one of the `colors` evenly spaced
/// levels round(k * 255 / (colors - 1)), k in 0 .. colors.
pub proof fn lemma_output_within_levels(img: RgbImage, settings: DitheringSettings)
    requires
        img.wf(),
        1 <= img.width,
        1 <= img.height,
        settings.wf(),
        is_level_quantized_family(settings.algorithm),
    ensures
        forall|i: int|
            0 <= i < apply_spec(img, settings).len() ==> is_level(
                #[trigger] apply_spec(img, settings)[i] as int,
                settings.colors as int,
            ),
{
    lemma_taps_wf();
    match settings.algorithm {
        DitheringAlgorithm::FloydSteinberg => {
            lemma_ed_output_levels(img.data@, ed_params(img, settings, floyd_steinberg_taps(), 16));
        },
        DitheringAlgorithm::Atkinson => {
            lemma_ed_output_levels(img.data@, ed_params(img, settings, atkinson_taps(), 8));
        },
        DitheringAlgorithm::JarvisJudiceNinke => {
            lemma_ed_output_levels(
                img.data@,
                ed_params(img, settings, jarvis_judice_ninke_taps(), 48),
            );
        },
        DitheringAlgorithm::Stucki => {
            lemma_ed_output_levels(img.data@, ed_params(img, settings, stucki_taps(), 42));
        },
        DitheringAlgorithm::Burkes => {
            lemma_ed_output_levels(img.data@, ed_params(img, settings, burkes_taps(), 32));
        },
        DitheringAlgorithm::Sierra => {
            lemma_ed_output_levels(img.data@, ed_params(img, settings, sierra_taps(), 32));
        },
        DitheringAlgorithm::SierraTwoRow => {
            lemma_ed_output_levels(img.data@, ed_params(img, settings, sierra_two_row_taps(), 16));
        },
        DitheringAlgorithm::SierraLite => {
            lemma_ed_output_levels(img.data@, ed_params(img, settings, sierra_lite_taps(), 4));
        },
        DitheringAlgorithm::FalseFloydSteinberg => {
            lemma_ed_output_levels(
                img.data@,
                ed_params(img, settings, false_floyd_steinberg_taps(), 8),
            );
        },
        DitheringAlgorithm::StevenPigeon => {
            lemma_ed_output_levels(img.data@, ed_params(img, settings, steven_pigeon_taps(), 8));
        },
        DitheringAlgorithm::Riemersma => {
            lemma_riem_output_levels(
                img.data@,
                img.width as int,
                img.height as int,
                settings.colors as int,
                settings.error_diffusion as int,
            );
        },
        _ => {},
    }
}

/// For every ordered, pattern, noise and halftone algorithm, each output
/// channel is exactly 0 or 255.
pub proof fn lemma_output_binary(img: RgbImage, settings: DitheringSettings)
    requires
        img.wf(),
        settings.wf(),
        !is_level_quantized_family(settings.algorithm),
    ensures
        forall|i: int|
            0 <= i < apply_spec(img, settings).len() ==> (#[trigger] apply_spec(img, settings)[i]
                == 0 || apply_spec(img, settings)[i] == 255),
{
}

/// The output is a function of the image and the settings alone: two
/// results of the same call agree byte for byte (the stochastic variants'
/// generator seeds are fixed, so their fields repeat as well).
pub proof fn lemma_output_deterministic(
    a: Seq<u8>,
    b: Seq<u8>,
    img: RgbImage,
    settings: DitheringSettings,
)
    requires
        a == apply_spec(img, settings),
        b == apply_spec(img, settings),
    ensures
        a == b,
{
}

} // verus!
