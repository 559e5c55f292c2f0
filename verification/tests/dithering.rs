use dither_core::{
    apply_dithering, ColorMode, DitheringAlgorithm, DitheringSettings, RgbImage,
};

fn image_from(width: usize, height: usize, data: Vec<u8>) -> RgbImage {
    assert_eq!(data.len(), 3 * width * height);
    RgbImage::from_raw(width, height, data)
}

fn settings(algorithm: DitheringAlgorithm) -> DitheringSettings {
    DitheringSettings {
        algorithm,
        colors: 2,
        threshold: 32768,
        error_diffusion: 65536,
        pattern_scale: 2,
        serpentine: true,
        color_mode: ColorMode::Monochrome,
    }
}

fn all_algorithms() -> Vec<DitheringAlgorithm> {
    vec![
        DitheringAlgorithm::FloydSteinberg,
        DitheringAlgorithm::Atkinson,
        DitheringAlgorithm::JarvisJudiceNinke,
        DitheringAlgorithm::Stucki,
        DitheringAlgorithm::Burkes,
        DitheringAlgorithm::Sierra,
        DitheringAlgorithm::SierraTwoRow,
        DitheringAlgorithm::SierraLite,
        DitheringAlgorithm::Bayer2x2,
        DitheringAlgorithm::Bayer4x4,
        DitheringAlgorithm::Bayer8x8,
        DitheringAlgorithm::Bayer16x16,
        DitheringAlgorithm::BlueNoise,
        DitheringAlgorithm::WhiteNoise,
        DitheringAlgorithm::SimpleThreshold,
        DitheringAlgorithm::RandomThreshold,
        DitheringAlgorithm::Pattern,
        DitheringAlgorithm::ClusteredDot,
        DitheringAlgorithm::HalftoneCircle,
        DitheringAlgorithm::HalftoneDiamond,
        DitheringAlgorithm::Riemersma,
        DitheringAlgorithm::FalseFloydSteinberg,
        DitheringAlgorithm::StevenPigeon,
        DitheringAlgorithm::GradientBased,
    ]
}

fn gradient_test_image(width: usize, height: usize) -> RgbImage {
    let mut data = Vec::new();
    for y in 0..height {
        for x in 0..width {
            let v = ((x * 37 + y * 91 + 13) % 256) as u8;
            data.push(v);
            data.push(v.wrapping_mul(3));
            data.push(255 - v);
        }
    }
    image_from(width, height, data)
}

#[test]
fn output_dimensions_match_input_for_every_algorithm() {
    let img = gradient_test_image(7, 5);
    for algorithm in all_algorithms() {
        let out = apply_dithering(&img, &settings(algorithm));
        assert_eq!(out.width, 7);
        assert_eq!(out.height, 5);
        assert_eq!(out.data.len(), 7 * 5 * 3);
    }
}

#[test]
fn error_diffusion_outputs_use_exact_levels() {
    let img = gradient_test_image(6, 6);
    let quantized = vec![
        DitheringAlgorithm::FloydSteinberg,
        DitheringAlgorithm::Atkinson,
        DitheringAlgorithm::JarvisJudiceNinke,
        DitheringAlgorithm::Stucki,
        DitheringAlgorithm::Burkes,
        DitheringAlgorithm::Sierra,
        DitheringAlgorithm::SierraTwoRow,
        DitheringAlgorithm::SierraLite,
        DitheringAlgorithm::FalseFloydSteinberg,
        DitheringAlgorithm::StevenPigeon,
        DitheringAlgorithm::Riemersma,
    ];
    for algorithm in quantized {
        // colors = 3 gives the levels 0, 255*1/2 = 127, 255.
        let mut s = settings(algorithm);
        s.colors = 3;
        let out = apply_dithering(&img, &s);
        for &b in out.data.iter() {
            assert!(b == 0 || b == 127 || b == 255, "byte {} for {:?}", b, s.algorithm);
        }
    }
}

#[test]
fn ordered_family_outputs_are_binary() {
    let img = gradient_test_image(9, 4);
    let ordered = vec![
        DitheringAlgorithm::Bayer2x2,
        DitheringAlgorithm::Bayer4x4,
        DitheringAlgorithm::Bayer8x8,
        DitheringAlgorithm::Bayer16x16,
        DitheringAlgorithm::BlueNoise,
        DitheringAlgorithm::WhiteNoise,
        DitheringAlgorithm::SimpleThreshold,
        DitheringAlgorithm::RandomThreshold,
        DitheringAlgorithm::Pattern,
        DitheringAlgorithm::ClusteredDot,
        DitheringAlgorithm::HalftoneCircle,
        DitheringAlgorithm::HalftoneDiamond,
        DitheringAlgorithm::GradientBased,
    ];
    for algorithm in ordered {
        let out = apply_dithering(&img, &settings(algorithm));
        for &b in out.data.iter() {
            assert!(b == 0 || b == 255, "byte {} for {:?}", b, algorithm);
        }
    }
}

#[test]
fn floyd_steinberg_keeps_pure_white_fixed() {
    // A 2x2 all-white image quantizes exactly: zero residual, nothing
    // diffused, all channels stay 255.
    let img = image_from(2, 2, vec![255; 12]);
    let out = apply_dithering(&img, &settings(DitheringAlgorithm::FloydSteinberg));
    assert_eq!(out.data, vec![255; 12]);
}

#[test]
fn all_black_image_stays_black() {
    // Pure black quantizes exactly for every kernel: zero residual.
    let img = RgbImage::new(3, 2);
    let out = apply_dithering(&img, &settings(DitheringAlgorithm::Atkinson));
    assert_eq!(out.data, vec![0; 18]);
}

#[test]
fn simple_threshold_keeps_binary_input_fixed() {
    // Black then white under a 0.5 threshold is a fixed point.
    let img = image_from(2, 1, vec![0, 0, 0, 255, 255, 255]);
    let out = apply_dithering(&img, &settings(DitheringAlgorithm::SimpleThreshold));
    assert_eq!(out.data, vec![0, 0, 0, 255, 255, 255]);
}

#[test]
fn halftone_circle_matches_analytic_distance_on_mid_gray() {
    // Uniform mid-gray with a cell side of 4: each channel fires exactly
    // where 128/255 strictly exceeds the normalized distance from the cell
    // center.
    let img = image_from(8, 8, vec![128; 8 * 8 * 3]);
    let mut s = settings(DitheringAlgorithm::HalftoneCircle);
    s.pattern_scale = 4;
    let out = apply_dithering(&img, &s);
    for y in 0..8usize {
        for x in 0..8usize {
            let cx = (x % 4) as f64 - 2.0;
            let cy = (y % 4) as f64 - 2.0;
            let dist = (cx * cx + cy * cy).sqrt() / 2.0;
            let expected = if 128.0 / 255.0 > dist { 255 } else { 0 };
            for c in 0..3 {
                assert_eq!(out.data[3 * (y * 8 + x) + c], expected, "at ({}, {})", x, y);
            }
        }
    }
}

#[test]
fn stochastic_algorithms_are_deterministic_across_runs() {
    let img = gradient_test_image(10, 7);
    for algorithm in vec![
        DitheringAlgorithm::WhiteNoise,
        DitheringAlgorithm::RandomThreshold,
        DitheringAlgorithm::BlueNoise,
    ] {
        let a = apply_dithering(&img, &settings(algorithm));
        let b = apply_dithering(&img, &settings(algorithm));
        assert_eq!(a.data, b.data, "two runs differ for {:?}", algorithm);
    }
}

#[test]
fn serpentine_and_raster_scans_both_quantize_to_levels() {
    let img = gradient_test_image(5, 5);
    let mut s = settings(DitheringAlgorithm::FloydSteinberg);
    s.serpentine = false;
    let raster = apply_dithering(&img, &s);
    s.serpentine = true;
    let serp = apply_dithering(&img, &s);
    for &b in raster.data.iter().chain(serp.data.iter()) {
        assert!(b == 0 || b == 255);
    }
}

#[test]
fn default_settings_are_floyd_steinberg_two_level_serpentine() {
    let s = DitheringSettings::default();
    assert!(matches!(s.algorithm, DitheringAlgorithm::FloydSteinberg));
    assert_eq!(s.colors, 2);
    assert_eq!(s.threshold, 32768);
    assert_eq!(s.error_diffusion, 65536);
    assert_eq!(s.pattern_scale, 2);
    assert!(s.serpentine);
    assert!(matches!(s.color_mode, ColorMode::Monochrome));
}

#[test]
fn zero_strength_floyd_steinberg_equals_plain_quantization() {
    // With no diffused error each pixel quantizes independently: channel
    // 200 rounds up to 255 and channel 55 rounds down to 0 at two levels.
    let img = image_from(2, 1, vec![200, 55, 200, 55, 200, 55]);
    let mut s = settings(DitheringAlgorithm::FloydSteinberg);
    s.error_diffusion = 0;
    let out = apply_dithering(&img, &s);
    assert_eq!(out.data, vec![255, 0, 255, 0, 255, 0]);
}

#[test]
fn color_mode_is_advisory_metadata_only() {
    // No algorithm consults the color mode: a custom palette changes
    // nothing about the output (channels stay independently quantized).
    let img = gradient_test_image(4, 4);
    let mono = settings(DitheringAlgorithm::FloydSteinberg);
    let mut palette = settings(DitheringAlgorithm::FloydSteinberg);
    palette.color_mode = ColorMode::CustomPalette(vec![[0, 0, 0], [255, 0, 0]]);
    let a = apply_dithering(&img, &mono);
    let b = apply_dithering(&img, &palette);
    assert_eq!(a.data, b.data);
}

#[test]
fn pattern_dither_zero_cell_fires_on_any_positive_channel() {
    // The dispersed pattern's top-left cell has threshold 0/16: a channel
    // of 1 strictly exceeds it, a channel of 0 does not.
    let img = image_from(1, 1, vec![0, 1, 128]);
    let mut s = settings(DitheringAlgorithm::Pattern);
    s.pattern_scale = 1;
    let out = apply_dithering(&img, &s);
    assert_eq!(out.data, vec![0, 255, 255]);
}

#[test]
fn floyd_steinberg_diffuses_error_to_the_right_neighbor() {
    // One row: 128 quantizes up to 255 at two levels, pushing a negative
    // residual of (128/255 - 1) * 7/16 onto the next pixel, which then
    // falls below the rounding midpoint and quantizes to 0.
    let img = image_from(3, 1, vec![128, 128, 128, 128, 128, 128, 128, 128, 128]);
    let out = apply_dithering(&img, &settings(DitheringAlgorithm::FloydSteinberg));
    assert_eq!(&out.data[0..3], &[255, 255, 255]);
    assert_eq!(&out.data[3..6], &[0, 0, 0]);
}
