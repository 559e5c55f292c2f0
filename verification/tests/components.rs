use dither_core::{
    atkinson_kernel, burkes_kernel, false_floyd_steinberg_kernel, floyd_steinberg_kernel,
    generate_bayer_matrix, generate_blue_noise, hilbert_index_to_xy, jarvis_judice_ninke_kernel,
    quantize_color, sierra_kernel, sierra_lite_kernel, sierra_two_row_kernel,
    steven_pigeon_kernel, stucki_kernel, DiffusionKernel,
};

fn weight_sum(k: &DiffusionKernel) -> u32 {
    let mut sum = 0;
    for t in k.taps.iter() {
        sum += t.num;
    }
    sum
}

#[test]
fn kernel_weights_sum_to_one() {
    // Each kernel's weights sum to exactly den/den = 1.
    let full: Vec<(DiffusionKernel, u32)> = vec![
        (floyd_steinberg_kernel(), 16),
        (jarvis_judice_ninke_kernel(), 48),
        (stucki_kernel(), 42),
        (burkes_kernel(), 32),
        (sierra_kernel(), 32),
        (sierra_two_row_kernel(), 16),
        (sierra_lite_kernel(), 4),
        (false_floyd_steinberg_kernel(), 8),
        (steven_pigeon_kernel(), 8),
    ];
    for (k, den) in full {
        assert_eq!(k.den, den);
        assert_eq!(weight_sum(&k), den);
    }
}

#[test]
fn atkinson_kernel_retains_a_quarter_of_the_error() {
    // Atkinson intentionally sums to 6/8, below 1.
    let k = atkinson_kernel();
    assert_eq!(k.den, 8);
    assert_eq!(weight_sum(&k), 6);
    assert_eq!(k.taps.len(), 6);
}

#[test]
fn floyd_steinberg_kernel_has_documented_taps() {
    let k = floyd_steinberg_kernel();
    let expected = vec![(1, 0, 7), (-1, 1, 3), (0, 1, 5), (1, 1, 1)];
    assert_eq!(k.taps.len(), expected.len());
    for (t, e) in k.taps.iter().zip(expected.iter()) {
        assert_eq!((t.dx, t.dy, t.num), *e);
    }
}

#[test]
fn bayer_base_matrix_is_exact() {
    // Size 2 entries over the denominator 8 are {0, 4, 6, 2}: the
    // thresholds 0, 0.5, 0.75, 0.25 at [(0,0), (0,1), (1,0), (1,1)].
    let m = generate_bayer_matrix(2);
    assert_eq!(m[0][0], 0);
    assert_eq!(m[0][1], 4);
    assert_eq!(m[1][0], 6);
    assert_eq!(m[1][1], 2);
}

#[test]
fn bayer_matrices_have_distinct_interior_entries() {
    for size in vec![4usize, 8, 16] {
        let m = generate_bayer_matrix(size);
        let den = 2 * (size as u32) * (size as u32);
        let mut seen = Vec::new();
        for row in m.iter() {
            for &e in row.iter() {
                // strictly inside (0, 1)
                assert!(0 < e && e < den);
                assert!(!seen.contains(&e), "duplicate entry {} at size {}", e, size);
                seen.push(e);
            }
        }
        assert_eq!(seen.len(), size * size);
    }
}

#[test]
fn bayer_four_matrix_has_exact_interleaved_entry() {
    // row 1, column 2: interleaved value 6, centered numerator 2*6 + 1 = 13
    // over the denominator 32.
    let m = generate_bayer_matrix(4);
    assert_eq!(m[1][2], 13);
    assert_eq!(m[0][0], 1);
}

#[test]
fn hilbert_level_one_visits_each_cell_once() {
    let mut seen = Vec::new();
    for i in 0..4u64 {
        let (x, y) = hilbert_index_to_xy(i, 1);
        assert!(x < 2 && y < 2);
        assert!(!seen.contains(&(x, y)));
        seen.push((x, y));
    }
    assert_eq!(seen.len(), 4);
    assert_eq!(seen[0], (0, 0));
}

#[test]
fn hilbert_level_two_is_a_bijection() {
    let mut seen = Vec::new();
    for i in 0..16u64 {
        let (x, y) = hilbert_index_to_xy(i, 2);
        assert!(x < 4 && y < 4);
        assert!(!seen.contains(&(x, y)));
        seen.push((x, y));
    }
    assert_eq!(seen.len(), 16);
}

#[test]
fn hilbert_ignores_bits_above_the_level() {
    let (x1, y1) = hilbert_index_to_xy(5, 2);
    let (x2, y2) = hilbert_index_to_xy(5 + 16, 2);
    assert_eq!((x1, y1), (x2, y2));
}

#[test]
fn quantize_color_hits_exact_levels() {
    const FULL: i64 = 16711680;
    // endpoints for every level count
    assert_eq!(quantize_color(0, 2), 0);
    assert_eq!(quantize_color(FULL, 2), 255);
    assert_eq!(quantize_color(0, 17), 0);
    assert_eq!(quantize_color(FULL, 17), 255);
    // 128/255 of full scale rounds up to the top of two levels
    assert_eq!(quantize_color(128 * 65536, 2), 255);
    assert_eq!(quantize_color(127 * 65536, 2), 0);
    // three levels: the middle level is floor(255 / 2) = 127
    assert_eq!(quantize_color(128 * 65536, 3), 127);
    // four levels: 0, 85, 170, 255
    assert_eq!(quantize_color(100 * 65536, 4), 85);
    assert_eq!(quantize_color(170 * 65536, 4), 170);
}

#[test]
fn blue_noise_field_is_deterministic_and_byte_valued() {
    let a = generate_blue_noise(16, 16);
    let b = generate_blue_noise(16, 16);
    assert_eq!(a, b);
    assert_eq!(a.len(), 256);
    // the dart thrower leaves some cells at low intensities and drives
    // others high: the field is not constant
    let first = a[0];
    assert!(a.iter().any(|&v| v != first));
}
