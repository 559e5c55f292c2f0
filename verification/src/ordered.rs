use vstd::prelude::*;
use vstd::arithmetic::div_mod::{
    lemma_fundamental_div_mod, lemma_fundamental_div_mod_converse_div,
    lemma_fundamental_div_mod_converse_mod,
};
use crate::quantize::UNIT;
use crate::rgb_image::{lemma_byte_coords, RgbImage};
use crate::settings::DitheringSettings;

verus! {

/// Channel intensity c/255 strictly exceeds the threshold num/den.
pub open spec fn over_threshold(c: int, num: int, den: int) -> bool {
    c * den > num * 255
}

/// 255 where the threshold comparison fires, 0 elsewhere.
pub open spec fn bin_byte(on: bool) -> u8 {
    if on {
        255u8
    } else {
        0u8
    }
}

/// n is a power of two.
pub open spec fn is_pow2(n: int) -> bool
    decreases n,
{
    if n <= 0 {
        false
    } else if n == 1 {
        true
    } else {
        n % 2 == 0 && is_pow2(n / 2)
    }
}

/// Bit interleaving of a row and column index: row bits carry weight 2 and
/// column bits weight 1 within each base-4 digit.
pub open spec fn bay_interleave(i: int, j: int, size: int) -> int
    decreases size,
{
    if size <= 1 {
        0
    } else {
        4 * bay_interleave(i / 2, j / 2, size / 2) + 2 * (i % 2) + (j % 2)
    }
}

/// The Bayer threshold numerator at tile position (row yi, column xi), over
/// the common denominator 2 * size * size. Size 2 uses the classical base
/// matrix [[0, 2], [3, 1]]/4; larger power-of-two sizes use the centered
/// bit-interleaving construction (v + 0.5) / size^2.
pub open spec fn bayer_num(size: int, yi: int, xi: int) -> int {
    if size == 2 {
        if yi == 0 && xi == 0 {
            0
        } else if yi == 0 {
            4
        } else if xi == 0 {
            6
        } else {
            2
        }
    } else {
        2 * bay_interleave(yi, xi, size) + 1
    }
}

pub proof fn lemma_bay_interleave_range(i: int, j: int, size: int)
    requires
        is_pow2(size),
        0 <= i < size,
        0 <= j < size,
    ensures
        0 <= bay_interleave(i, j, size) < size * size,
    decreases size,
{
    if size == 1 {
    } else {
        let sh = size / 2;
        assert(size == 2 * sh && 4 * (sh * sh) == size * size) by (nonlinear_arith)
            requires
                size % 2 == 0,
                sh == size / 2,
        ;
        assert(i / 2 < sh && j / 2 < sh);
        lemma_bay_interleave_range(i / 2, j / 2, sh);
        let a = bay_interleave(i / 2, j / 2, sh);
        assert(4 * a <= 4 * (sh * sh) - 4) by (nonlinear_arith)
            requires
                a <= sh * sh - 1,
        ;
    }
}

pub proof fn lemma_bay_interleave_injective(size: int, i1: int, j1: int, i2: int, j2: int)
    requires
        is_pow2(size),
        0 <= i1 < size,
        0 <= j1 < size,
        0 <= i2 < size,
        0 <= j2 < size,
        bay_interleave(i1, j1, size) == bay_interleave(i2, j2, size),
    ensures
        i1 == i2,
        j1 == j2,
    decreases size,
{
    if size == 1 {
    } else {
        let sh = size / 2;
        let a1 = bay_interleave(i1 / 2, j1 / 2, sh);
        let a2 = bay_interleave(i2 / 2, j2 / 2, sh);
        let r1 = 2 * (i1 % 2) + (j1 % 2);
        let r2 = 2 * (i2 % 2) + (j2 % 2);
        let v = bay_interleave(i1, j1, size);
        lemma_fundamental_div_mod_converse_div(v, 4, a1, r1);
        lemma_fundamental_div_mod_converse_mod(v, 4, a1, r1);
        lemma_fundamental_div_mod_converse_div(v, 4, a2, r2);
        lemma_fundamental_div_mod_converse_mod(v, 4, a2, r2);
        assert(a1 == a2 && r1 == r2);
        assert(i1 / 2 < sh && j1 / 2 < sh && i2 / 2 < sh && j2 / 2 < sh);
        lemma_bay_interleave_injective(sh, i1 / 2, j1 / 2, i2 / 2, j2 / 2);
        lemma_fundamental_div_mod(i1, 2);
        lemma_fundamental_div_mod(i2, 2);
        lemma_fundamental_div_mod(j1, 2);
        lemma_fundamental_div_mod(j2, 2);
    }
}

/// Within one Bayer tile of any supported power-of-two size, all threshold
/// numerators are distinct; for sizes above 2 every entry lies strictly
/// between 0 and the denominator 2 * size * size (the size-2 base matrix
/// instead holds exactly {0, 1/2, 3/4, 1/4}, including 0).
pub proof fn lemma_bayer_matrix_distinct(size: int, i1: int, j1: int, i2: int, j2: int)
    requires
        is_pow2(size),
        2 <= size,
        0 <= i1 < size,
        0 <= j1 < size,
        0 <= i2 < size,
        0 <= j2 < size,
        i1 != i2 || j1 != j2,
    ensures
        bayer_num(size, i1, j1) != bayer_num(size, i2, j2),
        0 <= bayer_num(size, i1, j1) < 2 * (size * size),
        size > 2 ==> 0 < bayer_num(size, i1, j1) < 2 * (size * size),
{
    if size == 2 {
    } else {
        lemma_bay_interleave_range(i1, j1, size);
        lemma_bay_interleave_range(i2, j2, size);
        if bayer_num(size, i1, j1) == bayer_num(size, i2, j2) {
            lemma_bay_interleave_injective(size, i1, j1, i2, j2);
        }
    }
}

/// Computes the bit-interleaved Bayer value for tile position (i, j).
#[verifier::loop_isolation(false)]
fn bay_interleave_exec(i: usize, j: usize, size: usize) -> (v: u64)
    requires
        is_pow2(size as int),
        i < size,
        j < size,
        size <= 4096,
    ensures
        v == bay_interleave(i as int, j as int, size as int),
        v < size * size,
{
    proof {
        lemma_bay_interleave_range(i as int, j as int, size as int);
        assert(size * size <= 16777216) by (nonlinear_arith)
            requires
                size <= 4096,
        ;
    }
    let mut v: u64 = 0;
    let mut p4: u64 = 1;
    let mut ii = i;
    let mut jj = j;
    let mut sz = size;
    while sz > 1
        invariant
            is_pow2(sz as int),
            1 <= sz <= size <= 4096,
            ii < sz,
            jj < sz,
            p4 * (sz * sz) == (size * size),
            v + p4 * bay_interleave(ii as int, jj as int, sz as int) == bay_interleave(
                i as int,
                j as int,
                size as int,
            ),
            v <= size * size,
            p4 <= size * size,
        decreases sz,
    {
        let low: u64 = 2 * ((ii % 2) as u64) + ((jj % 2) as u64);
        proof {
            let a = bay_interleave(ii as int / 2, jj as int / 2, sz as int / 2);
            assert(bay_interleave(ii as int, jj as int, sz as int) == 4 * a + low);
            assert(p4 * (4 * a + low) == (4 * p4) * a + p4 * low) by (nonlinear_arith);
            assert((2 * (sz / 2)) * (2 * (sz / 2)) == 4 * ((sz / 2) * (sz / 2)))
                by (nonlinear_arith);
            lemma_bay_interleave_range(ii as int / 2, jj as int / 2, sz as int / 2);
            assert((4 * p4) * a <= (4 * p4) * ((sz as int / 2) * (sz as int / 2) - 1) && (4 * p4) * (
            (sz as int / 2) * (sz as int / 2)) == p4 * (sz as int * sz as int))
                by (nonlinear_arith)
                requires
                    0 <= a <= (sz as int / 2) * (sz as int / 2) - 1,
                    sz as int % 2 == 0,
                    1 <= sz,
                    0 <= p4,
            ;
            assert(p4 * low <= 16777216 * 3 && (4 * p4) * a >= 0) by (nonlinear_arith)
                requires
                    0 <= low <= 3,
                    0 <= p4 <= 16777216,
                    0 <= a,
            ;
            assert((4 * p4) * ((sz as int / 2) * (sz as int / 2)) >= (4 * p4) * 1)
                by (nonlinear_arith)
                requires
                    sz as int / 2 >= 1,
                    p4 >= 0,
            ;
        }
        v = v + p4 * low;
        p4 = p4 * 4;
        ii = ii / 2;
        jj = jj / 2;
        sz = sz / 2;
    }
    v
}

/// The Bayer threshold-numerator matrix for a power-of-two tile size, over
/// the denominator 2 * size * size: the classical hardcoded base matrix for
/// size 2, and the recursive bit-interleaving construction above it.
#[verifier::loop_isolation(false)]
pub fn generate_bayer_matrix(size: usize) -> (m: Vec<Vec<u32>>)
    requires
        is_pow2(size as int),
        2 <= size <= 4096,
    ensures
        m@.len() == size,
        forall|yi: int| 0 <= yi < size ==> #[trigger] m@[yi]@.len() == size,
        forall|yi: int, xi: int|
            0 <= yi < size && 0 <= xi < size ==> #[trigger] m@[yi]@[xi] == bayer_num(
                size as int,
                yi,
                xi,
            ),
{
    let mut m: Vec<Vec<u32>> = Vec::new();
    if size == 2 {
        let mut r0: Vec<u32> = Vec::new();
        r0.push(0);
        r0.push(4);
        let mut r1: Vec<u32> = Vec::new();
        r1.push(6);
        r1.push(2);
        m.push(r0);
        m.push(r1);
    } else {
        let mut yi: usize = 0;
        while yi < size
            invariant
                is_pow2(size as int),
                2 < size <= 4096,
                yi <= size,
                m@.len() == yi,
                forall|a: int| 0 <= a < yi ==> #[trigger] m@[a]@.len() == size,
                forall|a: int, b: int|
                    0 <= a < yi && 0 <= b < size ==> #[trigger] m@[a]@[b] == bayer_num(
                        size as int,
                        a,
                        b,
                    ),
            decreases size - yi,
        {
            let mut row: Vec<u32> = Vec::new();
            let mut xi: usize = 0;
            while xi < size
                invariant
                    is_pow2(size as int),
                    2 < size <= 4096,
                    yi < size,
                    xi <= size,
                    row@.len() == xi,
                    forall|b: int|
                        0 <= b < xi ==> #[trigger] row@[b] == bayer_num(size as int, yi as int, b),
                decreases size - xi,
            {
                let v = bay_interleave_exec(yi, xi, size);
                proof {
                    assert(size * size <= 16777216) by (nonlinear_arith)
                        requires
                            size <= 4096,
                    ;
                }
                row.push((2 * v + 1) as u32);
                xi = xi + 1;
            }
            m.push(row);
            yi = yi + 1;
        }
    }
    m
}

/// Whether the ordered comparison fires for byte i under Bayer dithering
/// with the given tile size.
pub open spec fn bayer_on(img: RgbImage, size: int, i: int) -> bool {
    let k = i / 3;
    let x = k % (img.width as int);
    let y = k / (img.width as int);
    over_threshold(
        img.data@[i] as int,
        bayer_num(size, y % size, x % size),
        2 * (size * size),
    )
}

/// Ordered dithering against the Bayer threshold matrix of the given tile
/// size: each channel becomes 255 where c/255 strictly exceeds the tiled
/// matrix entry, else 0.
pub fn bayer(img: &RgbImage, settings: &DitheringSettings, size: usize) -> (r: RgbImage)
    requires
        img.wf(),
        1 <= img.width,
        1 <= img.height,
        settings.wf(),
        is_pow2(size as int),
        2 <= size <= 4096,
    ensures
        r.wf(),
        r.width == img.width,
        r.height == img.height,
        forall|i: int|
            0 <= i < r.data@.len() ==> #[trigger] r.data@[i] == bin_byte(
                bayer_on(*img, size as int, i),
            ),
{
    let m = generate_bayer_matrix(size);
    let w = img.width;
    let h = img.height;
    let npix = w * h;
    proof {
        assert(size * size <= 16777216) by (nonlinear_arith)
            requires
                size <= 4096,
        ;
    }
    let den: u64 = 2 * ((size * size) as u64);
    let mut data: Vec<u8> = Vec::new();
    let mut n: usize = 0;
    #[verifier::loop_isolation(false)]
    while n < npix
        invariant
            n <= npix,
            data@.len() == 3 * n,
            forall|i: int|
                0 <= i < data@.len() ==> #[trigger] data@[i] == bin_byte(
                    bayer_on(*img, size as int, i),
                ),
        decreases npix - n,
    {
        let x = n % w;
        let y = n / w;
        proof {
            lemma_byte_coords(n as int, 0, w as int, h as int);
            lemma_byte_coords(n as int, 1, w as int, h as int);
            lemma_byte_coords(n as int, 2, w as int, h as int);
        }
        let (p0, p1, p2) = img.get_pixel(x, y);
        proof {
            if size > 2 {
                lemma_bay_interleave_range((y as int) % (size as int), (x as int) % (size as int), size as int);
            }
        }
        let num = m[y % size][x % size] as u64;
        let b0 = bin_threshold_u64(p0, num, den);
        let b1 = bin_threshold_u64(p1, num, den);
        let b2 = bin_threshold_u64(p2, num, den);
        data.push(b0);
        data.push(b1);
        data.push(b2);
        n = n + 1;
    }
    RgbImage::from_raw(w, h, data)
}

/// One binary threshold comparison: 255 where c/255 > num/den, else 0.
fn bin_threshold_u64(c: u8, num: u64, den: u64) -> (b: u8)
    requires
        den <= 0x1_0000_0000,
        num <= 0x1_0000_0000,
    ensures
        b == bin_byte(over_threshold(c as int, num as int, den as int)),
{
    proof {
        assert((c as int) * (den as int) <= 255 * 0x1_0000_0000 && (num as int) * 255
            <= 0x1_0000_0000 * 255) by (nonlinear_arith)
            requires
                c <= 255,
                den <= 0x1_0000_0000,
                num <= 0x1_0000_0000,
        ;
    }
    if (c as u64) * den > num * 255 {
        255
    } else {
        0
    }
}

/// Whether the comparison fires for byte i under a flat threshold t/UNIT.
pub open spec fn simple_threshold_on(img: RgbImage, t: int, i: int) -> bool {
    over_threshold(img.data@[i] as int, t, UNIT as int)
}

/// Flat binary thresholding: each channel becomes 255 where c/255 strictly
/// exceeds the configured threshold, else 0.
pub fn simple_threshold(img: &RgbImage, settings: &DitheringSettings) -> (r: RgbImage)
    requires
        img.wf(),
        settings.wf(),
    ensures
        r.wf(),
        r.width == img.width,
        r.height == img.height,
        forall|i: int|
            0 <= i < r.data@.len() ==> #[trigger] r.data@[i] == bin_byte(
                simple_threshold_on(*img, settings.threshold as int, i),
            ),
{
    let len = img.data.len();
    let mut data: Vec<u8> = Vec::new();
    let mut i: usize = 0;
    #[verifier::loop_isolation(false)]
    while i < len
        invariant
            i <= len,
            data@.len() == i,
            forall|j: int|
                0 <= j < i ==> #[trigger] data@[j] == bin_byte(
                    simple_threshold_on(*img, settings.threshold as int, j),
                ),
        decreases len - i,
    {
        let b = bin_threshold_u64(img.data[i], settings.threshold as u64, UNIT as u64);
        data.push(b);
        i = i + 1;
    }
    RgbImage::from_raw(img.width, img.height, data)
}

/// The fixed 4x4 dispersed pattern matrix, over the denominator 16.
pub open spec fn pattern_table() -> Seq<Seq<int>> {
    seq![
        seq![0, 8, 2, 10],
        seq![12, 4, 14, 6],
        seq![3, 11, 1, 9],
        seq![15, 7, 13, 5],
    ]
}

/// The fixed 4x4 clustered-dot matrix, over the denominator 16.
pub open spec fn clustered_table() -> Seq<Seq<int>> {
    seq![
        seq![12, 5, 6, 13],
        seq![4, 0, 1, 7],
        seq![11, 3, 2, 8],
        seq![15, 10, 9, 14],
    ]
}

/// Whether the comparison fires for byte i under pattern dithering with the
/// given cell scale.
pub open spec fn pattern_on(img: RgbImage, scale: int, i: int) -> bool {
    let k = i / 3;
    let x = k % (img.width as int);
    let y = k / (img.width as int);
    over_threshold(img.data@[i] as int, pattern_table()[(y / scale) % 4][(x / scale) % 4], 16)
}

/// Whether the comparison fires for byte i under clustered-dot dithering.
pub open spec fn clustered_on(img: RgbImage, i: int) -> bool {
    let k = i / 3;
    let x = k % (img.width as int);
    let y = k / (img.width as int);
    over_threshold(img.data@[i] as int, clustered_table()[y % 4][x % 4], 16)
}

/// Ordered dithering against the fixed 4x4 dispersed pattern, magnified by
/// the configured cell scale.
pub fn pattern_dither(img: &RgbImage, settings: &DitheringSettings) -> (r: RgbImage)
    requires
        img.wf(),
        1 <= img.width,
        1 <= img.height,
        settings.wf(),
    ensures
        r.wf(),
        r.width == img.width,
        r.height == img.height,
        forall|i: int|
            0 <= i < r.data@.len() ==> #[trigger] r.data@[i] == bin_byte(
                pattern_on(*img, settings.pattern_scale as int, i),
            ),
{
    let w = img.width;
    let h = img.height;
    let npix = w * h;
    let scale = settings.pattern_scale as usize;
    let mut data: Vec<u8> = Vec::new();
    let mut n: usize = 0;
    #[verifier::loop_isolation(false)]
    while n < npix
        invariant
            n <= npix,
            data@.len() == 3 * n,
            forall|i: int|
                0 <= i < data@.len() ==> #[trigger] data@[i] == bin_byte(
                    pattern_on(*img, settings.pattern_scale as int, i),
                ),
        decreases npix - n,
    {
        let x = n % w;
        let y = n / w;
        proof {
            lemma_byte_coords(n as int, 0, w as int, h as int);
            lemma_byte_coords(n as int, 1, w as int, h as int);
            lemma_byte_coords(n as int, 2, w as int, h as int);
        }
        let (p0, p1, p2) = img.get_pixel(x, y);
        let num = pattern_entry((y / scale) % 4, (x / scale) % 4);
        let b0 = bin_threshold_u64(p0, num as u64, 16);
        let b1 = bin_threshold_u64(p1, num as u64, 16);
        let b2 = bin_threshold_u64(p2, num as u64, 16);
        data.push(b0);
        data.push(b1);
        data.push(b2);
        n = n + 1;
    }
    RgbImage::from_raw(w, h, data)
}

/// Dispersed-pattern matrix entry at (row, col).
fn pattern_entry(row: usize, col: usize) -> (e: u8)
    requires
        row < 4,
        col < 4,
    ensures
        e as int == pattern_table()[row as int][col as int],
{
    let r0: [u8; 4] = [0, 8, 2, 10];
    let r1: [u8; 4] = [12, 4, 14, 6];
    let r2: [u8; 4] = [3, 11, 1, 9];
    let r3: [u8; 4] = [15, 7, 13, 5];
    if row == 0 {
        r0[col]
    } else if row == 1 {
        r1[col]
    } else if row == 2 {
        r2[col]
    } else {
        r3[col]
    }
}

/// Clustered-dot matrix entry at (row, col).
fn clustered_entry(row: usize, col: usize) -> (e: u8)
    requires
        row < 4,
        col < 4,
    ensures
        e as int == clustered_table()[row as int][col as int],
{
    let r0: [u8; 4] = [12, 5, 6, 13];
    let r1: [u8; 4] = [4, 0, 1, 7];
    let r2: [u8; 4] = [11, 3, 2, 8];
    let r3: [u8; 4] = [15, 10, 9, 14];
    if row == 0 {
        r0[col]
    } else if row == 1 {
        r1[col]
    } else if row == 2 {
        r2[col]
    } else {
        r3[col]
    }
}

/// Ordered dithering against the fixed 4x4 clustered-dot matrix.
pub fn clustered_dot(img: &RgbImage, settings: &DitheringSettings) -> (r: RgbImage)
    requires
        img.wf(),
        1 <= img.width,
        1 <= img.height,
        settings.wf(),
    ensures
        r.wf(),
        r.width == img.width,
        r.height == img.height,
        forall|i: int|
            0 <= i < r.data@.len() ==> #[trigger] r.data@[i] == bin_byte(clustered_on(*img, i)),
{
    let w = img.width;
    let h = img.height;
    let npix = w * h;
    let mut data: Vec<u8> = Vec::new();
    let mut n: usize = 0;
    #[verifier::loop_isolation(false)]
    while n < npix
        invariant
            n <= npix,
            data@.len() == 3 * n,
            forall|i: int|
                0 <= i < data@.len() ==> #[trigger] data@[i] == bin_byte(clustered_on(*img, i)),
        decreases npix - n,
    {
        let x = n % w;
        let y = n / w;
        proof {
            lemma_byte_coords(n as int, 0, w as int, h as int);
            lemma_byte_coords(n as int, 1, w as int, h as int);
            lemma_byte_coords(n as int, 2, w as int, h as int);
        }
        let (p0, p1, p2) = img.get_pixel(x, y);
        let num = clustered_entry(y % 4, x % 4);
        let b0 = bin_threshold_u64(p0, num as u64, 16);
        let b1 = bin_threshold_u64(p1, num as u64, 16);
        let b2 = bin_threshold_u64(p2, num as u64, 16);
        data.push(b0);
        data.push(b1);
        data.push(b2);
        n = n + 1;
    }
    RgbImage::from_raw(w, h, data)
}

/// Sum of absolute horizontal channel differences at (x, y): zero at the
/// left and right edges, in [0, 765] elsewhere.
pub open spec fn gradient_g(img: RgbImage, x: int, y: int) -> int {
    if 0 < x && x + 1 < img.width {
        abs_diff(img.channel(x + 1, y, 0) as int, img.channel(x - 1, y, 0) as int) + abs_diff(
            img.channel(x + 1, y, 1) as int,
            img.channel(x - 1, y, 1) as int,
        ) + abs_diff(img.channel(x + 1, y, 2) as int, img.channel(x - 1, y, 2) as int)
    } else {
        0
    }
}

pub open spec fn abs_diff(a: int, b: int) -> int {
    if a >= b {
        a - b
    } else {
        b - a
    }
}

/// Whether the comparison fires for byte i under gradient-based dithering:
/// the flat threshold t/UNIT is lowered by half of the local normalized
/// horizontal gradient g/765.
pub open spec fn gradient_on(img: RgbImage, t: int, i: int) -> bool {
    let k = i / 3;
    let x = k % (img.width as int);
    let y = k / (img.width as int);
    over_threshold(img.data@[i] as int, t * (1530 - gradient_g(img, x, y)), UNIT * 1530)
}

/// Absolute difference of two channel bytes.
fn abs_diff_exec(a: u8, b: u8) -> (d: u64)
    ensures
        d == abs_diff(a as int, b as int),
{
    if a >= b {
        (a - b) as u64
    } else {
        (b - a) as u64
    }
}

/// Gradient-adapted thresholding: high-contrast regions (large horizontal
/// gradient) lower the effective threshold, firing more pixels to white.
pub fn gradient_based(img: &RgbImage, settings: &DitheringSettings) -> (r: RgbImage)
    requires
        img.wf(),
        1 <= img.width,
        1 <= img.height,
        settings.wf(),
    ensures
        r.wf(),
        r.width == img.width,
        r.height == img.height,
        forall|i: int|
            0 <= i < r.data@.len() ==> #[trigger] r.data@[i] == bin_byte(
                gradient_on(*img, settings.threshold as int, i),
            ),
{
    let w = img.width;
    let h = img.height;
    let npix = w * h;
    let t = settings.threshold as u64;
    let mut data: Vec<u8> = Vec::new();
    let mut n: usize = 0;
    #[verifier::loop_isolation(false)]
    while n < npix
        invariant
            n <= npix,
            data@.len() == 3 * n,
            forall|i: int|
                0 <= i < data@.len() ==> #[trigger] data@[i] == bin_byte(
                    gradient_on(*img, settings.threshold as int, i),
                ),
        decreases npix - n,
    {
        let x = n % w;
        let y = n / w;
        proof {
            lemma_byte_coords(n as int, 0, w as int, h as int);
            lemma_byte_coords(n as int, 1, w as int, h as int);
            lemma_byte_coords(n as int, 2, w as int, h as int);
        }
        let (p0, p1, p2) = img.get_pixel(x, y);
        let g: u64 = if x > 0 && x < w - 1 {
            let (l0, l1, l2) = img.get_pixel(x - 1, y);
            let (r0, r1, r2) = img.get_pixel(x + 1, y);
            abs_diff_exec(r0, l0) + abs_diff_exec(r1, l1) + abs_diff_exec(r2, l2)
        } else {
            0
        };
        proof {
            assert(g <= 765);
            assert(t * (1530 - g) <= 65536 * 1530) by (nonlinear_arith)
                requires
                    t <= 65536,
                    0 <= g <= 765,
            ;
        }
        let num: u64 = t * (1530 - g);
        let den: u64 = (UNIT as u64) * 1530;
        let b0 = bin_threshold_u64(p0, num, den);
        let b1 = bin_threshold_u64(p1, num, den);
        let b2 = bin_threshold_u64(p2, num, den);
        data.push(b0);
        data.push(b1);
        data.push(b2);
        n = n + 1;
    }
    RgbImage::from_raw(w, h, data)
}

} // verus!
