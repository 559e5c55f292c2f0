use vstd::prelude::*;
use crate::ordered::bin_byte;
use crate::rgb_image::{lemma_byte_coords, RgbImage};
use crate::settings::DitheringSettings;

verus! {

pub open spec fn abs_int(a: int) -> int {
    if a < 0 {
        -a
    } else {
        a
    }
}

/// Cell side used by the halftone patterns: the configured pattern scale,
/// but at least 4.
pub open spec fn halftone_scale(ps: int) -> int {
    if ps < 4 {
        4
    } else {
        ps
    }
}

/// Whether channel c at (x, y) fires inside a circular halftone cell. This
/// encodes c/255 > d exactly, where d is the distance from the cell center
/// over half the cell side: in doubled cell coordinates cx = 2(x mod s) - s,
/// d = sqrt(cx^2 + cy^2) / s, and both sides are squared.
pub open spec fn circle_on(c: int, x: int, y: int, scale: int) -> bool {
    let cx = 2 * (x % scale) - scale;
    let cy = 2 * (y % scale) - scale;
    (c * scale) * (c * scale) > (255 * 255) * (cx * cx + cy * cy)
}

/// Whether channel c at (x, y) fires inside a diamond halftone cell: this
/// encodes c/255 > (|dx| + |dy|)/scale exactly, in the same doubled cell
/// coordinates (so the divisor doubles as well).
pub open spec fn diamond_on(c: int, x: int, y: int, scale: int) -> bool {
    let cx = abs_int(2 * (x % scale) - scale);
    let cy = abs_int(2 * (y % scale) - scale);
    2 * (c * scale) > 255 * (cx + cy)
}

pub open spec fn halftone_circle_on(img: RgbImage, ps: int, i: int) -> bool {
    let k = i / 3;
    circle_on(
        img.data@[i] as int,
        k % (img.width as int),
        k / (img.width as int),
        halftone_scale(ps),
    )
}

pub open spec fn halftone_diamond_on(img: RgbImage, ps: int, i: int) -> bool {
    let k = i / 3;
    diamond_on(
        img.data@[i] as int,
        k % (img.width as int),
        k / (img.width as int),
        halftone_scale(ps),
    )
}

/// One circular-cell comparison.
fn circle_cmp(c: u8, x: usize, y: usize, scale: usize) -> (b: u8)
    requires
        4 <= scale <= 0x1_0000_0000,
    ensures
        b == bin_byte(circle_on(c as int, x as int, y as int, scale as int)),
{
    let sc: i128 = scale as i128;
    let cx: i128 = 2 * ((x % scale) as i128) - sc;
    let cy: i128 = 2 * ((y % scale) as i128) - sc;
    proof {
        assert(0 <= cx * cx <= 0x1_0000_0000_0000_0000 && 0 <= cy * cy
            <= 0x1_0000_0000_0000_0000) by (nonlinear_arith)
            requires
                -0x1_0000_0000 <= cx <= 0x1_0000_0000,
                -0x1_0000_0000 <= cy <= 0x1_0000_0000,
        ;
        assert((c as i128) * sc <= 255 * 0x1_0000_0000 && 0 <= (c as i128) * sc)
            by (nonlinear_arith)
            requires
                0 <= c <= 255,
                0 <= sc <= 0x1_0000_0000,
        ;
    }
    let lhs: i128 = (c as i128) * sc;
    proof {
        assert(0 <= lhs * lhs <= (255 * 0x1_0000_0000) * (255 * 0x1_0000_0000))
            by (nonlinear_arith)
            requires
                0 <= lhs <= 255 * 0x1_0000_0000,
        ;
    }
    if lhs * lhs > (255 * 255) * (cx * cx + cy * cy) {
        255
    } else {
        0
    }
}

/// One diamond-cell comparison.
fn diamond_cmp(c: u8, x: usize, y: usize, scale: usize) -> (b: u8)
    requires
        4 <= scale <= 0x1_0000_0000,
    ensures
        b == bin_byte(diamond_on(c as int, x as int, y as int, scale as int)),
{
    let sc: i64 = scale as i64;
    let cx: i64 = 2 * ((x % scale) as i64) - sc;
    let cy: i64 = 2 * ((y % scale) as i64) - sc;
    let ax: i64 = if cx < 0 {
        -cx
    } else {
        cx
    };
    let ay: i64 = if cy < 0 {
        -cy
    } else {
        cy
    };
    proof {
        assert((c as i64) * sc <= 255 * 0x1_0000_0000) by (nonlinear_arith)
            requires
                0 <= c <= 255,
                0 <= sc <= 0x1_0000_0000,
        ;
    }
    if 2 * ((c as i64) * sc) > 255 * (ax + ay) {
        255
    } else {
        0
    }
}

/// Halftone dithering with circular dots: each channel fires where its
/// intensity strictly exceeds the normalized distance from its cell center.
pub fn halftone_circle(img: &RgbImage, settings: &DitheringSettings) -> (r: RgbImage)
    requires
        img.wf(),
        1 <= img.width,
        1 <= img.height,
        settings.wf(),
    ensures
        r.wf(),
        r.width == img.width,
        r.height == img.height,
        forall|i: int|
            0 <= i < r.data@.len() ==> #[trigger] r.data@[i] == bin_byte(
                halftone_circle_on(*img, settings.pattern_scale as int, i),
            ),
{
    let w = img.width;
    let h = img.height;
    let npix = w * h;
    let scale: usize = if settings.pattern_scale < 4 {
        4
    } else {
        settings.pattern_scale as usize
    };
    let mut data: Vec<u8> = Vec::new();
    let mut n: usize = 0;
    #[verifier::loop_isolation(false)]
    while n < npix
        invariant
            n <= npix,
            data@.len() == 3 * n,
            forall|i: int|
                0 <= i < data@.len() ==> #[trigger] data@[i] == bin_byte(
                    halftone_circle_on(*img, settings.pattern_scale as int, i),
                ),
        decreases npix - n,
    {
        let x = n % w;
        let y = n / w;
        proof {
            lemma_byte_coords(n as int, 0, w as int, h as int);
            lemma_byte_coords(n as int, 1, w as int, h as int);
            lemma_byte_coords(n as int, 2, w as int, h as int);
        }
        let (p0, p1, p2) = img.get_pixel(x, y);
        data.push(circle_cmp(p0, x, y, scale));
        data.push(circle_cmp(p1, x, y, scale));
        data.push(circle_cmp(p2, x, y, scale));
        n = n + 1;
    }
    RgbImage::from_raw(w, h, data)
}

/// Halftone dithering with diamond dots: as the circular variant, but with
/// the taxicab distance over the full cell side.
pub fn halftone_diamond(img: &RgbImage, settings: &DitheringSettings) -> (r: RgbImage)
    requires
        img.wf(),
        1 <= img.width,
        1 <= img.height,
        settings.wf(),
    ensures
        r.wf(),
        r.width == img.width,
        r.height == img.height,
        forall|i: int|
            0 <= i < r.data@.len() ==> #[trigger] r.data@[i] == bin_byte(
                halftone_diamond_on(*img, settings.pattern_scale as int, i),
            ),
{
    let w = img.width;
    let h = img.height;
    let npix = w * h;
    let scale: usize = if settings.pattern_scale < 4 {
        4
    } else {
        settings.pattern_scale as usize
    };
    let mut data: Vec<u8> = Vec::new();
    let mut n: usize = 0;
    #[verifier::loop_isolation(false)]
    while n < npix
        invariant
            n <= npix,
            data@.len() == 3 * n,
            forall|i: int|
                0 <= i < data@.len() ==> #[trigger] data@[i] == bin_byte(
                    halftone_diamond_on(*img, settings.pattern_scale as int, i),
                ),
        decreases npix - n,
    {
        let x = n % w;
        let y = n / w;
        proof {
            lemma_byte_coords(n as int, 0, w as int, h as int);
            lemma_byte_coords(n as int, 1, w as int, h as int);
            lemma_byte_coords(n as int, 2, w as int, h as int);
        }
        let (p0, p1, p2) = img.get_pixel(x, y);
        data.push(diamond_cmp(p0, x, y, scale));
        data.push(diamond_cmp(p1, x, y, scale));
        data.push(diamond_cmp(p2, x, y, scale));
        n = n + 1;
    }
    RgbImage::from_raw(w, h, data)
}

} // verus!
