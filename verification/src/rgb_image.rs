use vstd::prelude::*;
use vstd::arithmetic::div_mod::{
    lemma_div_pos_is_pos, lemma_fundamental_div_mod, lemma_fundamental_div_mod_converse_div,
    lemma_fundamental_div_mod_converse_mod, lemma_mod_division_less_than_divisor,
    lemma_multiply_divide_lt,
};

verus! {

/// Largest accepted pixel count per image. It keeps every index and the
/// error-accumulator bounds of the diffusion engine inside 64-bit (and the
/// byte length inside 32-bit usize) arithmetic.
pub const MAX_PIXELS: usize = 0x4000_0000;

/// Byte offset of the first channel of pixel (x, y) in row-major RGB data.
pub open spec fn pix_base(w: int, x: int, y: int) -> int {
    3 * (y * w + x)
}

pub proof fn lemma_pix_base_range(w: int, h: int, x: int, y: int)
    requires
        0 <= x < w,
        0 <= y < h,
    ensures
        0 <= pix_base(w, x, y),
        pix_base(w, x, y) + 3 <= 3 * (w * h),
{
    assert(0 <= y * w + x && y * w + x + 1 <= w * h) by (nonlinear_arith)
        requires
            0 <= x < w,
            0 <= y < h,
    ;
}

/// Distinct pixel positions have distinct (non-overlapping) byte offsets.
pub proof fn lemma_pix_base_injective(w: int, x1: int, y1: int, x2: int, y2: int)
    requires
        0 <= x1 < w,
        0 <= x2 < w,
        0 <= y1,
        0 <= y2,
        x1 != x2 || y1 != y2,
    ensures
        pix_base(w, x1, y1) != pix_base(w, x2, y2),
        y1 * w + x1 != y2 * w + x2,
{
    assert(y1 * w + x1 != y2 * w + x2) by (nonlinear_arith)
        requires
            0 <= x1 < w,
            0 <= x2 < w,
            0 <= y1,
            0 <= y2,
            x1 != x2 || y1 != y2,
    ;
}

/// Byte 3n + ch of a row-major RGB buffer belongs to channel ch of the
/// n-th pixel, which sits at grid position (n % w, n / w).
pub proof fn lemma_byte_coords(n: int, ch: int, w: int, h: int)
    requires
        1 <= w,
        1 <= h,
        0 <= n < w * h,
        0 <= ch < 3,
    ensures
        (3 * n + ch) / 3 == n,
        (3 * n + ch) % 3 == ch,
        0 <= n % w < w,
        0 <= n / w < h,
        pix_base(w, n % w, n / w) == 3 * n,
{
    lemma_fundamental_div_mod_converse_div(3 * n + ch, 3, n, ch);
    lemma_fundamental_div_mod_converse_mod(3 * n + ch, 3, n, ch);
    lemma_mod_division_less_than_divisor(n, w);
    lemma_div_pos_is_pos(n, w);
    assert(n < w * h ==> n / w < h) by {
        lemma_multiply_divide_lt(n, w, h);
    }
    lemma_fundamental_div_mod(n, w);
    assert(w * (n / w) == (n / w) * w) by (nonlinear_arith);
}

/// An owned width x height grid of RGB pixels, three bytes per pixel,
/// stored row-major.
pub struct RgbImage {
    pub width: usize,
    pub height: usize,
    pub data: Vec<u8>,
}

impl RgbImage {
    /// The data holds exactly three bytes for each of the width * height
    /// pixels, and the pixel count is within the engine's capacity.
    pub open spec fn wf(self) -> bool {
        &&& self.data@.len() == 3 * (self.width * self.height)
        &&& self.width * self.height <= MAX_PIXELS
    }

    /// Channel c (0 red, 1 green, 2 blue) of pixel (x, y).
    pub open spec fn channel(self, x: int, y: int, c: int) -> u8 {
        self.data@[pix_base(self.width as int, x, y) + c]
    }

    /// Wraps raw row-major RGB bytes as an image.
    pub fn from_raw(width: usize, height: usize, data: Vec<u8>) -> (r: RgbImage)
        requires
            width * height <= MAX_PIXELS,
            data@.len() == 3 * (width * height),
        ensures
            r.width == width,
            r.height == height,
            r.data == data,
            r.wf(),
    {
        RgbImage { width, height, data }
    }

    /// An all-black image of the given dimensions.
    pub fn new(width: usize, height: usize) -> (r: RgbImage)
        requires
            width * height <= MAX_PIXELS,
        ensures
            r.width == width,
            r.height == height,
            r.wf(),
            forall|i: int| 0 <= i < r.data@.len() ==> r.data@[i] == 0u8,
    {
        proof {
            assert(width * height <= MAX_PIXELS);
        }
        let n: usize = 3 * (width * height);
        let mut data: Vec<u8> = Vec::new();
        let mut i: usize = 0;
        while i < n
            invariant
                i <= n,
                n == 3 * (width * height),
                data@.len() == i,
                forall|j: int| 0 <= j < i ==> data@[j] == 0u8,
            decreases n - i,
        {
            data.push(0);
            i = i + 1;
        }
        RgbImage { width, height, data }
    }

    /// The three channels of pixel (x, y).
    pub fn get_pixel(&self, x: usize, y: usize) -> (p: (u8, u8, u8))
        requires
            self.wf(),
            x < self.width,
            y < self.height,
        ensures
            p.0 == self.channel(x as int, y as int, 0),
            p.1 == self.channel(x as int, y as int, 1),
            p.2 == self.channel(x as int, y as int, 2),
    {
        proof {
            lemma_pix_base_range(self.width as int, self.height as int, x as int, y as int);
        }
        let base: usize = 3 * (y * self.width + x);
        (self.data[base], self.data[base + 1], self.data[base + 2])
    }
}

} // verus!
