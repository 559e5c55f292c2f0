use vstd::prelude::*;
use crate::ordered::bin_byte;
use crate::quantize::UNIT;
use crate::rgb_image::{lemma_byte_coords, RgbImage, MAX_PIXELS};
use crate::rng::{lcg_at, lcg_next, lcg_rand};
use crate::settings::DitheringSettings;

verus! {

/// Fixed seed of the white-noise threshold sequence.
pub const WHITE_NOISE_SEED: u64 = 42;

/// Fixed seed of the per-channel random-threshold sequence.
pub const RANDOM_THRESHOLD_SEED: u64 = 99;

/// Fixed seed of the blue-noise field generator.
pub const BLUE_NOISE_SEED: u64 = 12345;

/// Whether byte i fires under white noise: its pixel's fresh draw r scales
/// the configured threshold to (r / u64::MAX) * (t / UNIT), and the channel
/// intensity c/255 must strictly exceed that.
pub open spec fn white_noise_on(img: RgbImage, t: int, i: int) -> bool {
    let r = lcg_at(WHITE_NOISE_SEED, (i / 3 + 1) as nat);
    (img.data@[i] as int) * (0xffff_ffff_ffff_ffff * UNIT) > (r * t) * 255
}

/// Whether byte i fires under the random-threshold variant: as white noise,
/// but with a fresh draw for every channel rather than every pixel.
pub open spec fn random_threshold_on(img: RgbImage, t: int, i: int) -> bool {
    let r = lcg_at(RANDOM_THRESHOLD_SEED, (i + 1) as nat);
    (img.data@[i] as int) * (0xffff_ffff_ffff_ffff * UNIT) > (r * t) * 255
}

/// One noise-scaled threshold comparison.
fn noise_cmp(c: u8, r: u64, t: u32) -> (b: u8)
    requires
        t <= UNIT,
    ensures
        b == bin_byte((c as int) * (0xffff_ffff_ffff_ffff * UNIT) > ((r as int) * (t as int))
            * 255),
{
    proof {
        assert((r as int) * (t as int) <= 0xffff_ffff_ffff_ffff * 65536) by (nonlinear_arith)
            requires
                r <= 0xffff_ffff_ffff_ffff,
                t <= 65536,
        ;
        assert(((r as int) * (t as int)) * 255 <= (0xffff_ffff_ffff_ffff * 65536) * 255)
            by (nonlinear_arith)
            requires
                0 <= (r as int) * (t as int) <= 0xffff_ffff_ffff_ffff * 65536,
        ;
    }
    let lhs: u128 = (c as u128) * (0xffff_ffff_ffff_ffffu128 * (UNIT as u128));
    let rhs: u128 = ((r as u128) * (t as u128)) * 255;
    if lhs > rhs {
        255
    } else {
        0
    }
}

/// White-noise dithering: one fresh deterministic draw per pixel scales the
/// configured threshold for all three channels.
#[verifier::loop_isolation(false)]
#[verifier::rlimit(50)]
pub fn white_noise(img: &RgbImage, settings: &DitheringSettings) -> (r: RgbImage)
    requires
        img.wf(),
        1 <= img.width,
        1 <= img.height,
        settings.wf(),
    ensures
        r.wf(),
        r.width == img.width,
        r.height == img.height,
        forall|i: int|
            0 <= i < r.data@.len() ==> #[trigger] r.data@[i] == bin_byte(
                white_noise_on(*img, settings.threshold as int, i),
            ),
{
    let w = img.width;
    let h = img.height;
    let npix = w * h;
    let mut rng: u64 = WHITE_NOISE_SEED;
    let mut data: Vec<u8> = Vec::new();
    let mut n: usize = 0;
    while n < npix
        invariant
            n <= npix,
            data@.len() == 3 * n,
            rng == lcg_at(WHITE_NOISE_SEED, n as nat),
            forall|i: int|
                0 <= i < data@.len() ==> #[trigger] data@[i] == bin_byte(
                    white_noise_on(*img, settings.threshold as int, i),
                ),
        decreases npix - n,
    {
        let x = n % w;
        let y = n / w;
        proof {
            lemma_byte_coords(n as int, 0, w as int, h as int);
            lemma_byte_coords(n as int, 1, w as int, h as int);
            lemma_byte_coords(n as int, 2, w as int, h as int);
        }
        let (p0, p1, p2) = img.get_pixel(x, y);
        let r = lcg_rand(&mut rng);
        data.push(noise_cmp(p0, r, settings.threshold));
        data.push(noise_cmp(p1, r, settings.threshold));
        data.push(noise_cmp(p2, r, settings.threshold));
        n = n + 1;
    }
    RgbImage::from_raw(w, h, data)
}

/// Random-threshold dithering: every channel of every pixel draws its own
/// deterministic threshold sample.
#[verifier::loop_isolation(false)]
#[verifier::rlimit(50)]
pub fn random_threshold(img: &RgbImage, settings: &DitheringSettings) -> (r: RgbImage)
    requires
        img.wf(),
        1 <= img.width,
        1 <= img.height,
        settings.wf(),
    ensures
        r.wf(),
        r.width == img.width,
        r.height == img.height,
        forall|i: int|
            0 <= i < r.data@.len() ==> #[trigger] r.data@[i] == bin_byte(
                random_threshold_on(*img, settings.threshold as int, i),
            ),
{
    let w = img.width;
    let h = img.height;
    let npix = w * h;
    let mut rng: u64 = RANDOM_THRESHOLD_SEED;
    let mut data: Vec<u8> = Vec::new();
    let mut n: usize = 0;
    while n < npix
        invariant
            n <= npix,
            data@.len() == 3 * n,
            rng == lcg_at(RANDOM_THRESHOLD_SEED, (3 * n) as nat),
            forall|i: int|
                0 <= i < data@.len() ==> #[trigger] data@[i] == bin_byte(
                    random_threshold_on(*img, settings.threshold as int, i),
                ),
        decreases npix - n,
    {
        let x = n % w;
        let y = n / w;
        proof {
            lemma_byte_coords(n as int, 0, w as int, h as int);
            lemma_byte_coords(n as int, 1, w as int, h as int);
            lemma_byte_coords(n as int, 2, w as int, h as int);
        }
        let (p0, p1, p2) = img.get_pixel(x, y);
        proof {
            assert(lcg_at(RANDOM_THRESHOLD_SEED, (3 * n + 1) as nat) == lcg_next(
                lcg_at(RANDOM_THRESHOLD_SEED, (3 * n) as nat),
            ));
            assert(lcg_at(RANDOM_THRESHOLD_SEED, (3 * n + 2) as nat) == lcg_next(
                lcg_at(RANDOM_THRESHOLD_SEED, (3 * n + 1) as nat),
            ));
            assert(lcg_at(RANDOM_THRESHOLD_SEED, (3 * n + 3) as nat) == lcg_next(
                lcg_at(RANDOM_THRESHOLD_SEED, (3 * n + 2) as nat),
            ));
        }
        let r0 = lcg_rand(&mut rng);
        data.push(noise_cmp(p0, r0, settings.threshold));
        let r1 = lcg_rand(&mut rng);
        data.push(noise_cmp(p1, r1, settings.threshold));
        let r2 = lcg_rand(&mut rng);
        data.push(noise_cmp(p2, r2, settings.threshold));
        n = n + 1;
    }
    RgbImage::from_raw(w, h, data)
}

/// State of the dart-throwing blue-noise generator: the intensity field,
/// the cells already claimed, how many are claimed, and the generator.
pub struct BnState {
    pub noise: Seq<u8>,
    pub used: Seq<bool>,
    pub count: nat,
    pub rng: u64,
}

/// One dart throw: two draws pick a cell; an unclaimed cell takes the
/// current intensity.
pub open spec fn bn_try(st: BnState, w: int, h: int, intensity: int) -> BnState {
    let r1 = lcg_next(st.rng);
    let r2 = lcg_next(r1);
    let x = (r1 as int) % w;
    let y = (r2 as int) % h;
    let idx = y * w + x;
    if !st.used[idx] {
        BnState {
            noise: st.noise.update(idx, intensity as u8),
            used: st.used.update(idx, true),
            count: st.count + 1,
            rng: r2,
        }
    } else {
        BnState { noise: st.noise, used: st.used, count: st.count, rng: r2 }
    }
}

/// Throws darts until `target` cells are claimed or the attempt budget runs
/// out.
pub open spec fn bn_attempts(
    st: BnState,
    w: int,
    h: int,
    intensity: int,
    target: nat,
    attempts: nat,
    max_attempts: nat,
) -> BnState
    decreases max_attempts - attempts,
{
    if attempts >= max_attempts || st.count >= target {
        st
    } else {
        bn_attempts(bn_try(st, w, h, intensity), w, h, intensity, target, attempts + 1, max_attempts)
    }
}

/// The claimed-cell quota of one intensity pass.
pub open spec fn bn_target(total: int, intensity: int) -> int {
    if total * intensity / 256 < total - 1 {
        total * intensity / 256
    } else {
        total - 1
    }
}

/// One full intensity pass with a budget of two attempts per pixel.
pub open spec fn bn_pass(st: BnState, w: int, h: int, intensity: int) -> BnState {
    bn_attempts(st, w, h, intensity, bn_target(w * h, intensity) as nat, 0, (2 * (w * h)) as nat)
}

/// The generator state after the intensity passes 0 .. k.
pub open spec fn bn_state(w: int, h: int, k: nat) -> BnState
    decreases k,
{
    if k == 0 {
        BnState {
            noise: Seq::new((w * h) as nat, |i: int| 0u8),
            used: Seq::new((w * h) as nat, |i: int| false),
            count: 0,
            rng: BLUE_NOISE_SEED,
        }
    } else {
        bn_pass(bn_state(w, h, (k - 1) as nat), w, h, k - 1)
    }
}

/// The finished blue-noise field: each cell an intensity in 0..=255.
pub open spec fn blue_noise_field(w: int, h: int) -> Seq<u8> {
    bn_state(w, h, 256).noise
}

pub open spec fn mk_bn(noise: Seq<u8>, used: Seq<bool>, count: nat, rng: u64) -> BnState {
    BnState { noise, used, count, rng }
}

/// The deterministic dart-throwing approximation of a blue-noise field:
/// for each intensity 0..=255, claim random cells until the claimed count
/// reaches the intensity's quota or the attempt budget (two per pixel) is
/// spent.
#[verifier::loop_isolation(false)]
#[verifier::rlimit(50)]
pub fn generate_blue_noise(width: usize, height: usize) -> (noise: Vec<u8>)
    requires
        1 <= width,
        1 <= height,
        width * height <= MAX_PIXELS,
    ensures
        noise@ == blue_noise_field(width as int, height as int),
        noise@.len() == width * height,
{
    let ghost wi = width as int;
    let ghost hi = height as int;
    let total = width * height;
    let mut noise: Vec<u8> = Vec::new();
    let mut used: Vec<bool> = Vec::new();
    let mut k: usize = 0;
    while k < total
        invariant
            k <= total,
            noise@.len() == k,
            used@.len() == k,
            forall|i: int| 0 <= i < k ==> noise@[i] == 0u8,
            forall|i: int| 0 <= i < k ==> used@[i] == false,
        decreases total - k,
    {
        noise.push(0);
        used.push(false);
        k = k + 1;
    }
    let mut count: usize = 0;
    let mut rng: u64 = BLUE_NOISE_SEED;
    proof {
        assert(noise@ =~= bn_state(wi, hi, 0).noise);
        assert(used@ =~= bn_state(wi, hi, 0).used);
        assert(1 <= width * height) by (nonlinear_arith)
            requires
                1 <= width,
                1 <= height,
        ;
    }
    let mut intensity: usize = 0;
    while intensity < 256
        invariant
            intensity <= 256,
            noise@.len() == total,
            used@.len() == total,
            count <= total - 1,
            mk_bn(noise@, used@, count as nat, rng) == bn_state(wi, hi, intensity as nat),
        decreases 256 - intensity,
    {
        proof {
            assert((total as int) * (intensity as int) <= 0x4000_0000 * 256) by (nonlinear_arith)
                requires
                    0 <= total <= 0x4000_0000,
                    0 <= intensity < 256,
            ;
        }
        let target64: u64 = (total as u64) * (intensity as u64) / 256;
        let tmax: u64 = (total - 1) as u64;
        let target: usize = if target64 < tmax {
            target64 as usize
        } else {
            total - 1
        };
        proof {
            assert(target == bn_target(total as int, intensity as int));
        }
        let max_attempts = 2 * total;
        let mut attempts: usize = 0;
        let ghost entry = mk_bn(noise@, used@, count as nat, rng);
        while count < target && attempts < max_attempts
            invariant
                attempts <= max_attempts,
                noise@.len() == total,
                used@.len() == total,
                count <= total - 1,
                bn_attempts(
                    mk_bn(noise@, used@, count as nat, rng),
                    wi,
                    hi,
                    intensity as int,
                    target as nat,
                    attempts as nat,
                    max_attempts as nat,
                ) == bn_attempts(
                    entry,
                    wi,
                    hi,
                    intensity as int,
                    target as nat,
                    0,
                    max_attempts as nat,
                ),
            decreases max_attempts - attempts,
        {
            let ghost pre = mk_bn(noise@, used@, count as nat, rng);
            let r1 = lcg_rand(&mut rng);
            let x = (r1 % (width as u64)) as usize;
            let r2 = lcg_rand(&mut rng);
            let y = (r2 % (height as u64)) as usize;
            proof {
                assert(y * width + x < total) by (nonlinear_arith)
                    requires
                        x < width,
                        y < height,
                        total == width * height,
                ;
            }
            let idx = y * width + x;
            if !used[idx] {
                noise.set(idx, intensity as u8);
                used.set(idx, true);
                count = count + 1;
            }
            attempts = attempts + 1;
            proof {
                assert(mk_bn(noise@, used@, count as nat, rng) == bn_try(
                    pre,
                    wi,
                    hi,
                    intensity as int,
                ));
            }
        }
        proof {
            let cur = mk_bn(noise@, used@, count as nat, rng);
            assert(bn_attempts(
                cur,
                wi,
                hi,
                intensity as int,
                target as nat,
                attempts as nat,
                max_attempts as nat,
            ) == cur);
            assert(cur == bn_pass(bn_state(wi, hi, intensity as nat), wi, hi, intensity as int));
            assert(cur == bn_state(wi, hi, (intensity + 1) as nat));
        }
        intensity = intensity + 1;
    }
    noise
}

/// Whether byte i fires under blue noise: the field intensity at its pixel
/// scales the configured threshold, and the channel intensity c/255 must
/// strictly exceed (field/255) * (t/UNIT).
pub open spec fn blue_noise_on(img: RgbImage, t: int, i: int) -> bool {
    let nv = blue_noise_field(img.width as int, img.height as int)[i / 3] as int;
    (img.data@[i] as int) * (255 * UNIT) > (nv * t) * 255
}

/// Blue-noise dithering over a freshly generated deterministic field.
#[verifier::loop_isolation(false)]
#[verifier::rlimit(50)]
pub fn blue_noise(img: &RgbImage, settings: &DitheringSettings) -> (r: RgbImage)
    requires
        img.wf(),
        1 <= img.width,
        1 <= img.height,
        settings.wf(),
    ensures
        r.wf(),
        r.width == img.width,
        r.height == img.height,
        forall|i: int|
            0 <= i < r.data@.len() ==> #[trigger] r.data@[i] == bin_byte(
                blue_noise_on(*img, settings.threshold as int, i),
            ),
{
    let w = img.width;
    let h = img.height;
    let npix = w * h;
    let field = generate_blue_noise(w, h);
    let mut data: Vec<u8> = Vec::new();
    let mut n: usize = 0;
    while n < npix
        invariant
            n <= npix,
            data@.len() == 3 * n,
            forall|i: int|
                0 <= i < data@.len() ==> #[trigger] data@[i] == bin_byte(
                    blue_noise_on(*img, settings.threshold as int, i),
                ),
        decreases npix - n,
    {
        let x = n % w;
        let y = n / w;
        proof {
            lemma_byte_coords(n as int, 0, w as int, h as int);
            lemma_byte_coords(n as int, 1, w as int, h as int);
            lemma_byte_coords(n as int, 2, w as int, h as int);
        }
        let (p0, p1, p2) = img.get_pixel(x, y);
        let nv = field[n];
        let b0 = blue_cmp(p0, nv, settings.threshold);
        let b1 = blue_cmp(p1, nv, settings.threshold);
        let b2 = blue_cmp(p2, nv, settings.threshold);
        data.push(b0);
        data.push(b1);
        data.push(b2);
        n = n + 1;
    }
    RgbImage::from_raw(w, h, data)
}

/// One blue-noise threshold comparison.
fn blue_cmp(c: u8, nv: u8, t: u32) -> (b: u8)
    requires
        t <= UNIT,
    ensures
        b == bin_byte((c as int) * (255 * UNIT) > ((nv as int) * (t as int)) * 255),
{
    proof {
        assert((nv as int) * (t as int) <= 255 * 65536) by (nonlinear_arith)
            requires
                nv <= 255,
                t <= 65536,
        ;
        assert(((nv as int) * (t as int)) * 255 <= (255 * 65536) * 255) by (nonlinear_arith)
            requires
                0 <= (nv as int) * (t as int) <= 255 * 65536,
        ;
    }
    let lhs: u64 = (c as u64) * (255 * (UNIT as u64));
    let rhs: u64 = ((nv as u64) * (t as u64)) * 255;
    if lhs > rhs {
        255
    } else {
        0
    }
}

} // verus!
