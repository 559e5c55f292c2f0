use vstd::prelude::*;
use vstd::arithmetic::div_mod::{
    lemma_div_is_ordered, lemma_div_multiples_vanish, lemma_div_pos_is_pos,
    lemma_fundamental_div_mod, lemma_fundamental_div_mod_converse_div,
    lemma_fundamental_div_mod_converse_mod, lemma_mod_division_less_than_divisor,
    lemma_multiply_divide_lt,
};
use crate::kernel::{
    atkinson_kernel, atkinson_taps, burkes_kernel, burkes_taps, false_floyd_steinberg_kernel,
    false_floyd_steinberg_taps, floyd_steinberg_kernel, floyd_steinberg_taps,
    jarvis_judice_ninke_kernel, jarvis_judice_ninke_taps, sierra_kernel, sierra_lite_kernel,
    sierra_lite_taps, sierra_taps, sierra_two_row_kernel, sierra_two_row_taps,
    steven_pigeon_kernel, steven_pigeon_taps, stucki_kernel, stucki_taps, tap_wf, DiffusionKernel,
    KernelTap,
};
use crate::quantize::{
    clamp_intensity, find_nearest_color, is_level, lemma_quantize_is_level, quantize_spec, FULL,
    MAX_LEVELS, UNIT,
};
use crate::rgb_image::{lemma_pix_base_range, pix_base, RgbImage, MAX_PIXELS};
use crate::settings::DitheringSettings;

verus! {

/// The error accumulator as mathematical integers.
pub open spec fn errs_view(e: Seq<i64>) -> Seq<int> {
    e.map_values(|v: i64| v as int)
}

/// Whether row y is traversed right-to-left.
pub open spec fn row_reversed(y: int, serp: bool) -> bool {
    serp && y % 2 == 1
}

/// Grid y of the n-th pixel in scan order.
pub open spec fn scan_y(n: int, w: int) -> int {
    n / w
}

/// Grid x of the n-th pixel in scan order.
pub open spec fn scan_x(n: int, w: int, serp: bool) -> int {
    if row_reversed(n / w, serp) {
        w - 1 - n % w
    } else {
        n % w
    }
}

/// The scan step at which the pixel with row-major index k is visited.
pub open spec fn scan_of_pixel(k: int, w: int, serp: bool) -> int {
    let y = k / w;
    let x = k % w;
    y * w + (if row_reversed(y, serp) {
        w - 1 - x
    } else {
        x
    })
}

/// The residual fraction num/den, scaled by strength s/UNIT, truncated
/// toward zero.
pub open spec fn diffuse_amount(r: int, num: int, den: int, s: int) -> int {
    if r >= 0 {
        r * num * s / (den * UNIT)
    } else {
        -((-r) * num * s / (den * UNIT))
    }
}

/// Grid x a tap offset dx reaches from x (mirrored on reversed rows).
pub open spec fn tap_x(x: int, dx: int, rev: bool) -> int {
    if rev {
        x - dx
    } else {
        x + dx
    }
}

/// Per-pixel context for diffusing one pixel's residual (r0, r1, r2).
pub struct DiffuseCtx {
    pub w: int,
    pub h: int,
    pub x: int,
    pub y: int,
    pub rev: bool,
    pub den: int,
    pub s: int,
    pub r0: int,
    pub r1: int,
    pub r2: int,
}

/// Adds one tap's share of the residual to the in-bounds target cell.
pub open spec fn diffuse_tap(e: Seq<int>, c: DiffuseCtx, t: KernelTap) -> Seq<int> {
    let nx = tap_x(c.x, t.dx as int, c.rev);
    let ny = c.y + t.dy;
    if 0 <= nx < c.w && 0 <= ny < c.h {
        let b = pix_base(c.w, nx, ny);
        let e0 = e.update(b, e[b] + diffuse_amount(c.r0, t.num as int, c.den, c.s));
        let e1 = e0.update(b + 1, e0[b + 1] + diffuse_amount(c.r1, t.num as int, c.den, c.s));
        e1.update(b + 2, e1[b + 2] + diffuse_amount(c.r2, t.num as int, c.den, c.s))
    } else {
        e
    }
}

/// Applies the first j taps in order.
pub open spec fn diffuse_taps(e: Seq<int>, c: DiffuseCtx, taps: Seq<KernelTap>, j: int) -> Seq<int>
    decreases j,
{
    if j <= 0 {
        e
    } else {
        diffuse_tap(diffuse_taps(e, c, taps, j - 1), c, taps[j - 1])
    }
}

/// The engine's per-call configuration over mathematical values.
pub struct EdParams {
    pub w: int,
    pub h: int,
    pub colors: int,
    pub taps: Seq<KernelTap>,
    pub den: int,
    pub s: int,
    pub serp: bool,
}

pub open spec fn ed_params(
    img: RgbImage,
    settings: DitheringSettings,
    taps: Seq<KernelTap>,
    den: int,
) -> EdParams {
    EdParams {
        w: img.width as int,
        h: img.height as int,
        colors: settings.colors as int,
        taps,
        den,
        s: settings.error_diffusion as int,
        serp: settings.serpentine,
    }
}

pub open spec fn ed_params_wf(p: EdParams) -> bool {
    &&& 1 <= p.w
    &&& 1 <= p.h
    &&& p.w * p.h <= MAX_PIXELS
    &&& 2 <= p.colors <= MAX_LEVELS
    &&& p.taps.len() <= 16
    &&& forall|j: int| 0 <= j < p.taps.len() ==> tap_wf(#[trigger] p.taps[j], p.den)
    &&& 1 <= p.den <= 64
    &&& 0 <= p.s <= UNIT
}

/// Working state: the output buffer (unprocessed pixels still hold the
/// source values) and the pending error accumulator.
pub struct EdState {
    pub out: Seq<u8>,
    pub err: Seq<int>,
}

/// Processes the n-th pixel in scan order: add pending error, clamp,
/// quantize, commit, and diffuse the residual forward.
pub open spec fn ed_step(st: EdState, p: EdParams, n: int) -> EdState {
    let y = scan_y(n, p.w);
    let x = scan_x(n, p.w, p.serp);
    let rev = row_reversed(y, p.serp);
    let b = pix_base(p.w, x, y);
    let v0 = clamp_intensity(st.out[b] * UNIT + st.err[b]);
    let v1 = clamp_intensity(st.out[b + 1] * UNIT + st.err[b + 1]);
    let v2 = clamp_intensity(st.out[b + 2] * UNIT + st.err[b + 2]);
    let q0 = quantize_spec(v0, p.colors);
    let q1 = quantize_spec(v1, p.colors);
    let q2 = quantize_spec(v2, p.colors);
    let c = DiffuseCtx {
        w: p.w,
        h: p.h,
        x,
        y,
        rev,
        den: p.den,
        s: p.s,
        r0: v0 - q0 * UNIT,
        r1: v1 - q1 * UNIT,
        r2: v2 - q2 * UNIT,
    };
    EdState {
        out: st.out.update(b, q0 as u8).update(b + 1, q1 as u8).update(b + 2, q2 as u8),
        err: diffuse_taps(st.err, c, p.taps, p.taps.len() as int),
    }
}

/// State after the first n pixels of the scan over source image img.
pub open spec fn ed_state(img: Seq<u8>, p: EdParams, n: nat) -> EdState
    decreases n,
{
    if n == 0 {
        EdState { out: img, err: Seq::new(img.len(), |i: int| 0) }
    } else {
        ed_step(ed_state(img, p, (n - 1) as nat), p, n - 1)
    }
}

/// The finished output of one error-diffusion pass.
pub open spec fn ed_output(img: Seq<u8>, p: EdParams) -> Seq<u8> {
    ed_state(img, p, (p.w * p.h) as nat).out
}

pub(crate) proof fn lemma_diffuse_amount_bound(r: int, num: int, den: int, s: int)
    requires
        -FULL <= r <= FULL,
        1 <= num <= den,
        den <= 64,
        0 <= s <= UNIT,
    ensures
        r >= 0 ==> 0 <= diffuse_amount(r, num, den, s) <= r,
        r < 0 ==> r <= diffuse_amount(r, num, den, s) <= 0,
{
    let a = if r >= 0 {
        r
    } else {
        -r
    };
    assert(a * num * s <= a * den * UNIT && (den * UNIT) * a == a * den * UNIT)
        by (nonlinear_arith)
        requires
            0 <= a,
            1 <= num <= den,
            0 <= s <= UNIT,
    ;
    lemma_div_pos_is_pos(a * num * s, den * UNIT);
    lemma_div_is_ordered(a * num * s, a * den * UNIT, den * UNIT);
    lemma_div_multiples_vanish(a, den * UNIT);
}

proof fn lemma_diffuse_taps_bound(e: Seq<int>, c: DiffuseCtx, taps: Seq<KernelTap>, j: int, m: int)
    requires
        0 <= j <= taps.len(),
        e.len() == 3 * (c.w * c.h),
        forall|i: int| 0 <= i < e.len() ==> -m <= #[trigger] e[i] <= m,
        forall|i: int| 0 <= i < taps.len() ==> tap_wf(#[trigger] taps[i], c.den),
        1 <= c.den <= 64,
        0 <= c.s <= UNIT,
        -FULL <= c.r0 <= FULL,
        -FULL <= c.r1 <= FULL,
        -FULL <= c.r2 <= FULL,
        0 <= m,
    ensures
        diffuse_taps(e, c, taps, j).len() == e.len(),
        forall|i: int|
            0 <= i < e.len() ==> -(m + j * FULL) <= #[trigger] diffuse_taps(e, c, taps, j)[i] <= m
                + j * FULL,
    decreases j,
{
    if j > 0 {
        lemma_diffuse_taps_bound(e, c, taps, j - 1, m);
        let prev = diffuse_taps(e, c, taps, j - 1);
        let cur = diffuse_taps(e, c, taps, j);
        let t = taps[j - 1];
        assert(cur == diffuse_tap(prev, c, t));
        let mp = m + (j - 1) * FULL;
        lemma_diffuse_amount_bound(c.r0, t.num as int, c.den, c.s);
        lemma_diffuse_amount_bound(c.r1, t.num as int, c.den, c.s);
        lemma_diffuse_amount_bound(c.r2, t.num as int, c.den, c.s);
        let nx = tap_x(c.x, t.dx as int, c.rev);
        let ny = c.y + t.dy;
        if 0 <= nx < c.w && 0 <= ny < c.h {
            lemma_pix_base_range(c.w, c.h, nx, ny);
            assert forall|i: int| 0 <= i < e.len() implies -(m + j * FULL) <= #[trigger] cur[i] <= m
                + j * FULL by {
                assert(-mp <= prev[i] <= mp);
                assert(mp + FULL == m + j * FULL);
            }
        } else {
            assert forall|i: int| 0 <= i < e.len() implies -(m + j * FULL) <= #[trigger] cur[i] <= m
                + j * FULL by {
                assert(-mp <= prev[i] <= mp);
                assert(mp + FULL == m + j * FULL);
            }
        }
    }
}

/// Residuals of a clamped-then-quantized intensity stay within one full
/// scale unit.
proof fn lemma_residual_bound(v: int, colors: int)
    requires
        0 <= v <= FULL,
        2 <= colors,
    ensures
        -FULL <= v - quantize_spec(v, colors) * UNIT <= FULL,
{
    lemma_quantize_is_level(v, colors);
}

pub proof fn lemma_ed_state_wf(img: Seq<u8>, p: EdParams, n: nat)
    requires
        ed_params_wf(p),
        img.len() == 3 * (p.w * p.h),
        n <= p.w * p.h,
    ensures
        ed_state(img, p, n).out.len() == img.len(),
        ed_state(img, p, n).err.len() == img.len(),
        forall|i: int|
            0 <= i < img.len() ==> -(n * 16 * FULL) <= #[trigger] ed_state(img, p, n).err[i] <= n
                * 16 * FULL,
    decreases n,
{
    if n > 0 {
        lemma_ed_state_wf(img, p, (n - 1) as nat);
        lemma_scan_round_trip(n - 1, p.w, p.h, p.serp);
        let st = ed_state(img, p, (n - 1) as nat);
        let y = scan_y(n - 1, p.w);
        let x = scan_x(n - 1, p.w, p.serp);
        lemma_pix_base_range(p.w, p.h, x, y);
        let b = pix_base(p.w, x, y);
        let v0 = clamp_intensity(st.out[b] * UNIT + st.err[b]);
        let v1 = clamp_intensity(st.out[b + 1] * UNIT + st.err[b + 1]);
        let v2 = clamp_intensity(st.out[b + 2] * UNIT + st.err[b + 2]);
        lemma_residual_bound(v0, p.colors);
        lemma_residual_bound(v1, p.colors);
        lemma_residual_bound(v2, p.colors);
        let c = DiffuseCtx {
            w: p.w,
            h: p.h,
            x,
            y,
            rev: row_reversed(y, p.serp),
            den: p.den,
            s: p.s,
            r0: v0 - quantize_spec(v0, p.colors) * UNIT,
            r1: v1 - quantize_spec(v1, p.colors) * UNIT,
            r2: v2 - quantize_spec(v2, p.colors) * UNIT,
        };
        let m: int = (n - 1) * 16 * FULL;
        lemma_diffuse_taps_bound(st.err, c, p.taps, p.taps.len() as int, m);
        let jj = p.taps.len() as int;
        assert(ed_state(img, p, n).err == diffuse_taps(st.err, c, p.taps, jj));
        assert forall|i: int| 0 <= i < img.len() implies -(n * 16 * FULL) <= #[trigger] ed_state(
            img,
            p,
            n,
        ).err[i] <= n * 16 * FULL by {
            assert(-(m + jj * FULL) <= diffuse_taps(st.err, c, p.taps, jj)[i] <= m + jj * FULL);
            assert(jj * FULL <= 16 * FULL) by (nonlinear_arith)
                requires
                    0 <= jj <= 16,
            ;
            assert((n - 1) * 16 * FULL + 16 * FULL == n * 16 * FULL) by (nonlinear_arith);
        }
    }
}

/// The scan step at which the pixel owning byte i is visited.
pub open spec fn byte_scan(i: int, w: int, serp: bool) -> int {
    scan_of_pixel(i / 3, w, serp)
}

/// After n scan steps, every visited pixel holds quantized channels and
/// every unvisited pixel still holds the source channels.
pub proof fn lemma_ed_state_out(img: Seq<u8>, p: EdParams, n: nat)
    requires
        ed_params_wf(p),
        img.len() == 3 * (p.w * p.h),
        n <= p.w * p.h,
    ensures
        forall|i: int|
            0 <= i < img.len() && byte_scan(i, p.w, p.serp) < n ==> is_level(
                #[trigger] ed_state(img, p, n).out[i] as int,
                p.colors,
            ),
        forall|i: int|
            0 <= i < img.len() && byte_scan(i, p.w, p.serp) >= n ==> #[trigger] ed_state(
                img,
                p,
                n,
            ).out[i] == img[i],
    decreases n,
{
    if n > 0 {
        lemma_ed_state_out(img, p, (n - 1) as nat);
        lemma_ed_state_wf(img, p, (n - 1) as nat);
        lemma_scan_round_trip(n - 1, p.w, p.h, p.serp);
        let st = ed_state(img, p, (n - 1) as nat);
        let y = scan_y(n - 1, p.w);
        let x = scan_x(n - 1, p.w, p.serp);
        lemma_pix_base_range(p.w, p.h, x, y);
        let kk = y * p.w + x;
        let b = pix_base(p.w, x, y);
        let v0 = clamp_intensity(st.out[b] * UNIT + st.err[b]);
        let v1 = clamp_intensity(st.out[b + 1] * UNIT + st.err[b + 1]);
        let v2 = clamp_intensity(st.out[b + 2] * UNIT + st.err[b + 2]);
        lemma_quantize_is_level(v0, p.colors);
        lemma_quantize_is_level(v1, p.colors);
        lemma_quantize_is_level(v2, p.colors);
        let cur = ed_state(img, p, n);
        assert forall|i: int| 0 <= i < img.len() implies (byte_scan(i, p.w, p.serp) < n
            ==> is_level(#[trigger] cur.out[i] as int, p.colors)) && (byte_scan(i, p.w, p.serp) >= n
            ==> cur.out[i] == img[i]) by {
            let k = i / 3;
            lemma_div_pos_is_pos(i, 3);
            assert(i < 3 * (p.w * p.h) ==> i / 3 < p.w * p.h) by {
                lemma_multiply_divide_lt(i, 3, p.w * p.h);
            }
            lemma_fundamental_div_mod(i, 3);
            lemma_mod_division_less_than_divisor(i, 3);
            lemma_pixel_scan_round_trip(k, p.w, p.h, p.serp);
            if b <= i <= b + 2 {
                lemma_fundamental_div_mod_converse_div(i, 3, kk, i - b);
                assert(k == kk);
                assert(byte_scan(i, p.w, p.serp) == n - 1);
            } else {
                assert(cur.out[i] == st.out[i]);
                if byte_scan(i, p.w, p.serp) == n - 1 {
                    assert(scan_y(scan_of_pixel(k, p.w, p.serp), p.w) * p.w + scan_x(
                        scan_of_pixel(k, p.w, p.serp),
                        p.w,
                        p.serp,
                    ) == k);
                    assert(k == kk);
                    assert(i == 3 * k + i % 3 && 0 <= i % 3 < 3);
                    assert(false);
                }
            }
        }
    }
}

/// Every byte of the finished pass is one of the `colors` output levels.
pub proof fn lemma_ed_output_levels(img: Seq<u8>, p: EdParams)
    requires
        ed_params_wf(p),
        img.len() == 3 * (p.w * p.h),
    ensures
        ed_output(img, p).len() == img.len(),
        forall|i: int|
            0 <= i < img.len() ==> is_level(#[trigger] ed_output(img, p)[i] as int, p.colors),
{
    let n = (p.w * p.h) as nat;
    lemma_ed_state_wf(img, p, n);
    lemma_ed_state_out(img, p, n);
    assert forall|i: int| 0 <= i < img.len() implies is_level(
        #[trigger] ed_output(img, p)[i] as int,
        p.colors,
    ) by {
        let k = i / 3;
        lemma_div_pos_is_pos(i, 3);
        assert(i < 3 * (p.w * p.h) ==> i / 3 < p.w * p.h) by {
            lemma_multiply_divide_lt(i, 3, p.w * p.h);
        }
        lemma_pixel_scan_round_trip(k, p.w, p.h, p.serp);
        assert(byte_scan(i, p.w, p.serp) < n);
    }
}

/// Visiting the n-th scan position and asking where that pixel is visited
/// round-trips.
pub proof fn lemma_scan_round_trip(n: int, w: int, h: int, serp: bool)
    requires
        1 <= w,
        1 <= h,
        0 <= n < w * h,
    ensures
        0 <= scan_y(n, w) < h,
        0 <= scan_x(n, w, serp) < w,
        scan_of_pixel(scan_y(n, w) * w + scan_x(n, w, serp), w, serp) == n,
{
    lemma_div_pos_is_pos(n, w);
    assert(n < w * h ==> n / w < h) by {
        lemma_multiply_divide_lt(n, w, h);
    }
    lemma_mod_division_less_than_divisor(n, w);
    let y = scan_y(n, w);
    let x = scan_x(n, w, serp);
    let k = y * w + x;
    lemma_fundamental_div_mod_converse_div(k, w, y, x);
    lemma_fundamental_div_mod_converse_mod(k, w, y, x);
    lemma_fundamental_div_mod(n, w);
    assert(w * y == y * w) by (nonlinear_arith);
}

/// Each pixel's scan position is a valid step, and re-deriving the pixel
/// from it leads back to the same pixel.
pub proof fn lemma_pixel_scan_round_trip(k: int, w: int, h: int, serp: bool)
    requires
        1 <= w,
        1 <= h,
        0 <= k < w * h,
    ensures
        0 <= scan_of_pixel(k, w, serp) < w * h,
        scan_y(scan_of_pixel(k, w, serp), w) == k / w,
        scan_x(scan_of_pixel(k, w, serp), w, serp) == k % w,
        scan_y(scan_of_pixel(k, w, serp), w) * w + scan_x(scan_of_pixel(k, w, serp), w, serp) == k,
{
    lemma_div_pos_is_pos(k, w);
    assert(k < w * h ==> k / w < h) by {
        lemma_multiply_divide_lt(k, w, h);
    }
    lemma_mod_division_less_than_divisor(k, w);
    let y = k / w;
    let x = k % w;
    let xm = if row_reversed(y, serp) {
        w - 1 - x
    } else {
        x
    };
    let n = y * w + xm;
    lemma_fundamental_div_mod_converse_div(n, w, y, xm);
    lemma_fundamental_div_mod_converse_mod(n, w, y, xm);
    assert(y * w + xm < w * h && 0 <= y * w + xm) by (nonlinear_arith)
        requires
            0 <= y < h,
            0 <= xm < w,
    ;
    lemma_fundamental_div_mod(k, w);
    assert(w * y == y * w) by (nonlinear_arith);
}

proof fn lemma_errs_view_update(e: Seq<i64>, i: int, x: i64)
    requires
        0 <= i < e.len(),
    ensures
        errs_view(e.update(i, x)) == errs_view(e).update(i, x as int),
{
    assert(errs_view(e.update(i, x)) =~= errs_view(e).update(i, x as int));
}

pub(crate) fn clamp_intensity_exec(v: i64) -> (c: i64)
    ensures
        c == clamp_intensity(v as int),
{
    if v < 0 {
        0
    } else if v > FULL {
        FULL
    } else {
        v
    }
}

pub(crate) fn diffuse_amount_exec(r: i64, num: u32, den: u32, s: u32) -> (d: i64)
    requires
        -FULL <= r <= FULL,
        1 <= num <= den,
        den <= 64,
        s <= UNIT,
    ensures
        d == diffuse_amount(r as int, num as int, den as int, s as int),
        r >= 0 ==> 0 <= d <= r,
        r < 0 ==> r <= d <= 0,
{
    proof {
        lemma_diffuse_amount_bound(r as int, num as int, den as int, s as int);
    }
    let rm: u64 = if r >= 0 {
        r as u64
    } else {
        (-r) as u64
    };
    proof {
        assert(rm * (num as u64) <= 16711680 * 64) by (nonlinear_arith)
            requires
                rm <= 16711680,
                num <= 64,
        ;
        assert((rm * (num as u64)) * (s as u64) <= (16711680 * 64) * 65536) by (nonlinear_arith)
            requires
                rm * (num as u64) <= 16711680 * 64,
                s <= 65536,
        ;
    }
    let q: u64 = (rm * (num as u64) * (s as u64)) / ((den as u64) * (UNIT as u64));
    proof {
        assert(q <= rm) by {
            lemma_diffuse_amount_bound(rm as int, num as int, den as int, s as int);
        }
    }
    if r >= 0 {
        q as i64
    } else {
        -(q as i64)
    }
}

fn zeros_i64(len: usize) -> (v: Vec<i64>)
    ensures
        v@.len() == len,
        forall|i: int| 0 <= i < len ==> v@[i] == 0i64,
{
    let mut v: Vec<i64> = Vec::new();
    let mut i: usize = 0;
    while i < len
        invariant
            i <= len,
            v@.len() == i,
            forall|j: int| 0 <= j < i ==> v@[j] == 0i64,
        decreases len - i,
    {
        v.push(0);
        i = i + 1;
    }
    v
}

pub(crate) fn copy_bytes(src: &Vec<u8>) -> (v: Vec<u8>)
    ensures
        v@ == src@,
{
    let mut v: Vec<u8> = Vec::new();
    let mut i: usize = 0;
    while i < src.len()
        invariant
            i <= src@.len(),
            v@ == src@.subrange(0, i as int),
        decreases src@.len() - i,
    {
        v.push(src[i]);
        proof {
            assert(v@ =~= src@.subrange(0, i + 1));
        }
        i = i + 1;
    }
    proof {
        assert(v@ =~= src@);
    }
    v
}

/// The diffusion context for one pixel, from executable values.
pub open spec fn make_ctx(
    w: int,
    h: int,
    x: int,
    y: int,
    rev: bool,
    den: int,
    s: int,
    r0: int,
    r1: int,
    r2: int,
) -> DiffuseCtx {
    DiffuseCtx { w, h, x, y, rev, den, s, r0, r1, r2 }
}

/// Distributes one pixel's residual (r0, r1, r2) over the kernel taps,
/// adding each in-bounds share to the pending error accumulator.
#[verifier::loop_isolation(false)]
fn diffuse_pixel(
    err: &mut Vec<i64>,
    taps: &Vec<KernelTap>,
    den: u32,
    s: u32,
    w: usize,
    h: usize,
    x: usize,
    y: usize,
    rev: bool,
    r0: i64,
    r1: i64,
    r2: i64,
)
    requires
        old(err)@.len() == 3 * (w * h),
        w * h <= MAX_PIXELS,
        1 <= w,
        1 <= h,
        x < w,
        y < h,
        taps@.len() <= 16,
        forall|j: int| 0 <= j < taps@.len() ==> tap_wf(#[trigger] taps@[j], den as int),
        1 <= den <= 64,
        s <= UNIT,
        -FULL <= r0 <= FULL,
        -FULL <= r1 <= FULL,
        -FULL <= r2 <= FULL,
        forall|i: int|
            0 <= i < old(err)@.len() ==> -0x4000_0000 * 16 * (FULL as int) <= #[trigger] old(
                err,
            )@[i] as int <= 0x4000_0000 * 16 * (FULL as int),
    ensures
        final(err)@.len() == old(err)@.len(),
        errs_view(final(err)@) == diffuse_taps(
            errs_view(old(err)@),
            make_ctx(
                w as int,
                h as int,
                x as int,
                y as int,
                rev,
                den as int,
                s as int,
                r0 as int,
                r1 as int,
                r2 as int,
            ),
            taps@,
            taps@.len() as int,
        ),
{
    let ghost c = make_ctx(
        w as int,
        h as int,
        x as int,
        y as int,
        rev,
        den as int,
        s as int,
        r0 as int,
        r1 as int,
        r2 as int,
    );
    let ghost st_err = errs_view(old(err)@);
    let ghost m: int = 0x4000_0000 * 16 * (FULL as int);
    proof {
        assert(h <= w * h && w <= w * h) by (nonlinear_arith)
            requires
                1 <= w,
                1 <= h,
        ;
    }
    let mut j: usize = 0;
    while j < taps.len()
        invariant
            j <= taps@.len(),
            err@.len() == old(err)@.len(),
            errs_view(err@) == diffuse_taps(st_err, c, taps@, j as int),
        decreases taps@.len() - j,
    {
        proof {
            lemma_diffuse_taps_bound(st_err, c, taps@, j as int, m);
            assert(j * FULL <= 16 * FULL) by (nonlinear_arith)
                requires
                    0 <= j <= 16,
            ;
        }
        let t = taps[j];
        let nyi = y + (t.dy as usize);
        let nxi: i64 = if rev {
            x as i64 - t.dx as i64
        } else {
            x as i64 + t.dx as i64
        };
        let ghost eprev = errs_view(err@);
        proof {
            assert(diffuse_taps(st_err, c, taps@, j as int + 1) == diffuse_tap(eprev, c, t));
        }
        if 0 <= nxi && nxi < w as i64 && nyi < h {
            let nx = nxi as usize;
            proof {
                lemma_pix_base_range(w as int, h as int, nx as int, nyi as int);
            }
            let nbase = 3 * (nyi * w + nx);
            let d0 = diffuse_amount_exec(r0, t.num, den, s);
            let cur0 = err[nbase];
            let nv0 = cur0 + d0;
            let ghost before0 = err@;
            err.set(nbase, nv0);
            proof {
                lemma_errs_view_update(before0, nbase as int, nv0);
            }
            let d1 = diffuse_amount_exec(r1, t.num, den, s);
            let cur1 = err[nbase + 1];
            let nv1 = cur1 + d1;
            let ghost before1 = err@;
            err.set(nbase + 1, nv1);
            proof {
                lemma_errs_view_update(before1, nbase as int + 1, nv1);
            }
            let d2 = diffuse_amount_exec(r2, t.num, den, s);
            let cur2 = err[nbase + 2];
            let nv2 = cur2 + d2;
            let ghost before2 = err@;
            err.set(nbase + 2, nv2);
            proof {
                lemma_errs_view_update(before2, nbase as int + 2, nv2);
                assert(errs_view(err@) =~= diffuse_tap(eprev, c, t));
            }
        } else {
            proof {
                assert(errs_view(err@) == diffuse_tap(eprev, c, t));
            }
        }
        j = j + 1;
    }
}

/// One full error-diffusion pass: for each pixel in (possibly serpentine)
/// scan order, add the pending error, clamp, quantize with the configured
/// level count, commit, and hand each kernel tap its share of the residual,
/// scaled by the diffusion strength.
#[verifier::loop_isolation(false)]
pub fn error_diffusion_generic(
    img: &RgbImage,
    settings: &DitheringSettings,
    kernel: DiffusionKernel,
) -> (r: RgbImage)
    requires
        img.wf(),
        1 <= img.width,
        1 <= img.height,
        settings.wf(),
        kernel.wf(),
    ensures
        r.wf(),
        r.width == img.width,
        r.height == img.height,
        r.data@ == ed_output(
            img.data@,
            ed_params(*img, *settings, kernel.taps@, kernel.den as int),
        ),
        forall|i: int|
            0 <= i < r.data@.len() ==> is_level(
                #[trigger] r.data@[i] as int,
                settings.colors as int,
            ),
{
    let ghost p = ed_params(*img, *settings, kernel.taps@, kernel.den as int);
    let w = img.width;
    let h = img.height;
    let npix = w * h;
    let mut out: Vec<u8> = copy_bytes(&img.data);
    let mut err: Vec<i64> = zeros_i64(out.len());
    proof {
        assert(errs_view(err@) =~= ed_state(img.data@, p, 0).err);
    }
    let mut n: usize = 0;
    while n < npix
        invariant
            n <= npix,
            out@.len() == img.data@.len(),
            err@.len() == img.data@.len(),
            out@ == ed_state(img.data@, p, n as nat).out,
            errs_view(err@) == ed_state(img.data@, p, n as nat).err,
        decreases npix - n,
    {
        let ghost st = ed_state(img.data@, p, n as nat);
        proof {
            lemma_ed_state_wf(img.data@, p, n as nat);
            lemma_scan_round_trip(n as int, w as int, h as int, settings.serpentine);
            assert(n * 16 * FULL <= 0x4000_0000 * 16 * (FULL as int)) by (nonlinear_arith)
                requires
                    n <= 0x4000_0000,
            ;
        }
        let y = n / w;
        let x0 = n % w;
        let rev = settings.serpentine && y % 2 == 1;
        let x = if rev {
            w - 1 - x0
        } else {
            x0
        };
        proof {
            lemma_pix_base_range(p.w, p.h, x as int, y as int);
        }
        let base = 3 * (y * w + x);
        let e0 = err[base];
        let e1 = err[base + 1];
        let e2 = err[base + 2];
        proof {
            assert(e0 as int == st.err[base as int]);
            assert(e1 as int == st.err[base as int + 1]);
            assert(e2 as int == st.err[base as int + 2]);
        }
        let v0 = clamp_intensity_exec((out[base] as i64) * UNIT + e0);
        let v1 = clamp_intensity_exec((out[base + 1] as i64) * UNIT + e1);
        let v2 = clamp_intensity_exec((out[base + 2] as i64) * UNIT + e2);
        let (q0, q1, q2) = find_nearest_color(v0, v1, v2, settings.colors);
        proof {
            lemma_quantize_is_level(v0 as int, p.colors);
            lemma_quantize_is_level(v1 as int, p.colors);
            lemma_quantize_is_level(v2 as int, p.colors);
        }
        out.set(base, q0);
        out.set(base + 1, q1);
        out.set(base + 2, q2);
        let r0 = v0 - (q0 as i64) * UNIT;
        let r1 = v1 - (q1 as i64) * UNIT;
        let r2 = v2 - (q2 as i64) * UNIT;
        proof {
            assert(out@ == ed_state(img.data@, p, (n + 1) as nat).out);
            assert forall|i: int| 0 <= i < err@.len() implies -0x4000_0000 * 16 * (FULL as int)
                <= #[trigger] err@[i] as int <= 0x4000_0000 * 16 * (FULL as int) by {
                assert(err@[i] as int == st.err[i]);
            }
        }
        diffuse_pixel(
            &mut err,
            &kernel.taps,
            kernel.den,
            settings.error_diffusion,
            w,
            h,
            x,
            y,
            rev,
            r0,
            r1,
            r2,
        );
        proof {
            let c = make_ctx(
                p.w,
                p.h,
                x as int,
                y as int,
                rev,
                p.den,
                p.s,
                r0 as int,
                r1 as int,
                r2 as int,
            );
            assert(errs_view(err@) == diffuse_taps(st.err, c, p.taps, p.taps.len() as int));
            assert(errs_view(err@) == ed_state(img.data@, p, (n + 1) as nat).err);
        }
        n = n + 1;
    }
    proof {
        lemma_ed_output_levels(img.data@, p);
    }
    RgbImage::from_raw(w, h, out)
}

/// Floyd-Steinberg dithering (1976).
pub fn floyd_steinberg(img: &RgbImage, settings: &DitheringSettings) -> (r: RgbImage)
    requires
        img.wf(),
        1 <= img.width,
        1 <= img.height,
        settings.wf(),
    ensures
        r.wf(),
        r.width == img.width,
        r.height == img.height,
        r.data@ == ed_output(img.data@, ed_params(*img, *settings, floyd_steinberg_taps(), 16)),
        forall|i: int|
            0 <= i < r.data@.len() ==> is_level(
                #[trigger] r.data@[i] as int,
                settings.colors as int,
            ),
{
    error_diffusion_generic(img, settings, floyd_steinberg_kernel())
}

/// Atkinson dithering (1984), as used on the classic Macintosh.
pub fn atkinson(img: &RgbImage, settings: &DitheringSettings) -> (r: RgbImage)
    requires
        img.wf(),
        1 <= img.width,
        1 <= img.height,
        settings.wf(),
    ensures
        r.wf(),
        r.width == img.width,
        r.height == img.height,
        r.data@ == ed_output(img.data@, ed_params(*img, *settings, atkinson_taps(), 8)),
        forall|i: int|
            0 <= i < r.data@.len() ==> is_level(
                #[trigger] r.data@[i] as int,
                settings.colors as int,
            ),
{
    error_diffusion_generic(img, settings, atkinson_kernel())
}

/// Jarvis-Judice-Ninke dithering (1976).
pub fn jarvis_judice_ninke(img: &RgbImage, settings: &DitheringSettings) -> (r: RgbImage)
    requires
        img.wf(),
        1 <= img.width,
        1 <= img.height,
        settings.wf(),
    ensures
        r.wf(),
        r.width == img.width,
        r.height == img.height,
        r.data@ == ed_output(img.data@, ed_params(*img, *settings, jarvis_judice_ninke_taps(), 48)),
        forall|i: int|
            0 <= i < r.data@.len() ==> is_level(
                #[trigger] r.data@[i] as int,
                settings.colors as int,
            ),
{
    error_diffusion_generic(img, settings, jarvis_judice_ninke_kernel())
}

/// Stucki dithering (1981).
pub fn stucki(img: &RgbImage, settings: &DitheringSettings) -> (r: RgbImage)
    requires
        img.wf(),
        1 <= img.width,
        1 <= img.height,
        settings.wf(),
    ensures
        r.wf(),
        r.width == img.width,
        r.height == img.height,
        r.data@ == ed_output(img.data@, ed_params(*img, *settings, stucki_taps(), 42)),
        forall|i: int|
            0 <= i < r.data@.len() ==> is_level(
                #[trigger] r.data@[i] as int,
                settings.colors as int,
            ),
{
    error_diffusion_generic(img, settings, stucki_kernel())
}

/// Burkes dithering (1988).
pub fn burkes(img: &RgbImage, settings: &DitheringSettings) -> (r: RgbImage)
    requires
        img.wf(),
        1 <= img.width,
        1 <= img.height,
        settings.wf(),
    ensures
        r.wf(),
        r.width == img.width,
        r.height == img.height,
        r.data@ == ed_output(img.data@, ed_params(*img, *settings, burkes_taps(), 32)),
        forall|i: int|
            0 <= i < r.data@.len() ==> is_level(
                #[trigger] r.data@[i] as int,
                settings.colors as int,
            ),
{
    error_diffusion_generic(img, settings, burkes_kernel())
}

/// Sierra dithering (1989).
pub fn sierra(img: &RgbImage, settings: &DitheringSettings) -> (r: RgbImage)
    requires
        img.wf(),
        1 <= img.width,
        1 <= img.height,
        settings.wf(),
    ensures
        r.wf(),
        r.width == img.width,
        r.height == img.height,
        r.data@ == ed_output(img.data@, ed_params(*img, *settings, sierra_taps(), 32)),
        forall|i: int|
            0 <= i < r.data@.len() ==> is_level(
                #[trigger] r.data@[i] as int,
                settings.colors as int,
            ),
{
    error_diffusion_generic(img, settings, sierra_kernel())
}

/// Sierra two-row dithering (1990).
pub fn sierra_two_row(img: &RgbImage, settings: &DitheringSettings) -> (r: RgbImage)
    requires
        img.wf(),
        1 <= img.width,
        1 <= img.height,
        settings.wf(),
    ensures
        r.wf(),
        r.width == img.width,
        r.height == img.height,
        r.data@ == ed_output(img.data@, ed_params(*img, *settings, sierra_two_row_taps(), 16)),
        forall|i: int|
            0 <= i < r.data@.len() ==> is_level(
                #[trigger] r.data@[i] as int,
                settings.colors as int,
            ),
{
    error_diffusion_generic(img, settings, sierra_two_row_kernel())
}

/// Sierra lite (filter lite) dithering.
pub fn sierra_lite(img: &RgbImage, settings: &DitheringSettings) -> (r: RgbImage)
    requires
        img.wf(),
        1 <= img.width,
        1 <= img.height,
        settings.wf(),
    ensures
        r.wf(),
        r.width == img.width,
        r.height == img.height,
        r.data@ == ed_output(img.data@, ed_params(*img, *settings, sierra_lite_taps(), 4)),
        forall|i: int|
            0 <= i < r.data@.len() ==> is_level(
                #[trigger] r.data@[i] as int,
                settings.colors as int,
            ),
{
    error_diffusion_generic(img, settings, sierra_lite_kernel())
}

/// False Floyd-Steinberg dithering.
pub fn false_floyd_steinberg(img: &RgbImage, settings: &DitheringSettings) -> (r: RgbImage)
    requires
        img.wf(),
        1 <= img.width,
        1 <= img.height,
        settings.wf(),
    ensures
        r.wf(),
        r.width == img.width,
        r.height == img.height,
        r.data@ == ed_output(img.data@, ed_params(*img, *settings, false_floyd_steinberg_taps(), 8)),
        forall|i: int|
            0 <= i < r.data@.len() ==> is_level(
                #[trigger] r.data@[i] as int,
                settings.colors as int,
            ),
{
    error_diffusion_generic(img, settings, false_floyd_steinberg_kernel())
}

/// Steven Pigeon's dithering algorithm.
pub fn steven_pigeon(img: &RgbImage, settings: &DitheringSettings) -> (r: RgbImage)
    requires
        img.wf(),
        1 <= img.width,
        1 <= img.height,
        settings.wf(),
    ensures
        r.wf(),
        r.width == img.width,
        r.height == img.height,
        r.data@ == ed_output(img.data@, ed_params(*img, *settings, steven_pigeon_taps(), 8)),
        forall|i: int|
            0 <= i < r.data@.len() ==> is_level(
                #[trigger] r.data@[i] as int,
                settings.colors as int,
            ),
{
    error_diffusion_generic(img, settings, steven_pigeon_kernel())
}

} // verus!
