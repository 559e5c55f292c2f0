use vstd::prelude::*;
use crate::error_diffusion::{
    clamp_intensity_exec, copy_bytes, diffuse_amount, diffuse_amount_exec,
};
use crate::hilbert::{
    hilbert_index, hilbert_index_to_xy, hilbert_xy, hpow2, lemma_hilbert_round_trip_1,
    lemma_hilbert_round_trip_2, lemma_hilbert_xy_range, lemma_hpow2_mono, lemma_pow_facts, pow4,
};
use crate::quantize::{
    clamp_intensity, find_nearest_color, is_level, lemma_quantize_is_level, quantize_spec, FULL,
    MAX_LEVELS, UNIT,
};
use crate::rgb_image::{
    lemma_byte_coords, lemma_pix_base_injective, lemma_pix_base_range, pix_base, RgbImage,
    MAX_PIXELS,
};
use crate::settings::DitheringSettings;

verus! {

/// The error decay along the curve: residuals are scaled by 7/10 (and the
/// configured diffusion strength) before being carried to the next pixel.
pub const RIEM_DECAY_NUM: u32 = 7;

pub const RIEM_DECAY_DEN: u32 = 10;

/// Working state of the curve walk: the output buffer and the one carried
/// error per channel.
pub struct RiemState {
    pub out: Seq<u8>,
    pub e0: int,
    pub e1: int,
    pub e2: int,
}

/// The curve level for a longest image side m: the smallest level of at
/// least 1 whose 2^level square covers m.
pub open spec fn riem_level(m: int) -> nat
    decreases m,
{
    if m <= 2 {
        1
    } else {
        (1 + riem_level((m + 1) / 2)) as nat
    }
}

/// Visits curve index i: where it lands inside the image, add the carried
/// error, clamp, quantize, commit, and carry the decayed residual onward;
/// elsewhere the state passes unchanged.
pub open spec fn riem_step(
    st: RiemState,
    w: int,
    h: int,
    colors: int,
    s: int,
    level: nat,
    i: int,
) -> RiemState {
    let xy = hilbert_xy(i, level);
    if 0 <= xy.0 < w && 0 <= xy.1 < h {
        let b = pix_base(w, xy.0, xy.1);
        let v0 = clamp_intensity(st.out[b] * UNIT + st.e0);
        let v1 = clamp_intensity(st.out[b + 1] * UNIT + st.e1);
        let v2 = clamp_intensity(st.out[b + 2] * UNIT + st.e2);
        let q0 = quantize_spec(v0, colors);
        let q1 = quantize_spec(v1, colors);
        let q2 = quantize_spec(v2, colors);
        RiemState {
            out: st.out.update(b, q0 as u8).update(b + 1, q1 as u8).update(b + 2, q2 as u8),
            e0: diffuse_amount(v0 - q0 * UNIT, RIEM_DECAY_NUM as int, RIEM_DECAY_DEN as int, s),
            e1: diffuse_amount(v1 - q1 * UNIT, RIEM_DECAY_NUM as int, RIEM_DECAY_DEN as int, s),
            e2: diffuse_amount(v2 - q2 * UNIT, RIEM_DECAY_NUM as int, RIEM_DECAY_DEN as int, s),
        }
    } else {
        st
    }
}

/// State after the first n curve indices.
pub open spec fn riem_state(
    img: Seq<u8>,
    w: int,
    h: int,
    colors: int,
    s: int,
    level: nat,
    n: nat,
) -> RiemState
    decreases n,
{
    if n == 0 {
        RiemState { out: img, e0: 0, e1: 0, e2: 0 }
    } else {
        riem_step(riem_state(img, w, h, colors, s, level, (n - 1) as nat), w, h, colors, s, level, n - 1)
    }
}

/// The finished output of one Riemersma pass over the whole curve.
pub open spec fn riem_output(img: Seq<u8>, w: int, h: int, colors: int, s: int) -> Seq<u8> {
    let level = riem_level(if w < h {
        h
    } else {
        w
    });
    riem_state(img, w, h, colors, s, level, pow4(level) as nat).out
}

/// The chosen level's square covers the longest side.
pub proof fn lemma_riem_level_covers(m: int)
    requires
        1 <= m,
    ensures
        1 <= riem_level(m),
        m <= hpow2(riem_level(m)),
    decreases m,
{
    assert(hpow2(0) == 1);
    assert(hpow2(1) == 2);
    if m > 2 {
        lemma_riem_level_covers((m + 1) / 2);
        lemma_pow_facts(riem_level((m + 1) / 2));
    }
}

/// The level grows only as the needed square does: any power of two that
/// covers m bounds the chosen level.
pub proof fn lemma_riem_level_at_most(m: int, k: nat)
    requires
        1 <= m,
        1 <= k,
        m <= hpow2(k),
    ensures
        riem_level(m) <= k,
    decreases m,
{
    assert(hpow2(0) == 1);
    assert(hpow2(1) == 2);
    if m > 2 {
        if k == 1 {
        } else {
            assert(hpow2(k) == 2 * hpow2((k - 1) as nat));
            lemma_riem_level_at_most((m + 1) / 2, (k - 1) as nat);
        }
    }
}

/// The doubling search for the level is exact: a minimal covering power of
/// two pins the level down.
pub proof fn lemma_riem_level_unique(m: int, l: nat)
    requires
        1 <= m,
        1 <= l,
        m <= hpow2(l),
        l == 1 || hpow2((l - 1) as nat) < m,
    ensures
        l == riem_level(m),
    decreases m,
{
    assert(hpow2(0) == 1);
    assert(hpow2(1) == 2);
    if m <= 2 {
        if l > 1 {
            lemma_hpow2_mono(1, (l - 1) as nat);
        }
    } else {
        assert(l >= 2) by {
            lemma_hpow2_mono(1, l);
            assert(hpow2(0) == 1);
            assert(hpow2(1) == 2);
        }
        let mp = (m + 1) / 2;
        assert(hpow2(l) == 2 * hpow2((l - 1) as nat));
        if l - 1 >= 2 {
            assert(hpow2((l - 1) as nat) == 2 * hpow2((l - 2) as nat));
        }
        lemma_riem_level_unique(mp, (l - 1) as nat);
    }
}

/// Size and error bounds of the walk's state.
pub proof fn lemma_riem_state_wf(
    img: Seq<u8>,
    w: int,
    h: int,
    colors: int,
    s: int,
    level: nat,
    n: nat,
)
    requires
        1 <= w,
        1 <= h,
        w * h <= MAX_PIXELS,
        2 <= colors <= MAX_LEVELS,
        0 <= s <= UNIT,
        img.len() == 3 * (w * h),
    ensures
        riem_state(img, w, h, colors, s, level, n).out.len() == img.len(),
        -FULL <= riem_state(img, w, h, colors, s, level, n).e0 <= FULL,
        -FULL <= riem_state(img, w, h, colors, s, level, n).e1 <= FULL,
        -FULL <= riem_state(img, w, h, colors, s, level, n).e2 <= FULL,
    decreases n,
{
    if n > 0 {
        lemma_riem_state_wf(img, w, h, colors, s, level, (n - 1) as nat);
        let st = riem_state(img, w, h, colors, s, level, (n - 1) as nat);
        let xy = hilbert_xy(n - 1, level);
        if 0 <= xy.0 < w && 0 <= xy.1 < h {
            lemma_pix_base_range(w, h, xy.0, xy.1);
            let b = pix_base(w, xy.0, xy.1);
            let v0 = clamp_intensity(st.out[b] * UNIT + st.e0);
            let v1 = clamp_intensity(st.out[b + 1] * UNIT + st.e1);
            let v2 = clamp_intensity(st.out[b + 2] * UNIT + st.e2);
            lemma_quantize_is_level(v0, colors);
            lemma_quantize_is_level(v1, colors);
            lemma_quantize_is_level(v2, colors);
            crate::error_diffusion::lemma_diffuse_amount_bound(
                v0 - quantize_spec(v0, colors) * UNIT,
                RIEM_DECAY_NUM as int,
                RIEM_DECAY_DEN as int,
                s,
            );
            crate::error_diffusion::lemma_diffuse_amount_bound(
                v1 - quantize_spec(v1, colors) * UNIT,
                RIEM_DECAY_NUM as int,
                RIEM_DECAY_DEN as int,
                s,
            );
            crate::error_diffusion::lemma_diffuse_amount_bound(
                v2 - quantize_spec(v2, colors) * UNIT,
                RIEM_DECAY_NUM as int,
                RIEM_DECAY_DEN as int,
                s,
            );
        }
    }
}

/// After n curve indices, every visited pixel holds quantized channels and
/// every unvisited pixel still holds the source channels; a pixel is
/// visited exactly when its curve index is below n.
pub proof fn lemma_riem_state_out(
    img: Seq<u8>,
    w: int,
    h: int,
    colors: int,
    s: int,
    level: nat,
    n: nat,
)
    requires
        1 <= w,
        1 <= h,
        w * h <= MAX_PIXELS,
        2 <= colors <= MAX_LEVELS,
        0 <= s <= UNIT,
        img.len() == 3 * (w * h),
        w <= hpow2(level),
        h <= hpow2(level),
        n <= pow4(level),
    ensures
        forall|i: int|
            0 <= i < img.len() && hilbert_index((i / 3) % w, (i / 3) / w, level) < n ==> is_level(
                #[trigger] riem_state(img, w, h, colors, s, level, n).out[i] as int,
                colors,
            ),
        forall|i: int|
            0 <= i < img.len() && hilbert_index((i / 3) % w, (i / 3) / w, level) >= n
                ==> #[trigger] riem_state(img, w, h, colors, s, level, n).out[i] == img[i],
    decreases n,
{
    if n > 0 {
        lemma_riem_state_out(img, w, h, colors, s, level, (n - 1) as nat);
        lemma_riem_state_wf(img, w, h, colors, s, level, (n - 1) as nat);
        let st = riem_state(img, w, h, colors, s, level, (n - 1) as nat);
        let cur = riem_state(img, w, h, colors, s, level, n);
        let xy = hilbert_xy(n - 1, level);
        lemma_hilbert_xy_range(n - 1, level);
        let inside = 0 <= xy.0 < w && 0 <= xy.1 < h;
        if inside {
            lemma_pix_base_range(w, h, xy.0, xy.1);
            lemma_hilbert_round_trip_1(n - 1, level);
            let b = pix_base(w, xy.0, xy.1);
            let v0 = clamp_intensity(st.out[b] * UNIT + st.e0);
            let v1 = clamp_intensity(st.out[b + 1] * UNIT + st.e1);
            let v2 = clamp_intensity(st.out[b + 2] * UNIT + st.e2);
            lemma_quantize_is_level(v0, colors);
            lemma_quantize_is_level(v1, colors);
            lemma_quantize_is_level(v2, colors);
        }
        assert forall|i: int| 0 <= i < img.len() implies (hilbert_index(
            (i / 3) % w,
            (i / 3) / w,
            level,
        ) < n ==> is_level(
            #[trigger] riem_state(img, w, h, colors, s, level, n).out[i] as int,
            colors,
        )) && (hilbert_index((i / 3) % w, (i / 3) / w, level) >= n ==> riem_state(
            img,
            w,
            h,
            colors,
            s,
            level,
            n,
        ).out[i] == img[i]) by {
            let k = i / 3;
            vstd::arithmetic::div_mod::lemma_div_pos_is_pos(i, 3);
            vstd::arithmetic::div_mod::lemma_fundamental_div_mod(i, 3);
            vstd::arithmetic::div_mod::lemma_mod_division_less_than_divisor(i, 3);
            assert(i < 3 * (w * h) ==> k < w * h) by {
                vstd::arithmetic::div_mod::lemma_multiply_divide_lt(i, 3, w * h);
            }
            lemma_byte_coords(k, i % 3, w, h);
            let px = k % w;
            let py = k / w;
            assert(py * w + px == k);
            lemma_hilbert_round_trip_2(px, py, level);
            let hidx = hilbert_index(px, py, level);
            if inside {
                let kk = xy.1 * w + xy.0;
                let b = pix_base(w, xy.0, xy.1);
                if px == xy.0 && py == xy.1 {
                    assert(k == kk);
                    assert(b == 3 * k);
                    assert(i == b + (i % 3));
                    assert(hidx == n - 1);
                } else {
                    lemma_pix_base_injective(w, px, py, xy.0, xy.1);
                    assert(cur.out[i] == st.out[i]);
                    if hidx == n - 1 {
                        assert(hilbert_xy(hidx, level).0 == px);
                        assert(hilbert_xy(hidx, level).1 == py);
                        assert(false);
                    }
                }
            } else {
                if hidx == n - 1 {
                    assert(hilbert_xy(hidx, level).0 == px);
                    assert(hilbert_xy(hidx, level).1 == py);
                    assert(false);
                }
            }
        }
    } else {
        assert forall|i: int| 0 <= i < img.len() implies #[trigger] hilbert_index(
            (i / 3) % w,
            (i / 3) / w,
            level,
        ) >= 0 by {
            let k = i / 3;
            vstd::arithmetic::div_mod::lemma_div_pos_is_pos(i, 3);
            vstd::arithmetic::div_mod::lemma_fundamental_div_mod(i, 3);
            vstd::arithmetic::div_mod::lemma_mod_division_less_than_divisor(i, 3);
            assert(i < 3 * (w * h) ==> k < w * h) by {
                vstd::arithmetic::div_mod::lemma_multiply_divide_lt(i, 3, w * h);
            }
            lemma_byte_coords(k, i % 3, w, h);
            lemma_hilbert_round_trip_2(k % w, k / w, level);
        }
    }
}

/// Every byte of the finished pass is one of the `colors` output levels.
pub proof fn lemma_riem_output_levels(img: Seq<u8>, w: int, h: int, colors: int, s: int)
    requires
        1 <= w,
        1 <= h,
        w * h <= MAX_PIXELS,
        2 <= colors <= MAX_LEVELS,
        0 <= s <= UNIT,
        img.len() == 3 * (w * h),
    ensures
        riem_output(img, w, h, colors, s).len() == img.len(),
        forall|i: int|
            0 <= i < img.len() ==> is_level(
                #[trigger] riem_output(img, w, h, colors, s)[i] as int,
                colors,
            ),
{
    let m = if w < h {
        h
    } else {
        w
    };
    let level = riem_level(m);
    lemma_riem_level_covers(m);
    let n = pow4(level) as nat;
    lemma_pow_facts(level);
    lemma_riem_state_wf(img, w, h, colors, s, level, n);
    lemma_riem_state_out(img, w, h, colors, s, level, n);
    assert forall|i: int| 0 <= i < img.len() implies is_level(
        #[trigger] riem_output(img, w, h, colors, s)[i] as int,
        colors,
    ) by {
        let k = i / 3;
        vstd::arithmetic::div_mod::lemma_fundamental_div_mod(i, 3);
        vstd::arithmetic::div_mod::lemma_mod_division_less_than_divisor(i, 3);
        assert(i < 3 * (w * h) ==> k < w * h) by {
            vstd::arithmetic::div_mod::lemma_multiply_divide_lt(i, 3, w * h);
        }
        lemma_byte_coords(k, i % 3, w, h);
        lemma_hilbert_round_trip_2(k % w, k / w, level);
    }
}

/// Riemersma dithering: walk the pixels in Hilbert-curve order over the
/// smallest covering power-of-two square, carrying a single decayed error
/// triple along the curve instead of a full-frame accumulator.
#[verifier::loop_isolation(false)]
#[verifier::rlimit(50)]
pub fn riemersma(img: &RgbImage, settings: &DitheringSettings) -> (r: RgbImage)
    requires
        img.wf(),
        1 <= img.width,
        1 <= img.height,
        settings.wf(),
    ensures
        r.wf(),
        r.width == img.width,
        r.height == img.height,
        r.data@ == riem_output(
            img.data@,
            img.width as int,
            img.height as int,
            settings.colors as int,
            settings.error_diffusion as int,
        ),
        forall|i: int|
            0 <= i < r.data@.len() ==> is_level(
                #[trigger] r.data@[i] as int,
                settings.colors as int,
            ),
{
    let w = img.width;
    let h = img.height;
    let ghost colors = settings.colors as int;
    let ghost s = settings.error_diffusion as int;
    let m: usize = if w < h {
        h
    } else {
        w
    };
    proof {
        assert(w <= w * h && h <= w * h) by (nonlinear_arith)
            requires
                1 <= w,
                1 <= h,
        ;
        assert(hpow2(30) == 0x4000_0000) by {
            reveal_with_fuel(hpow2, 32);
        }
        lemma_riem_level_covers(m as int);
        lemma_riem_level_at_most(m as int, 30);
    }
    proof {
        assert(hpow2(0) == 1);
        assert(hpow2(1) == 2);
    }
    let mut level: usize = 1;
    let mut size: u64 = 2;
    while size < m as u64
        invariant
            1 <= level <= 30,
            2 <= size,
            size == hpow2(level as nat),
            level == 1 || hpow2((level - 1) as nat) < m,
        decreases 30 - level,
    {
        proof {
            if level >= 30 {
                lemma_hpow2_mono(30, level as nat);
            }
        }
        size = size * 2;
        level = level + 1;
    }
    proof {
        lemma_riem_level_unique(m as int, level as nat);
        lemma_pow_facts(level as nat);
    }
    proof {
        lemma_hpow2_mono(level as nat, 30);
        assert((size as int) * (size as int) <= 0x4000_0000 * 0x4000_0000) by (nonlinear_arith)
            requires
                0 <= size <= 0x4000_0000,
        ;
    }
    let total: u64 = size * size;
    let mut out: Vec<u8> = copy_bytes(&img.data);
    let mut e0: i64 = 0;
    let mut e1: i64 = 0;
    let mut e2: i64 = 0;
    let mut i: u64 = 0;
    while i < total
        invariant
            i <= total,
            out@.len() == img.data@.len(),
            out@ == riem_state(img.data@, w as int, h as int, colors, s, level as nat, i as nat).out,
            e0 as int == riem_state(img.data@, w as int, h as int, colors, s, level as nat, i as nat).e0,
            e1 as int == riem_state(img.data@, w as int, h as int, colors, s, level as nat, i as nat).e1,
            e2 as int == riem_state(img.data@, w as int, h as int, colors, s, level as nat, i as nat).e2,
        decreases total - i,
    {
        proof {
            lemma_riem_state_wf(img.data@, w as int, h as int, colors, s, level as nat, i as nat);
        }
        let (x32, y32) = hilbert_index_to_xy(i, level);
        let x = x32 as usize;
        let y = y32 as usize;
        if x < w && y < h {
            proof {
                lemma_pix_base_range(w as int, h as int, x as int, y as int);
            }
            let base = 3 * (y * w + x);
            let v0 = clamp_intensity_exec((out[base] as i64) * UNIT + e0);
            let v1 = clamp_intensity_exec((out[base + 1] as i64) * UNIT + e1);
            let v2 = clamp_intensity_exec((out[base + 2] as i64) * UNIT + e2);
            let (q0, q1, q2) = find_nearest_color(v0, v1, v2, settings.colors);
            proof {
                lemma_quantize_is_level(v0 as int, colors);
                lemma_quantize_is_level(v1 as int, colors);
                lemma_quantize_is_level(v2 as int, colors);
            }
            out.set(base, q0);
            out.set(base + 1, q1);
            out.set(base + 2, q2);
            let r0 = v0 - (q0 as i64) * UNIT;
            let r1 = v1 - (q1 as i64) * UNIT;
            let r2 = v2 - (q2 as i64) * UNIT;
            e0 = diffuse_amount_exec(r0, RIEM_DECAY_NUM, RIEM_DECAY_DEN, settings.error_diffusion);
            e1 = diffuse_amount_exec(r1, RIEM_DECAY_NUM, RIEM_DECAY_DEN, settings.error_diffusion);
            e2 = diffuse_amount_exec(r2, RIEM_DECAY_NUM, RIEM_DECAY_DEN, settings.error_diffusion);
        }
        i = i + 1;
    }
    proof {
        lemma_riem_output_levels(img.data@, w as int, h as int, colors, s);
    }
    RgbImage::from_raw(w, h, out)
}

} // verus!
