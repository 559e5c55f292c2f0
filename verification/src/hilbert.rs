use vstd::prelude::*;
use vstd::arithmetic::div_mod::{
    lemma_breakdown, lemma_div_denominator, lemma_div_multiples_vanish_fancy,
    lemma_div_pos_is_pos, lemma_fundamental_div_mod, lemma_mod_division_less_than_divisor,
    lemma_mod_mod, lemma_mod_multiples_vanish, lemma_multiply_divide_lt, lemma_small_mod,
};

verus! {

/// 2 to the power l.
pub open spec fn hpow2(l: nat) -> int
    decreases l,
{
    if l == 0 {
        1
    } else {
        2 * hpow2((l - 1) as nat)
    }
}

/// 4 to the power l.
pub open spec fn pow4(l: nat) -> int
    decreases l,
{
    if l == 0 {
        1
    } else {
        4 * pow4((l - 1) as nat)
    }
}

pub proof fn lemma_hpow2_mono(a: nat, b: nat)
    requires
        a <= b,
    ensures
        hpow2(a) <= hpow2(b),
    decreases b,
{
    if a < b {
        lemma_hpow2_mono(a, (b - 1) as nat);
        lemma_pow_facts((b - 1) as nat);
    }
}

pub proof fn lemma_pow_facts(l: nat)
    ensures
        1 <= hpow2(l),
        1 <= pow4(l),
        hpow2(l) * hpow2(l) == pow4(l),
    decreases l,
{
    if l > 0 {
        lemma_pow_facts((l - 1) as nat);
        let s = hpow2((l - 1) as nat);
        assert((2 * s) * (2 * s) == 4 * (s * s)) by (nonlinear_arith);
    }
}

/// Grid position of curve index `index` on the Hilbert curve of the given
/// level: each level consumes two index bits as quadrant selectors (rx, ry)
/// and, when ry is 0, reflects and transposes the sub-curve (the standard
/// Hilbert rotation). Only the low 2 * level bits of the index matter.
pub open spec fn hilbert_xy(index: int, level: nat) -> (int, int)
    decreases level,
{
    if level == 0 {
        (0, 0)
    } else {
        let m = pow4((level - 1) as nat);
        let s = hpow2((level - 1) as nat);
        let sub = hilbert_xy(index % m, (level - 1) as nat);
        let x = sub.0;
        let y = sub.1;
        let rx = (index / m) % 2;
        let ry = (index / (2 * m)) % 2;
        let t = if ry == 0 {
            if rx == 1 {
                (s - 1 - y, s - 1 - x)
            } else {
                (y, x)
            }
        } else {
            (x, y)
        };
        (t.0 + rx * s, t.1 + ry * s)
    }
}

/// Curve index of grid position (x, y): the inverse traversal, recovering
/// each level's quadrant selectors from the coordinates and undoing the
/// rotation.
pub open spec fn hilbert_index(x: int, y: int, level: nat) -> int
    decreases level,
{
    if level == 0 {
        0
    } else {
        let m = pow4((level - 1) as nat);
        let s = hpow2((level - 1) as nat);
        let rx: int = if x >= s {
            1
        } else {
            0
        };
        let ry: int = if y >= s {
            1
        } else {
            0
        };
        let a = x - rx * s;
        let b = y - ry * s;
        let u = if ry == 0 {
            if rx == 1 {
                (s - 1 - b, s - 1 - a)
            } else {
                (b, a)
            }
        } else {
            (a, b)
        };
        hilbert_index(u.0, u.1, (level - 1) as nat) + (rx + 2 * ry) * m
    }
}

/// The curve never leaves the 2^level x 2^level grid.
pub proof fn lemma_hilbert_xy_range(index: int, level: nat)
    requires
        0 <= index,
    ensures
        0 <= hilbert_xy(index, level).0 < hpow2(level),
        0 <= hilbert_xy(index, level).1 < hpow2(level),
    decreases level,
{
    if level > 0 {
        let m = pow4((level - 1) as nat);
        let s = hpow2((level - 1) as nat);
        lemma_pow_facts((level - 1) as nat);
        lemma_mod_division_less_than_divisor(index, m);
        lemma_hilbert_xy_range(index % m, (level - 1) as nat);
        lemma_div_pos_is_pos(index, m);
        lemma_div_pos_is_pos(index, 2 * m);
        lemma_mod_division_less_than_divisor(index / m, 2);
        lemma_mod_division_less_than_divisor(index / (2 * m), 2);
        let rx = (index / m) % 2;
        let ry = (index / (2 * m)) % 2;
        assert(rx * s <= 1 * s && 0 <= rx * s) by (nonlinear_arith)
            requires
                0 <= rx <= 1,
                0 <= s,
        ;
        assert(ry * s <= 1 * s && 0 <= ry * s) by (nonlinear_arith)
            requires
                0 <= ry <= 1,
                0 <= s,
        ;
    }
}

/// Every curve index below 4^level is recovered from its grid position: the
/// indexer is injective on [0, 4^level).
pub proof fn lemma_hilbert_round_trip_1(index: int, level: nat)
    requires
        0 <= index < pow4(level),
    ensures
        hilbert_index(hilbert_xy(index, level).0, hilbert_xy(index, level).1, level) == index,
    decreases level,
{
    if level > 0 {
        let m = pow4((level - 1) as nat);
        let s = hpow2((level - 1) as nat);
        lemma_pow_facts((level - 1) as nat);
        let low = index % m;
        let q = index / m;
        lemma_mod_division_less_than_divisor(index, m);
        lemma_div_pos_is_pos(index, m);
        assert(index < m * 4 ==> q < 4) by {
            lemma_multiply_divide_lt(index, m, 4);
        }
        assert(m * 4 == 4 * m) by (nonlinear_arith);
        lemma_hilbert_round_trip_1(low, (level - 1) as nat);
        lemma_hilbert_xy_range(low, (level - 1) as nat);
        let sub = hilbert_xy(low, (level - 1) as nat);
        let rx = q % 2;
        lemma_div_denominator(index, m, 2);
        assert(m * 2 == 2 * m) by (nonlinear_arith);
        let ry = (index / (2 * m)) % 2;
        assert(index / (2 * m) == q / 2);
        lemma_small_mod((q / 2) as nat, 2);
        assert(ry == q / 2);
        lemma_fundamental_div_mod(q, 2);
        assert(q == 2 * (q / 2) + q % 2);
        lemma_fundamental_div_mod(index, m);
        let xx = hilbert_xy(index, level).0;
        let yy = hilbert_xy(index, level).1;
        assert(rx * s == if rx == 1 {
            s
        } else {
            0int
        }) by (nonlinear_arith)
            requires
                rx == 0 || rx == 1,
        ;
        assert(ry * s == if ry == 1 {
            s
        } else {
            0int
        }) by (nonlinear_arith)
            requires
                ry == 0 || ry == 1,
        ;
        assert((rx + 2 * ry) * m == q * m) by (nonlinear_arith)
            requires
                rx + 2 * ry == q,
        ;
        assert(q * m == m * q) by (nonlinear_arith);
    }
}

/// Every grid position on the 2^level square comes from exactly one curve
/// index below 4^level: the indexer is surjective onto the grid.
pub proof fn lemma_hilbert_round_trip_2(x: int, y: int, level: nat)
    requires
        0 <= x < hpow2(level),
        0 <= y < hpow2(level),
    ensures
        0 <= hilbert_index(x, y, level) < pow4(level),
        hilbert_xy(hilbert_index(x, y, level), level).0 == x,
        hilbert_xy(hilbert_index(x, y, level), level).1 == y,
    decreases level,
{
    if level == 0 {
    } else {
        let m = pow4((level - 1) as nat);
        let s = hpow2((level - 1) as nat);
        lemma_pow_facts((level - 1) as nat);
        let rx: int = if x >= s {
            1
        } else {
            0
        };
        let ry: int = if y >= s {
            1
        } else {
            0
        };
        let a = x - rx * s;
        let b = y - ry * s;
        assert(rx * s == if rx == 1 {
            s
        } else {
            0int
        }) by (nonlinear_arith)
            requires
                rx == 0 || rx == 1,
        ;
        assert(ry * s == if ry == 1 {
            s
        } else {
            0int
        }) by (nonlinear_arith)
            requires
                ry == 0 || ry == 1,
        ;
        assert(0 <= a < s && 0 <= b < s);
        let u = if ry == 0 {
            if rx == 1 {
                (s - 1 - b, s - 1 - a)
            } else {
                (b, a)
            }
        } else {
            (a, b)
        };
        lemma_hilbert_round_trip_2(u.0, u.1, (level - 1) as nat);
        let low = hilbert_index(u.0, u.1, (level - 1) as nat);
        let d = rx + 2 * ry;
        let idx = hilbert_index(x, y, level);
        assert(idx == low + d * m);
        assert(low + d * m < 4 * m && 0 <= low + d * m) by (nonlinear_arith)
            requires
                0 <= low < m,
                0 <= d <= 3,
        ;
        // peel the top base-4 digit of idx back off
        assert(m * d + low == idx) by (nonlinear_arith)
            requires
                idx == low + d * m,
        ;
        lemma_mod_multiples_vanish(d, low, m);
        lemma_small_mod(low as nat, m as nat);
        assert(idx % m == low);
        lemma_div_multiples_vanish_fancy(d, low, m);
        assert(idx / m == d);
        lemma_div_denominator(idx, m, 2);
        assert(m * 2 == 2 * m) by (nonlinear_arith);
        assert(idx / (2 * m) == d / 2);
        assert(2 * ry + rx == d);
        lemma_div_multiples_vanish_fancy(ry, rx, 2);
        assert(d / 2 == ry);
        lemma_small_mod(ry as nat, 2);
        lemma_mod_multiples_vanish(ry, rx, 2);
        lemma_small_mod(rx as nat, 2);
        assert((idx / m) % 2 == rx);
        assert((idx / (2 * m)) % 2 == ry);
    }
}

/// Only the low 2 * level bits of the index influence the curve position.
pub proof fn lemma_hilbert_xy_mod(index: int, level: nat)
    requires
        0 <= index,
    ensures
        hilbert_xy(index, level) == hilbert_xy(index % pow4(level), level),
    decreases level,
{
    if level > 0 {
        let m = pow4((level - 1) as nat);
        let mm = pow4(level);
        lemma_pow_facts((level - 1) as nat);
        lemma_pow_facts(level);
        assert(mm == 4 * m);
        let red = index % mm;
        lemma_mod_division_less_than_divisor(index, mm);
        // the recursive argument is unchanged by the reduction
        lemma_mod_mod(index, m, 4);
        assert(m * 4 == 4 * m) by (nonlinear_arith);
        // rx agrees: (red / m) % 2 == (index / m) % 2
        lemma_breakdown(index, m, 4);
        lemma_mod_division_less_than_divisor(index, m);
        lemma_mod_division_less_than_divisor(index / m, 4);
        lemma_div_multiples_vanish_fancy((index / m) % 4, index % m, m);
        assert(red / m == (index / m) % 4);
        lemma_div_pos_is_pos(index, m);
        lemma_mod_mod(index / m, 2, 2);
        assert(2 * 2 == 4);
        assert(((index / m) % 4) % 2 == (index / m) % 2);
        // ry agrees: (red / (2m)) % 2 == (index / (2m)) % 2
        lemma_breakdown(index, 2 * m, 2);
        assert((2 * m) * 2 == 4 * m) by (nonlinear_arith);
        lemma_mod_division_less_than_divisor(index, 2 * m);
        lemma_mod_division_less_than_divisor(index / (2 * m), 2);
        lemma_div_multiples_vanish_fancy((index / (2 * m)) % 2, index % (2 * m), 2 * m);
        assert(red / (2 * m) == (index / (2 * m)) % 2);
        lemma_div_pos_is_pos(index, 2 * m);
        lemma_small_mod(((index / (2 * m)) % 2) as nat, 2);
    }
}

/// Maps a curve index to grid coordinates by iterative extraction of two
/// index bits per level, with the standard Hilbert reflect-and-swap
/// rotation whenever the upper bit is clear.
pub fn hilbert_index_to_xy(index: u64, level: usize) -> (r: (u32, u32))
    requires
        level <= 30,
    ensures
        r.0 as int == hilbert_xy(index as int, level as nat).0,
        r.1 as int == hilbert_xy(index as int, level as nat).1,
        r.0 < hpow2(level as nat),
        r.1 < hpow2(level as nat),
{
    proof {
        lemma_hilbert_xy_range(index as int, level as nat);
    }
    let mut x: u64 = 0;
    let mut y: u64 = 0;
    let mut s: u64 = 1;
    let mut rem: u64 = index;
    let mut i: usize = 0;
    #[verifier::loop_isolation(false)]
    while i < level
        invariant
            i <= level,
            s == hpow2(i as nat),
            s <= 0x4000_0000,
            rem as int == index as int / pow4(i as nat),
            x == hilbert_xy(index as int, i as nat).0,
            y == hilbert_xy(index as int, i as nat).1,
            x < s,
            y < s,
        decreases level - i,
    {
        proof {
            lemma_pow_facts(i as nat);
            lemma_pow_facts((i + 1) as nat);
            lemma_hilbert_xy_range(index as int, (i + 1) as nat);
            lemma_hilbert_xy_mod(index as int, i as nat);
            let m = pow4(i as nat);
            // the bits the spec reads at level i + 1, in terms of rem
            lemma_div_pos_is_pos(index as int, m);
            lemma_div_denominator(index as int, m, 2);
            lemma_div_denominator(index as int, m, 4);
            assert(m * 2 == 2 * m && m * 4 == 4 * m) by (nonlinear_arith);
            assert(pow4((i + 1) as nat) == 4 * m);
            // the doubled side still fits: 2^(i+1) <= 2^30
            lemma_hpow2_mono((i + 1) as nat, 30);
            assert(hpow2(30) == 0x4000_0000) by {
                reveal_with_fuel(hpow2, 32);
            }
        }
        let rx: u64 = rem % 2;
        let ry: u64 = (rem / 2) % 2;
        if ry == 0 {
            if rx == 1 {
                x = s - 1 - x;
                y = s - 1 - y;
            }
            let tmp = x;
            x = y;
            y = tmp;
        }
        x = x + rx * s;
        y = y + ry * s;
        rem = rem / 4;
        s = s * 2;
        i = i + 1;
    }
    (x as u32, y as u32)
}

} // verus!
