//! Iteration count to colour: black inside, smooth hue bands outside.
use vstd::prelude::*;
use crate::fixed::{abs, fx_mul, fx_product, Complex, ONE};
use crate::fractals::{sq_mag, ORBIT_LIMIT};
use vstd::arithmetic::power2::pow2;

verus! {

/// An opaque pixel: red, green, blue and alpha.
#[derive(Clone, Copy, Debug, PartialEq, Eq, Structural)]
pub struct Rgba {
    pub r: u8,
    pub g: u8,
    pub b: u8,
    pub a: u8,
}

/// Number of fraction bits that [`log2_fixed`] computes.
pub const LOG_BITS: u32 = 32;

/// A full turn of hue, in fixed-point degrees.
pub const HUE_TURN: i128 = 1546188226560;

/// Halves `m` until it lies below 2; gives the mantissa in `[1, 2)` and the
/// number of halvings (the integer part of the base-2 logarithm).
pub open spec fn normalize(m: int) -> (int, nat)
    decreases m,
{
    if m < 2 * ONE {
        (m, 0)
    } else {
        let p = normalize(m / 2);
        (p.0, p.1 + 1)
    }
}

/// Fraction bits of `log2(x)` for `x` in `[1, 2)`, most significant first: squaring
/// doubles the logarithm, and a square of 2 or more shows a 1 bit.
pub open spec fn log_bits(x: int, k: nat, acc: int) -> int
    decreases k,
{
    if k == 0 {
        acc
    } else {
        let y = fx_mul(x, x);
        if y >= 2 * ONE {
            log_bits(y / 2, (k - 1) as nat, 2 * acc + 1)
        } else {
            log_bits(y, (k - 1) as nat, 2 * acc)
        }
    }
}

/// Base-2 logarithm of a fixed-point value `m >= 1`, with `LOG_BITS` fraction bits
/// (each rounded down).
pub open spec fn log2_fixed(m: int) -> int {
    let n = normalize(m);
    n.1 * ONE + log_bits(n.0, LOG_BITS as nat, 0)
}

/// Smooth iteration value `iter + 1 - log2(max(|z|, 1))`, in fixed point.
pub open spec fn smooth_value(iter: int, zr: int, zi: int) -> int {
    let m = sq_mag(zr, zi);
    let m1 = if m < ONE { ONE as int } else { m };
    (iter + 1) * ONE - log2_fixed(m1) / 2
}

/// Hue in fixed-point degrees: `360 * smooth / max_iterations` taken modulo 360.
pub open spec fn hue_of(smooth: int, max_iterations: int) -> int {
    ((360 * smooth) / max_iterations) % (HUE_TURN as int)
}

/// A channel for a component `t` in `[0, 1]` of chroma 0.72 over a floor of 0.18,
/// scaled to 255 and truncated.
pub open spec fn channel_of(t: int) -> int {
    ((72 * t + 18 * ONE) * 255) / (100 * ONE)
}

/// Saturation 0.8 and value 0.9 at hue `hue`: the sector `floor(hue / 60)` picks
/// which channel is full, which is the rising or falling one, and which is empty.
pub open spec fn hsv_spec(hue: int) -> (int, int, int) {
    let hh = hue / 60;
    let sector = hh / (ONE as int);
    let t = ONE - abs(hh % (2 * ONE) - ONE);
    let hi = channel_of(ONE as int);
    let mid = channel_of(t);
    let lo = channel_of(0);
    if sector == 0 {
        (hi, mid, lo)
    } else if sector == 1 {
        (mid, hi, lo)
    } else if sector == 2 {
        (lo, hi, mid)
    } else if sector == 3 {
        (lo, mid, hi)
    } else if sector == 4 {
        (mid, lo, hi)
    } else if sector == 5 {
        (hi, lo, mid)
    } else {
        (lo, lo, lo)
    }
}

/// The colour of a pixel whose iteration took `iter` steps and stopped at `(zr, zi)`.
pub open spec fn color_spec(iter: int, max_iterations: int, zr: int, zi: int) -> Rgba {
    if iter == max_iterations {
        Rgba { r: 0, g: 0, b: 0, a: 255 }
    } else {
        let rgb = hsv_spec(hue_of(smooth_value(iter, zr, zi), max_iterations));
        Rgba { r: rgb.0 as u8, g: rgb.1 as u8, b: rgb.2 as u8, a: 255 }
    }
}

proof fn lemma_pow2_exceeds(n: nat)
    ensures
        pow2(n) >= n + 1,
    decreases n,
{
    if n > 0 {
        lemma_pow2_exceeds((n - 1) as nat);
        vstd::arithmetic::power2::lemma_pow2_unfold(n);
    } else {
        vstd::arithmetic::power2::lemma_pow2(0);
        vstd::arithmetic::power::lemma_pow0(2);
    }
}

proof fn lemma_normalize_facts(m: int)
    requires
        m >= ONE,
    ensures
        ONE <= normalize(m).0 < 2 * ONE,
        normalize(m).1 <= m,
    decreases m,
{
    if m >= 2 * ONE {
        lemma_normalize_facts(m / 2);
    }
}

/// Squaring a mantissa in `[1, 2)` gives a value in `[1, 4)`.
proof fn lemma_square_mantissa(x: int)
    requires
        ONE <= x < 2 * ONE,
    ensures
        ONE <= fx_mul(x, x) < 4 * ONE,
{
    let o = ONE as int;
    crate::fixed::lemma_square_facts(x);
    assert(o * o <= x * x < 4 * o * o) by (nonlinear_arith)
        requires o <= x < 2 * o, o > 0;
    vstd::arithmetic::div_mod::lemma_div_is_ordered(o * o, x * x, o);
    vstd::arithmetic::div_mod::lemma_div_by_multiple(o, o);
    vstd::arithmetic::div_mod::lemma_div_by_multiple(4 * o, o);
    assert(4 * o * o == (4 * o) * o) by (nonlinear_arith);
    vstd::arithmetic::div_mod::lemma_div_is_ordered(x * x, 4 * o * o - 1, o);
    vstd::arithmetic::div_mod::lemma_fundamental_div_mod(4 * o * o - 1, o);
    vstd::arithmetic::div_mod::lemma_mod_pos_bound(4 * o * o - 1, o);
    assert((4 * o * o - 1) / o < 4 * o) by (nonlinear_arith)
        requires
            4 * o * o - 1 == o * ((4 * o * o - 1) / o) + (4 * o * o - 1) % o,
            0 <= (4 * o * o - 1) % o,
            o > 0;
}

/// Base-2 logarithm of a fixed-point value of at least 1, with `LOG_BITS` fraction bits.
pub fn log2_fixed_exec(m: i128) -> (r: i128)
    requires
        ONE <= m,
    ensures
        r as int == log2_fixed(m as int),
        0 <= r <= m,
{
    let ghost m0 = m as int;
    let mut x: i128 = m;
    let mut e: i128 = 0;
    let mut scale: i128 = 1;
    proof {
        lemma_normalize_facts(m0);
        vstd::arithmetic::power2::lemma2_to64();
    }
    while x >= 2 * (ONE as i128)
        invariant
            ONE <= x <= m,
            0 <= e,
            scale == pow2(e as nat),
            (x as int) * (scale as int) <= m,
            normalize(m0) == (normalize(x as int).0, (normalize(x as int).1 + e) as nat),
        decreases x,
    {
        proof {
            vstd::arithmetic::power2::lemma_pow2_unfold((e + 1) as nat);
            vstd::arithmetic::power2::lemma_pow2_pos(e as nat);
            lemma_pow2_exceeds(e as nat);
        }
        assert(((x / 2) as int) * (2 * scale as int) <= m) by (nonlinear_arith)
            requires
                (x as int) * (scale as int) <= m,
                scale >= 1,
                x >= 0;
        assert(2 * scale <= m) by (nonlinear_arith)
            requires
                ((x / 2) as int) * (2 * scale as int) <= m,
                x / 2 >= 1,
                scale >= 1;
        x = x / 2;
        e = e + 1;
        scale = 2 * scale;
    }
    proof {
        lemma_pow2_exceeds(e as nat);
        assert((e as int) * ONE + ONE <= m) by (nonlinear_arith)
            requires
                (x as int) * (scale as int) <= m,
                x >= ONE,
                scale >= e + 1,
                e >= 0;
    }
    let ghost mant = x as int;
    let mut acc: i128 = 0;
    let mut lim: i128 = 1;
    let mut k: u32 = 0;
    proof {
        vstd::arithmetic::power2::lemma2_to64();
    }
    while k < LOG_BITS
        invariant
            k <= LOG_BITS,
            ONE <= x < 2 * ONE,
            0 <= acc < lim,
            lim == pow2(k as nat),
            log_bits(mant, LOG_BITS as nat, 0) == log_bits(x as int, (LOG_BITS - k) as nat, acc as int),
        decreases LOG_BITS - k,
    {
        proof {
            lemma_square_mantissa(x as int);
            vstd::arithmetic::power2::lemma_pow2_unfold((k + 1) as nat);
            vstd::arithmetic::power2::lemma_pow2_strictly_increases(k as nat, LOG_BITS as nat);
            vstd::arithmetic::power2::lemma2_to64();
        }
        let y = fx_product(x, x);
        if y >= 2 * (ONE as i128) {
            acc = 2 * acc + 1;
            x = y / 2;
        } else {
            acc = 2 * acc;
            x = y;
        }
        lim = 2 * lim;
        k = k + 1;
    }
    e * (ONE as i128) + acc
}

/// `a / d` rounded toward minus infinity.
fn floor_div(a: i128, d: i128) -> (r: i128)
    requires
        d > 0,
        abs(a as int) <= 0x1000_0000_0000_0000_0000_0000_0000_0000,
    ensures
        r as int == (a as int) / (d as int),
        abs(r as int) <= abs(a as int),
{
    if a >= 0 {
        proof {
            vstd::arithmetic::div_mod::lemma_fundamental_div_mod(a as int, d as int);
            vstd::arithmetic::div_mod::lemma_mod_pos_bound(a as int, d as int);
            vstd::arithmetic::div_mod::lemma_div_pos_is_pos(a as int, d as int);
            assert((a as int) / (d as int) <= a as int) by (nonlinear_arith)
                requires
                    a as int == (d as int) * ((a as int) / (d as int)) + (a as int) % (d as int),
                    (a as int) % (d as int) >= 0,
                    (a as int) / (d as int) >= 0,
                    d >= 1;
        }
        a / d
    } else {
        let q = (-a - 1) / d;
        proof {
            let n = -a - 1;
            vstd::arithmetic::div_mod::lemma_fundamental_div_mod(n as int, d as int);
            vstd::arithmetic::div_mod::lemma_mod_pos_bound(n as int, d as int);
            vstd::arithmetic::div_mod::lemma_div_pos_is_pos(n as int, d as int);
            let rr = (n as int) % (d as int);
            assert(a as int == (d as int) * (-(q as int) - 1) + (d - rr - 1)) by (nonlinear_arith)
                requires n == -a - 1, n as int == (d as int) * (q as int) + rr;
            vstd::arithmetic::div_mod::lemma_fundamental_div_mod_converse(a as int, d as int, -(q as int) - 1, d - rr - 1);
            assert(q as int <= n as int) by (nonlinear_arith)
                requires n as int == (d as int) * (q as int) + rr, d >= 1, q >= 0, rr >= 0;
        }
        -q - 1
    }
}

/// The channels of saturation 0.8 and value 0.9 at hue `hue` (fixed-point degrees).
/// A hue of 360 or more falls past the six sectors and gives the floor on every channel.
pub fn hsv_to_rgb(hue: i128) -> (r: (u8, u8, u8))
    requires
        0 <= hue,
    ensures
        (r.0 as int, r.1 as int, r.2 as int) == hsv_spec(hue as int),
{
    let o = ONE as i128;
    let hh = hue / 60;
    let sector = hh / o;
    let w = hh % (2 * o) - o;
    let t = if w < 0 { o + w } else { o - w };
    let hi = channel(o);
    let mid = channel(t);
    let lo = channel(0);
    if sector == 0 {
        (hi, mid, lo)
    } else if sector == 1 {
        (mid, hi, lo)
    } else if sector == 2 {
        (lo, hi, mid)
    } else if sector == 3 {
        (lo, mid, hi)
    } else if sector == 4 {
        (mid, lo, hi)
    } else if sector == 5 {
        (hi, lo, mid)
    } else {
        (lo, lo, lo)
    }
}

fn channel(t: i128) -> (r: u8)
    requires
        0 <= t <= ONE,
    ensures
        r as int == channel_of(t as int),
{
    let num = (72 * t + 18 * (ONE as i128)) * 255;
    let den = 100 * (ONE as i128);
    assert(num / den <= 255) by {
        vstd::arithmetic::div_mod::lemma_div_is_ordered(num as int, 255 * den as int, den as int);
        vstd::arithmetic::div_mod::lemma_div_by_multiple(255, den as int);
    }
    proof {
        vstd::arithmetic::div_mod::lemma_div_pos_is_pos(num as int, den as int);
    }
    (num / den) as u8
}

/// The colour of a pixel whose iteration took `iter` of `max_iterations` steps and
/// stopped at `z`: opaque black when it never escaped, else a hue from the smooth
/// iteration value at saturation 0.8 and value 0.9.
pub fn color_for(iter: u32, max_iterations: u32, z: Complex) -> (r: Rgba)
    requires
        iter <= max_iterations,
        abs(z.re as int) <= ORBIT_LIMIT,
        abs(z.im as int) <= ORBIT_LIMIT,
    ensures
        r == color_spec(iter as int, max_iterations as int, z.re as int, z.im as int),
        iter == max_iterations ==> r == (Rgba { r: 0, g: 0, b: 0, a: 255 }),
        r.a == 255,
{
    if iter == max_iterations {
        return Rgba { r: 0, g: 0, b: 0, a: 255 };
    }
    let zr = z.re as i128;
    let zi = z.im as i128;
    proof {
        crate::fixed::lemma_square_bounded(zr as int, ORBIT_LIMIT as int);
        crate::fixed::lemma_square_bounded(zi as int, ORBIT_LIMIT as int);
    }
    let m = fx_product(zr, zr) + fx_product(zi, zi);
    assert(ORBIT_LIMIT * ORBIT_LIMIT == 0x1_0000_0000_0000_0000_0000_0000_0000);
    let m1 = if m < ONE as i128 { ONE as i128 } else { m };
    let l = log2_fixed_exec(m1);
    let smooth = (iter as i128 + 1) * (ONE as i128) - l / 2;
    let q = floor_div(360 * smooth, max_iterations as i128);
    let turns = floor_div(q, HUE_TURN);
    let hue = q - turns * HUE_TURN;
    proof {
        vstd::arithmetic::div_mod::lemma_fundamental_div_mod(q as int, HUE_TURN as int);
    }
    let rgb = hsv_to_rgb(hue);
    Rgba { r: rgb.0, g: rgb.1, b: rgb.2, a: 255 }
}

} // verus!
