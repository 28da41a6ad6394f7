//! Fixed-point reals: an `i64` counts units of `2^-32`.
use vstd::prelude::*;

verus! {

/// The fixed-point value of 1.
pub const ONE: i64 = 4294967296;

/// Largest magnitude of either part of a point handed to a fractal rule (2^21).
pub const POINT_LIMIT: i64 = 0x20_0000_0000_0000;

/// Largest escape radius that a fractal rule accepts (2^20).
pub const RADIUS_LIMIT: i64 = 0x10_0000_0000_0000;

/// A point of the complex plane, both parts in fixed-point units.
#[derive(Clone, Copy, Debug, PartialEq, Eq, Structural)]
pub struct Complex {
    pub re: i64,
    pub im: i64,
}

/// Division of `a` by `d > 0` rounded toward zero.
pub open spec fn trunc_div(a: int, d: int) -> int {
    if a >= 0 {
        a / d
    } else {
        -((-a) / d)
    }
}

/// Fixed-point product, rounded toward zero.
pub open spec fn fx_mul(a: int, b: int) -> int {
    trunc_div(a * b, ONE as int)
}

pub open spec fn abs(a: int) -> int {
    if a < 0 {
        -a
    } else {
        a
    }
}

pub proof fn lemma_trunc_div_bound(a: int, d: int, k: int)
    requires
        d > 0,
        k >= 0,
        abs(a) <= k * d,
    ensures
        abs(trunc_div(a, d)) <= k,
{
    if a >= 0 {
        assert(a / d <= (k * d) / d) by {
            vstd::arithmetic::div_mod::lemma_div_is_ordered(a, k * d, d);
        }
        vstd::arithmetic::div_mod::lemma_div_by_multiple(k, d);
        vstd::arithmetic::div_mod::lemma_div_pos_is_pos(a, d);
    } else {
        assert((-a) / d <= (k * d) / d) by {
            vstd::arithmetic::div_mod::lemma_div_is_ordered(-a, k * d, d);
        }
        vstd::arithmetic::div_mod::lemma_div_by_multiple(k, d);
        vstd::arithmetic::div_mod::lemma_div_pos_is_pos(-a, d);
    }
}

/// Fixed-point square of `a`; never negative.
pub proof fn lemma_square_facts(a: int)
    ensures
        a * a >= 0,
        abs(a) * abs(a) == a * a,
        fx_mul(a, a) == (a * a) / (ONE as int),
        fx_mul(a, a) >= 0,
        a * a < (fx_mul(a, a) + 1) * (ONE as int),
{
    assert(a * a >= 0) by (nonlinear_arith);
    assert(abs(a) * abs(a) == a * a) by (nonlinear_arith);
    vstd::arithmetic::div_mod::lemma_div_pos_is_pos(a * a, ONE as int);
    vstd::arithmetic::div_mod::lemma_fundamental_div_mod(a * a, ONE as int);
}

/// A fixed-point square is at most the plain square of a bound on its argument.
pub proof fn lemma_square_bounded(a: int, k: int)
    requires
        abs(a) <= k,
    ensures
        0 <= fx_mul(a, a) <= k * k,
{
    lemma_square_facts(a);
    let q = (a * a) / (ONE as int);
    vstd::arithmetic::div_mod::lemma_fundamental_div_mod(a * a, ONE as int);
    vstd::arithmetic::div_mod::lemma_mod_pos_bound(a * a, ONE as int);
    assert(q <= k * k) by (nonlinear_arith)
        requires
            a * a == (ONE as int) * q + (a * a) % (ONE as int),
            (a * a) % (ONE as int) >= 0,
            q >= 0,
            abs(a) <= k,
            ONE as int > 1,
    ;
}

/// Fixed-point product of two wide values.
pub fn fx_product(a: i128, b: i128) -> (r: i128)
    requires
        abs(a as int) <= 0x8000_0000_0000_0000,
        abs(b as int) <= 0x8000_0000_0000_0000,
    ensures
        r as int == fx_mul(a as int, b as int),
{
    assert(abs(a * b) <= 0x8000_0000_0000_0000 * 0x8000_0000_0000_0000) by (nonlinear_arith)
        requires
            abs(a as int) <= 0x8000_0000_0000_0000,
            abs(b as int) <= 0x8000_0000_0000_0000,
    ;
    let p = a * b;
    if p >= 0 {
        p / (ONE as i128)
    } else {
        proof {
            vstd::arithmetic::div_mod::lemma_div_pos_is_pos(-p as int, ONE as int);
        }
        -((-p) / (ONE as i128))
    }
}

/// Rounding toward zero loses less than one unit.
pub proof fn lemma_trunc_div_error(a: int, d: int)
    requires
        d > 0,
    ensures
        abs(a - d * trunc_div(a, d)) < d,
{
    if a >= 0 {
        vstd::arithmetic::div_mod::lemma_fundamental_div_mod(a, d);
        vstd::arithmetic::div_mod::lemma_mod_pos_bound(a, d);
    } else {
        vstd::arithmetic::div_mod::lemma_fundamental_div_mod(-a, d);
        vstd::arithmetic::div_mod::lemma_mod_pos_bound(-a, d);
        let q = (-a) / d;
        assert(d * (-q) == -(d * q)) by (nonlinear_arith);
    }
}

/// Fixed-point products by one factor add up to the product of the sum to within
/// two units, and exactly when that factor is a whole number.
pub proof fn lemma_fx_mul_add(a: int, b: int, z: int)
    ensures
        abs(fx_mul(a, z) + fx_mul(b, z) - fx_mul(a + b, z)) <= 2,
        z % (ONE as int) == 0 ==> fx_mul(a, z) + fx_mul(b, z) == fx_mul(a + b, z),
{
    let o = ONE as int;
    lemma_trunc_div_error(a * z, o);
    lemma_trunc_div_error(b * z, o);
    lemma_trunc_div_error((a + b) * z, o);
    let d = fx_mul(a, z) + fx_mul(b, z) - fx_mul(a + b, z);
    assert((a + b) * z == a * z + b * z) by (nonlinear_arith);
    assert(abs(d) <= 2) by (nonlinear_arith)
        requires
            abs(a * z - o * fx_mul(a, z)) < o,
            abs(b * z - o * fx_mul(b, z)) < o,
            abs((a + b) * z - o * fx_mul(a + b, z)) < o,
            (a + b) * z == a * z + b * z,
            d == fx_mul(a, z) + fx_mul(b, z) - fx_mul(a + b, z),
            o > 0;
    if z % o == 0 {
        let q = z / o;
        vstd::arithmetic::div_mod::lemma_fundamental_div_mod(z, o);
        lemma_whole_product(a, q);
        lemma_whole_product(b, q);
        lemma_whole_product(a + b, q);
        assert(a * z == (a * q) * o && b * z == (b * q) * o && (a + b) * z == ((a + b) * q) * o) by (nonlinear_arith)
            requires z == o * q;
        assert((a + b) * q == a * q + b * q) by (nonlinear_arith);
    }
}

proof fn lemma_whole_product(a: int, q: int)
    ensures
        trunc_div((a * q) * (ONE as int), ONE as int) == a * q,
{
    let o = ONE as int;
    let m = a * q;
    if m * o >= 0 {
        assert(m >= 0) by (nonlinear_arith) requires m * o >= 0, o > 0;
        vstd::arithmetic::div_mod::lemma_div_by_multiple(m, o);
    } else {
        assert(-(m * o) == (-m) * o) by (nonlinear_arith);
        assert(-m >= 0) by (nonlinear_arith) requires m * o < 0, o > 0;
        vstd::arithmetic::div_mod::lemma_div_by_multiple(-m, o);
    }
}

} // verus!
