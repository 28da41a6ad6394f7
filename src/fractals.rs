//! The iteration rules: three escape-time recurrences and the carpet's digit test.
use vstd::prelude::*;
use crate::fixed::{abs, fx_mul, fx_product, Complex, ONE, POINT_LIMIT, RADIUS_LIMIT};

verus! {

/// Bound on both parts of every orbit point that the escape-time rules visit (2^24).
pub const ORBIT_LIMIT: i64 = 0x100_0000_0000_0000;

/// Squared magnitude of `zr + i zi`, each square rounded as a fixed-point product.
pub open spec fn sq_mag(zr: int, zi: int) -> int {
    fx_mul(zr, zr) + fx_mul(zi, zi)
}

/// One step `z <- z^2 + c`; for the burning ship both parts of `z` lose their sign first.
pub open spec fn escape_step(ship: bool, zr: int, zi: int, cr: int, ci: int) -> (int, int) {
    let a = if ship { abs(zr) } else { zr };
    let b = if ship { abs(zi) } else { zi };
    (fx_mul(a, a) - fx_mul(b, b) + cr, fx_mul(2 * a, b) + ci)
}

/// Iterates from `z` while fewer than `budget` steps were taken and `|z|^2 <= radius`.
/// Gives the number of steps and the point where the iteration stopped.
pub open spec fn orbit(ship: bool, zr: int, zi: int, cr: int, ci: int, budget: nat, radius: int) -> (nat, int, int)
    decreases budget,
{
    if budget == 0 || sq_mag(zr, zi) > radius {
        (0, zr, zi)
    } else {
        let next = escape_step(ship, zr, zi, cr, ci);
        let rest = orbit(ship, next.0, next.1, cr, ci, (budget - 1) as nat, radius);
        (rest.0 + 1, rest.1, rest.2)
    }
}

pub open spec fn pow3(k: nat) -> int
    decreases k,
{
    if k == 0 { 1 } else { 3 * pow3((k - 1) as nat) }
}

/// The base-3 digit that step `k` of the carpet test reads from `x`:
/// the integer part of `x * 3^(k+1)`, modulo 3 (0 for a negative `x`).
pub open spec fn carpet_digit(x: int, k: nat) -> int {
    if x < 0 { 0 } else { (x * pow3(k + 1) / (ONE as int)) % 3 }
}

pub open spec fn carpet_hit(x: int, y: int, k: nat) -> bool {
    carpet_digit(x, k) == 1 && carpet_digit(y, k) == 1
}

/// The first step `k` in `[from, budget)` whose digits are both 1, else `budget`.
pub open spec fn carpet_from(x: int, y: int, from: nat, budget: nat) -> nat
    decreases budget - from,
{
    if from >= budget {
        budget
    } else if carpet_hit(x, y, from) {
        from
    } else {
        carpet_from(x, y, from + 1, budget)
    }
}

pub open spec fn point_ok(c: Complex) -> bool {
    abs(c.re as int) <= POINT_LIMIT && abs(c.im as int) <= POINT_LIMIT
}

/// A step from a point that has not escaped stays within the orbit bound.
proof fn lemma_step_bounded(ship: bool, zr: int, zi: int, cr: int, ci: int, radius: int)
    requires
        sq_mag(zr, zi) <= radius,
        radius <= RADIUS_LIMIT,
        abs(cr) <= POINT_LIMIT,
        abs(ci) <= POINT_LIMIT,
    ensures
        abs(escape_step(ship, zr, zi, cr, ci).0) <= ORBIT_LIMIT,
        abs(escape_step(ship, zr, zi, cr, ci).1) <= ORBIT_LIMIT,
{
    let a = if ship { abs(zr) } else { zr };
    let b = if ship { abs(zi) } else { zi };
    crate::fixed::lemma_square_facts(zr);
    crate::fixed::lemma_square_facts(zi);
    crate::fixed::lemma_square_facts(a);
    crate::fixed::lemma_square_facts(b);
    assert(a * a == zr * zr && b * b == zi * zi);
    let sa = fx_mul(a, a);
    let sb = fx_mul(b, b);
    let o = ONE as int;
    assert(abs(2 * a * b) <= a * a + b * b) by (nonlinear_arith);
    assert(a * a + b * b <= (radius + 2) * o) by (nonlinear_arith)
        requires
            a * a < (sa + 1) * o,
            b * b < (sb + 1) * o,
            sa + sb <= radius,
            o > 0,
    ;
    assert((2 * a) * b == 2 * a * b) by (nonlinear_arith);
    crate::fixed::lemma_trunc_div_bound((2 * a) * b, o, radius + 2);
}

/// Runs the escape-time recurrence from `(zr, zi)` with the constant `(cr, ci)`.
fn run_orbit(ship: bool, z0: Complex, c: Complex, max_iterations: u32, escape_radius: i64) -> (r: (u32, Complex))
    requires
        point_ok(z0),
        point_ok(c),
        escape_radius <= RADIUS_LIMIT,
    ensures
        ({
            let o = orbit(ship, z0.re as int, z0.im as int, c.re as int, c.im as int, max_iterations as nat, escape_radius as int);
            r.0 as nat == o.0 && r.1.re as int == o.1 && r.1.im as int == o.2
        }),
        r.0 <= max_iterations,
        abs(r.1.re as int) <= ORBIT_LIMIT,
        abs(r.1.im as int) <= ORBIT_LIMIT,
{
    let ghost whole = orbit(ship, z0.re as int, z0.im as int, c.re as int, c.im as int, max_iterations as nat, escape_radius as int);
    let mut zr: i128 = z0.re as i128;
    let mut zi: i128 = z0.im as i128;
    let mut iter: u32 = 0;
    loop
        invariant
            iter <= max_iterations,
            abs(zr as int) <= ORBIT_LIMIT,
            abs(zi as int) <= ORBIT_LIMIT,
            point_ok(c),
            escape_radius <= RADIUS_LIMIT,
            whole == ({
                let rest = orbit(ship, zr as int, zi as int, c.re as int, c.im as int, (max_iterations - iter) as nat, escape_radius as int);
                ((rest.0 + iter) as nat, rest.1, rest.2)
            }),
        ensures
            whole == (iter as nat, zr as int, zi as int),
            abs(zr as int) <= ORBIT_LIMIT,
            abs(zi as int) <= ORBIT_LIMIT,
            iter <= max_iterations,
        decreases max_iterations - iter,
    {
        let re2 = fx_product(zr, zr);
        let im2 = fx_product(zi, zi);
        proof {
            crate::fixed::lemma_square_bounded(zr as int, ORBIT_LIMIT as int);
            crate::fixed::lemma_square_bounded(zi as int, ORBIT_LIMIT as int);
        }
        if iter >= max_iterations || re2 + im2 > escape_radius as i128 {
            break;
        }
        proof {
            lemma_step_bounded(ship, zr as int, zi as int, c.re as int, c.im as int, escape_radius as int);
        }
        let a: i128 = if ship && zr < 0 { -zr } else { zr };
        let b: i128 = if ship && zi < 0 { -zi } else { zi };
        proof {
            crate::fixed::lemma_square_facts(zr as int);
            crate::fixed::lemma_square_facts(zi as int);
            crate::fixed::lemma_square_facts(a as int);
            crate::fixed::lemma_square_facts(b as int);
            assert(abs(zr as int) * abs(zr as int) == zr * zr);
            assert(abs(zi as int) * abs(zi as int) == zi * zi);
        }
        let ab = fx_product(2 * a, b);
        zr = re2 - im2 + c.re as i128;
        zi = ab + c.im as i128;
        iter = iter + 1;
    }
    (iter, Complex { re: zr as i64, im: zi as i64 })
}

/// Runs the carpet's digit test on `c`.
fn run_carpet(c: Complex, max_iterations: u32) -> (r: u32)
    ensures
        r as nat == carpet_from(c.re as int, c.im as int, 0, max_iterations as nat),
{
    let o: i128 = ONE as i128;
    let mut x: i128 = if c.re < 0 { 0 } else { c.re as i128 % (3 * o) };
    let mut y: i128 = if c.im < 0 { 0 } else { c.im as i128 % (3 * o) };
    assert(pow3(0) == 1);
    let mut iter: u32 = 0;
    while iter < max_iterations
        invariant
            iter <= max_iterations,
            o == ONE,
            0 <= x < 3 * ONE,
            0 <= y < 3 * ONE,
            c.re >= 0 ==> x as int == (c.re as int * pow3(iter as nat)) % (3 * ONE as int),
            c.im >= 0 ==> y as int == (c.im as int * pow3(iter as nat)) % (3 * ONE as int),
            carpet_from(c.re as int, c.im as int, 0, max_iterations as nat)
                == carpet_from(c.re as int, c.im as int, iter as nat, max_iterations as nat),
        decreases max_iterations - iter,
    {
        let x3 = 3 * x;
        let y3 = 3 * y;
        let dx = if c.re < 0 { 0 } else { (x3 / o) % 3 };
        let dy = if c.im < 0 { 0 } else { (y3 / o) % 3 };
        proof {
            lemma_carpet_digit(c.re as int, iter as nat, x as int);
            lemma_carpet_digit(c.im as int, iter as nat, y as int);
        }
        if dx == 1 && dy == 1 {
            return iter;
        }
        x = x3 % (3 * o);
        y = y3 % (3 * o);
        iter = iter + 1;
    }
    iter
}

/// Reading a digit from the reduced remainder gives the digit of the whole value.
proof fn lemma_carpet_digit(v: int, k: nat, t: int)
    requires
        v >= 0 ==> t == (v * pow3(k)) % (3 * ONE as int),
    ensures
        v >= 0 ==> carpet_digit(v, k) == ((3 * t) / (ONE as int)) % 3,
        v >= 0 ==> (3 * t) % (3 * ONE as int) == (v * pow3(k + 1)) % (3 * ONE as int),
{
    if v >= 0 {
        let o = ONE as int;
        let big = v * pow3(k);
        let q = big / (3 * o);
        vstd::arithmetic::div_mod::lemma_fundamental_div_mod(big, 3 * o);
        assert(v * pow3(k + 1) == 3 * big) by (nonlinear_arith)
            requires pow3(k + 1) == 3 * pow3(k), big == v * pow3(k);
        assert(3 * big == (9 * q) * o + 3 * t) by (nonlinear_arith)
            requires big == (3 * o) * q + t;
        vstd::arithmetic::div_mod::lemma_hoist_over_denominator(3 * t, 9 * q, o as nat);
        assert((3 * t) + (9 * q) * o == 3 * big);
        assert((3 * big) / o == (3 * t) / o + 9 * q);
        vstd::arithmetic::div_mod::lemma_mod_multiples_vanish(3 * q, (3 * t) / o, 3);
        assert((3 * t) / o + 9 * q == 3 * (3 * q) + (3 * t) / o);
        assert(3 * big == (3 * q) * (3 * o) + 3 * t) by (nonlinear_arith)
            requires 3 * big == (9 * q) * o + 3 * t;
        vstd::arithmetic::div_mod::lemma_mod_multiples_vanish(3 * q, 3 * t, 3 * o);
    }
}

/// The classic set: `z <- z^2 + c` from `z = 0`.
#[derive(Clone, Copy, Debug, PartialEq, Eq, Structural)]
pub struct Mandelbrot;

/// The fixed constant that the Julia rule adds at each step.
#[derive(Clone, Copy, Debug, PartialEq, Eq, Structural)]
pub struct JuliaParams {
    pub c_re: i64,
    pub c_im: i64,
}

/// `z <- z^2 + k` from `z = c`, with `k` the rule's constant.
#[derive(Clone, Copy, Debug, PartialEq, Eq, Structural)]
pub struct Julia {
    pub params: JuliaParams,
}

/// `z <- (|Re z| + i |Im z|)^2 + c` from `z = 0`.
#[derive(Clone, Copy, Debug, PartialEq, Eq, Structural)]
pub struct BurningShip;

/// Membership by base-3 digits: a point leaves the carpet at the first step whose
/// two digits are both 1.
#[derive(Clone, Copy, Debug, PartialEq, Eq, Structural)]
pub struct SierpinskiCarpet;

/// Which fractal to draw.
#[derive(Clone, Copy, Debug, PartialEq, Eq, Structural)]
pub enum FractalType {
    Mandelbrot,
    Julia,
    BurningShip,
    SierpinskiCarpet,
}

/// A fractal rule with its fixed parameters.
#[derive(Clone, Copy, Debug, PartialEq, Eq, Structural)]
pub enum Fractal {
    Mandelbrot(Mandelbrot),
    Julia(Julia),
    BurningShip(BurningShip),
    SierpinskiCarpet(SierpinskiCarpet),
}

/// Real part of the Julia constant used by [`create_fractal`] (-0.7).
pub const JULIA_C_RE: i64 = -3006477107;

/// Imaginary part of the Julia constant used by [`create_fractal`] (0.27015).
pub const JULIA_C_IM: i64 = 1160285415;

impl Mandelbrot {
    /// Steps taken before the orbit of `0` under `z^2 + c` leaves `|z|^2 <= escape_radius`.
    pub fn calculate(&self, c: Complex, max_iterations: u32, escape_radius: i64) -> (r: u32)
        requires
            point_ok(c),
            escape_radius <= RADIUS_LIMIT,
        ensures
            r as nat == orbit(false, 0, 0, c.re as int, c.im as int, max_iterations as nat, escape_radius as int).0,
            r <= max_iterations,
    {
        run_orbit(false, Complex { re: 0, im: 0 }, c, max_iterations, escape_radius).0
    }
}

impl Julia {
    pub open spec fn wf(&self) -> bool {
        point_ok(Complex { re: self.params.c_re, im: self.params.c_im })
    }

    /// Steps taken before the orbit of `c` under `z^2 + k` leaves `|z|^2 <= escape_radius`.
    pub fn calculate(&self, c: Complex, max_iterations: u32, escape_radius: i64) -> (r: u32)
        requires
            self.wf(),
            point_ok(c),
            escape_radius <= RADIUS_LIMIT,
        ensures
            r as nat == orbit(false, c.re as int, c.im as int, self.params.c_re as int,
                self.params.c_im as int, max_iterations as nat, escape_radius as int).0,
            r <= max_iterations,
    {
        let k = Complex { re: self.params.c_re, im: self.params.c_im };
        run_orbit(false, c, k, max_iterations, escape_radius).0
    }
}

impl BurningShip {
    /// Steps taken before the burning-ship orbit of `0` leaves `|z|^2 <= escape_radius`.
    pub fn calculate(&self, c: Complex, max_iterations: u32, escape_radius: i64) -> (r: u32)
        requires
            point_ok(c),
            escape_radius <= RADIUS_LIMIT,
        ensures
            r as nat == orbit(true, 0, 0, c.re as int, c.im as int, max_iterations as nat, escape_radius as int).0,
            r <= max_iterations,
    {
        run_orbit(true, Complex { re: 0, im: 0 }, c, max_iterations, escape_radius).0
    }
}

impl SierpinskiCarpet {
    /// The first step whose two base-3 digits are both 1, or `max_iterations`.
    /// The escape radius plays no part.
    pub fn calculate(&self, c: Complex, max_iterations: u32, escape_radius: i64) -> (r: u32)
        ensures
            r as nat == carpet_from(c.re as int, c.im as int, 0, max_iterations as nat),
            r <= max_iterations,
    {
        proof {
            lemma_carpet_from_bound(c.re as int, c.im as int, 0, max_iterations as nat);
        }
        run_carpet(c, max_iterations)
    }
}

proof fn lemma_carpet_from_bound(x: int, y: int, from: nat, budget: nat)
    ensures
        carpet_from(x, y, from, budget) <= budget,
    decreases budget - from,
{
    if from < budget && !carpet_hit(x, y, from) {
        lemma_carpet_from_bound(x, y, from + 1, budget);
    }
}

impl Fractal {
    pub open spec fn wf(&self) -> bool {
        match self {
            Fractal::Julia(j) => j.wf(),
            _ => true,
        }
    }

    /// Step count and the point where the iteration stopped; the carpet, which
    /// has no orbit, stops at the queried point itself.
    pub open spec fn escape_spec(&self, c: Complex, max_iterations: nat, escape_radius: int) -> (nat, int, int) {
        match self {
            Fractal::Mandelbrot(_) => orbit(false, 0, 0, c.re as int, c.im as int, max_iterations, escape_radius),
            Fractal::Julia(j) => orbit(false, c.re as int, c.im as int, j.params.c_re as int,
                j.params.c_im as int, max_iterations, escape_radius),
            Fractal::BurningShip(_) => orbit(true, 0, 0, c.re as int, c.im as int, max_iterations, escape_radius),
            Fractal::SierpinskiCarpet(_) => (carpet_from(c.re as int, c.im as int, 0, max_iterations),
                c.re as int, c.im as int),
        }
    }

    /// Iterates the rule on `c`; gives the step count and the point where it stopped.
    pub fn escape(&self, c: Complex, max_iterations: u32, escape_radius: i64) -> (r: (u32, Complex))
        requires
            self.wf(),
            point_ok(c),
            escape_radius <= RADIUS_LIMIT,
        ensures
            ({
                let e = self.escape_spec(c, max_iterations as nat, escape_radius as int);
                r.0 as nat == e.0 && r.1.re as int == e.1 && r.1.im as int == e.2
            }),
            r.0 <= max_iterations,
            abs(r.1.re as int) <= ORBIT_LIMIT,
            abs(r.1.im as int) <= ORBIT_LIMIT,
    {
        match self {
            Fractal::Mandelbrot(_) => run_orbit(false, Complex { re: 0, im: 0 }, c, max_iterations, escape_radius),
            Fractal::Julia(j) => {
                let k = Complex { re: j.params.c_re, im: j.params.c_im };
                run_orbit(false, c, k, max_iterations, escape_radius)
            },
            Fractal::BurningShip(_) => run_orbit(true, Complex { re: 0, im: 0 }, c, max_iterations, escape_radius),
            Fractal::SierpinskiCarpet(s) => (s.calculate(c, max_iterations, escape_radius), c),
        }
    }

    /// The step count of the rule on `c`, in `[0, max_iterations]`.
    pub fn calculate(&self, c: Complex, max_iterations: u32, escape_radius: i64) -> (r: u32)
        requires
            self.wf(),
            point_ok(c),
            escape_radius <= RADIUS_LIMIT,
        ensures
            r as nat == self.escape_spec(c, max_iterations as nat, escape_radius as int).0,
            r <= max_iterations,
    {
        self.escape(c, max_iterations, escape_radius).0
    }
}

pub open spec fn fractal_of(fractal_type: FractalType) -> Fractal {
    match fractal_type {
        FractalType::Mandelbrot => Fractal::Mandelbrot(Mandelbrot),
        FractalType::Julia => Fractal::Julia(
            Julia { params: JuliaParams { c_re: JULIA_C_RE, c_im: JULIA_C_IM } },
        ),
        FractalType::BurningShip => Fractal::BurningShip(BurningShip),
        FractalType::SierpinskiCarpet => Fractal::SierpinskiCarpet(SierpinskiCarpet),
    }
}

/// The rule for a fractal type; Julia gets the constant `-0.7 + 0.27015i`.
pub fn create_fractal(fractal_type: FractalType) -> (r: Fractal)
    ensures
        r == fractal_of(fractal_type),
        r.wf(),
{
    match fractal_type {
        FractalType::Mandelbrot => Fractal::Mandelbrot(Mandelbrot),
        FractalType::Julia => Fractal::Julia(
            Julia { params: JuliaParams { c_re: JULIA_C_RE, c_im: JULIA_C_IM } },
        ),
        FractalType::BurningShip => Fractal::BurningShip(BurningShip),
        FractalType::SierpinskiCarpet => Fractal::SierpinskiCarpet(SierpinskiCarpet),
    }
}

/// The origin lies inside the Mandelbrot set: for any budget and any escape
/// radius of at least 0, its orbit stays at 0 and uses the whole budget.
pub proof fn lemma_mandelbrot_origin_interior(max_iterations: nat, escape_radius: int)
    requires
        escape_radius >= 0,
    ensures
        orbit(false, 0, 0, 0, 0, max_iterations, escape_radius).0 == max_iterations,
    decreases max_iterations,
{
    assert(fx_mul(0, 0) == 0);
    assert(fx_mul(2 * 0int, 0) == 0);
    if max_iterations > 0 {
        lemma_mandelbrot_origin_interior((max_iterations - 1) as nat, escape_radius);
    }
}

/// The point 2 of the Mandelbrot rule: its first iterate is 2 itself, with squared
/// magnitude exactly 4. Under an escape radius below 4 it escapes there, after one
/// step (at once under a negative radius); under the radius 4 the boundary counts
/// as inside and it takes a second step, to 6, before escaping.
pub proof fn lemma_mandelbrot_two(max_iterations: nat, escape_radius: int)
    requires
        max_iterations >= 1,
    ensures
        escape_radius < 0 ==> orbit(false, 0, 0, 2 * ONE, 0, max_iterations, escape_radius).0 == 0,
        0 <= escape_radius < 4 * ONE ==> orbit(false, 0, 0, 2 * ONE, 0, max_iterations, escape_radius).0 == 1,
        escape_radius == 4 * ONE && max_iterations >= 2 ==> orbit(false, 0, 0, 2 * ONE, 0, max_iterations,
            escape_radius).0 == 2,
{
    let two = 2 * ONE as int;
    assert(fx_mul(0, 0) == 0);
    assert(fx_mul(2 * 0int, 0) == 0);
    assert(two * two == (4 * ONE as int) * (ONE as int)) by (nonlinear_arith)
        requires two == 2 * (ONE as int);
    assert(fx_mul(two, two) == 4 * ONE) by {
        vstd::arithmetic::div_mod::lemma_div_by_multiple(4 * ONE as int, ONE as int);
    }
    assert(fx_mul(2 * two, 0) == 0);
    let six = 6 * ONE as int;
    assert(six * six == (36 * ONE as int) * (ONE as int)) by (nonlinear_arith)
        requires six == 6 * (ONE as int);
    assert(fx_mul(six, six) == 36 * ONE) by {
        vstd::arithmetic::div_mod::lemma_div_by_multiple(36 * ONE as int, ONE as int);
    }
    assert(sq_mag(two, 0) == 4 * ONE);
    assert(escape_step(false, two, 0, two, 0) == (six, 0int));
    assert(sq_mag(six, 0) == 36 * ONE);
    let m1 = (max_iterations - 1) as nat;
    assert(escape_step(false, 0, 0, two, 0) == (two, 0int));
    if 0 <= escape_radius < 4 * ONE {
        assert(orbit(false, two, 0, two, 0, m1, escape_radius).0 == 0);
    }
    if escape_radius == 4 * ONE && max_iterations >= 2 {
        let m2 = (max_iterations - 2) as nat;
        assert(orbit(false, six, 0, two, 0, m2, escape_radius).0 == 0);
        assert(orbit(false, two, 0, two, 0, m1, escape_radius).0 == 1);
    }
}

/// A point whose parts both lie in `[1/3, 2/3)` reads the digits (1, 1) at the
/// first step, so the carpet test stops at once.
pub proof fn lemma_carpet_center_cell(x: int, y: int, max_iterations: nat)
    requires
        ONE <= 3 * x < 2 * ONE,
        ONE <= 3 * y < 2 * ONE,
        max_iterations >= 1,
    ensures
        carpet_from(x, y, 0, max_iterations) == 0,
{
    assert(pow3(1) == 3) by {
        assert(pow3(0) == 1);
    }
    vstd::arithmetic::div_mod::lemma_fundamental_div_mod_converse(x * 3, ONE as int, 1, x * 3 - ONE);
    vstd::arithmetic::div_mod::lemma_fundamental_div_mod_converse(y * 3, ONE as int, 1, y * 3 - ONE);
    assert(carpet_digit(x, 0) == 1);
    assert(carpet_digit(y, 0) == 1);
}

} // verus!
