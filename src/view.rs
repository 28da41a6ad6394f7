//! The view: image size, pan and zoom over the plane, and the drawing of a frame.
use vstd::prelude::*;
use crate::color::{color_for, color_spec, Rgba};
use crate::fixed::{abs, fx_mul, fx_product, trunc_div, Complex, ONE, POINT_LIMIT, RADIUS_LIMIT};
use crate::fractals::{create_fractal, fractal_of, point_ok, Fractal, FractalType};

verus! {

/// Largest zoom a view accepts (256).
pub const ZOOM_LIMIT: i64 = 0x100_0000_0000;

/// Largest magnitude of either part of a view's offset (2^20).
pub const OFFSET_LIMIT: i64 = 0x10_0000_0000_0000;

/// Why a view could not be made or changed.
#[derive(Clone, Copy, Debug, PartialEq, Eq, Structural)]
pub enum ViewError {
    /// The width or the height is zero.
    EmptyImage,
    /// The pixel buffer would not fit in memory's address range.
    TooLarge,
    /// A zoom factor that is zero or negative.
    InvalidFactor,
    /// A pixel position outside the image.
    OutsideImage,
    /// The zoom or the offset would leave the range a view can hold.
    OutOfRange,
}

/// Pixel `p` of an axis `n` pixels long, relative to the centre in quarter-lengths:
/// `(p - n/2) / (n/4)`, in fixed point.
pub open spec fn axis_ratio(p: int, n: int) -> int {
    trunc_div((4 * p - 2 * n) * ONE, n)
}

/// The plane coordinate of pixel `p` on an axis of `n` pixels.
pub open spec fn axis_point(p: int, n: int, zoom: int, offset: int) -> int {
    fx_mul(axis_ratio(p, n), zoom) + offset
}

pub open spec fn offset_ok(v: int) -> bool {
    abs(v) <= OFFSET_LIMIT
}

pub open spec fn rgba_byte(c: Rgba, j: int) -> u8 {
    if j == 0 {
        c.r
    } else if j == 1 {
        c.g
    } else if j == 2 {
        c.b
    } else {
        c.a
    }
}

/// What a view shows: its size, its zoom and offset, and its fractal rule.
pub struct ViewState {
    width: u32,
    height: u32,
    zoom: i64,
    offset_x: i64,
    offset_y: i64,
    buffer: Vec<u8>,
    fractal: Fractal,
}

proof fn lemma_axis_ratio_bound(p: int, n: int)
    requires
        0 <= p <= n,
        n > 0,
    ensures
        abs(axis_ratio(p, n)) <= 2 * ONE,
{
    assert(abs((4 * p - 2 * n) * ONE) <= (2 * ONE) * n) by (nonlinear_arith)
        requires 0 <= p <= n, n > 0;
    crate::fixed::lemma_trunc_div_bound((4 * p - 2 * n) * ONE, n, 2 * ONE);
}

proof fn lemma_axis_point_bound(p: int, n: int, zoom: int, offset: int)
    requires
        0 <= p <= n,
        n > 0,
        0 < zoom <= ZOOM_LIMIT,
        offset_ok(offset),
    ensures
        abs(fx_mul(axis_ratio(p, n), zoom)) <= 2 * ZOOM_LIMIT,
        abs(axis_point(p, n, zoom, offset)) <= POINT_LIMIT,
{
    lemma_axis_ratio_bound(p, n);
    let r = axis_ratio(p, n);
    assert(abs(r * zoom) <= (2 * ZOOM_LIMIT) * ONE) by (nonlinear_arith)
        requires abs(r) <= 2 * ONE, 0 < zoom <= ZOOM_LIMIT;
    crate::fixed::lemma_trunc_div_bound(r * zoom, ONE as int, 2 * ZOOM_LIMIT);
}

/// The fixed-point ratio of pixel `p` on an axis of `n` pixels.
fn ratio(p: u32, n: u32) -> (r: i128)
    requires
        n > 0,
        p <= n,
    ensures
        r as int == axis_ratio(p as int, n as int),
        abs(r as int) <= 2 * ONE,
{
    proof {
        lemma_axis_ratio_bound(p as int, n as int);
    }
    let num = (4 * (p as i128) - 2 * (n as i128)) * (ONE as i128);
    if num >= 0 {
        num / (n as i128)
    } else {
        proof {
            vstd::arithmetic::div_mod::lemma_div_pos_is_pos(-num as int, n as int);
        }
        -((-num) / (n as i128))
    }
}

impl ViewState {
    pub closed spec fn width_spec(&self) -> nat {
        self.width as nat
    }

    pub closed spec fn height_spec(&self) -> nat {
        self.height as nat
    }

    pub closed spec fn zoom_spec(&self) -> int {
        self.zoom as int
    }

    pub closed spec fn offset_spec(&self) -> (int, int) {
        (self.offset_x as int, self.offset_y as int)
    }

    pub closed spec fn fractal_spec(&self) -> Fractal {
        self.fractal
    }

    pub closed spec fn buffer_spec(&self) -> Seq<u8> {
        self.buffer@
    }

    /// The view's invariant: a nonempty image whose buffer holds four bytes per
    /// pixel, a positive zoom, and zoom and offset within the view's range.
    pub closed spec fn wf(&self) -> bool {
        &&& self.width > 0
        &&& self.height > 0
        &&& self.buffer@.len() == self.width * self.height * 4
        &&& 0 < self.zoom <= ZOOM_LIMIT
        &&& offset_ok(self.offset_x as int)
        &&& offset_ok(self.offset_y as int)
        &&& self.fractal.wf()
    }

    /// What the invariant gives a caller: a nonempty image, four bytes per pixel,
    /// and a positive zoom within range.
    pub proof fn lemma_wf_facts(&self)
        requires
            self.wf(),
        ensures
            self.width_spec() > 0,
            self.height_spec() > 0,
            self.buffer_spec().len() == self.width_spec() * self.height_spec() * 4,
            0 < self.zoom_spec() <= ZOOM_LIMIT,
            offset_ok(self.offset_spec().0),
            offset_ok(self.offset_spec().1),
            self.fractal_spec().wf(),
    {
    }

    /// The plane point under pixel `(x, y)`.
    pub open spec fn point_spec(&self, x: int, y: int) -> Complex {
        Complex {
            re: axis_point(x, self.width_spec() as int, self.zoom_spec(), self.offset_spec().0) as i64,
            im: axis_point(y, self.height_spec() as int, self.zoom_spec(), self.offset_spec().1) as i64,
        }
    }

    /// The colour of pixel `(x, y)`.
    pub open spec fn pixel_spec(&self, x: int, y: int, max_iterations: nat, escape_radius: int) -> Rgba {
        let e = self.fractal_spec().escape_spec(self.point_spec(x, y), max_iterations, escape_radius);
        color_spec(e.0 as int, max_iterations as int, e.1, e.2)
    }

    /// Byte `k` of row `y`: four bytes per pixel, left to right.
    pub open spec fn row_byte(&self, y: int, k: int, max_iterations: nat, escape_radius: int) -> u8 {
        rgba_byte(self.pixel_spec(k / 4, y, max_iterations, escape_radius), k % 4)
    }

    /// The whole frame, row after row from the top.
    pub open spec fn image_spec(&self, max_iterations: nat, escape_radius: int) -> Seq<u8> {
        let row_len = 4 * self.width_spec();
        Seq::new(
            row_len * self.height_spec(),
            |i: int| self.row_byte(i / (row_len as int), i % (row_len as int), max_iterations, escape_radius),
        )
    }

    /// A view of `width` by `height` pixels at zoom 1 centred on the origin, with a
    /// cleared buffer.
    pub fn new(width: u32, height: u32, fractal_type: FractalType) -> (r: Result<ViewState, ViewError>)
        ensures
            (width == 0 || height == 0) <==> r == Err::<ViewState, ViewError>(ViewError::EmptyImage),
            (width > 0 && height > 0 && width * height * 4 > usize::MAX)
                <==> r == Err::<ViewState, ViewError>(ViewError::TooLarge),
            (width > 0 && height > 0 && width * height * 4 <= usize::MAX) <==> r is Ok,
            r is Ok ==> ({
                let v = r->Ok_0;
                &&& v.wf()
                &&& v.width_spec() == width
                &&& v.height_spec() == height
                &&& v.zoom_spec() == ONE
                &&& v.offset_spec() == (0int, 0int)
                &&& v.fractal_spec() == fractal_of(fractal_type)
                &&& v.buffer_spec().len() == width * height * 4
                &&& v.buffer_spec() == Seq::new(v.buffer_spec().len(), |i: int| 0u8)
            }),
    {
        if width == 0 || height == 0 {
            return Err(ViewError::EmptyImage);
        }
        assert((width as int) * (height as int) * 4 <= 0xffff_ffff * 0xffff_ffff * 4) by (nonlinear_arith)
            requires width <= 0xffff_ffff, height <= 0xffff_ffff;
        let total = (width as u128) * (height as u128) * 4;
        if total > usize::MAX as u128 {
            return Err(ViewError::TooLarge);
        }
        let len = total as usize;
        let mut buffer: Vec<u8> = Vec::new();
        while buffer.len() < len
            invariant
                buffer@.len() <= len,
                forall|i: int| 0 <= i < buffer@.len() ==> buffer@[i] == 0u8,
            decreases len - buffer@.len(),
        {
            buffer.push(0);
        }
        let v = ViewState {
            width,
            height,
            zoom: ONE,
            offset_x: 0,
            offset_y: 0,
            buffer,
            fractal: create_fractal(fractal_type),
        };
        assert(v.buffer_spec() =~= Seq::new(v.buffer_spec().len(), |i: int| 0u8));
        Ok(v)
    }

    pub fn width(&self) -> (r: u32)
        ensures
            r == self.width_spec(),
    {
        self.width
    }

    pub fn height(&self) -> (r: u32)
        ensures
            r == self.height_spec(),
    {
        self.height
    }

    /// The plane point under pixel `(x, y)`:
    /// `(x - width/2) / (width/4) * zoom + offset` on each axis.
    pub fn map_to_complex(&self, x: u32, y: u32) -> (r: Complex)
        requires
            self.wf(),
            x <= self.width_spec(),
            y <= self.height_spec(),
        ensures
            r.re as int == axis_point(x as int, self.width_spec() as int, self.zoom_spec(), self.offset_spec().0),
            r.im as int == axis_point(y as int, self.height_spec() as int, self.zoom_spec(), self.offset_spec().1),
            r == self.point_spec(x as int, y as int),
            point_ok(r),
    {
        proof {
            lemma_axis_point_bound(x as int, self.width as int, self.zoom as int, self.offset_x as int);
            lemma_axis_point_bound(y as int, self.height as int, self.zoom as int, self.offset_y as int);
        }
        let re = fx_product(ratio(x, self.width), self.zoom as i128) + self.offset_x as i128;
        let im = fx_product(ratio(y, self.height), self.zoom as i128) + self.offset_y as i128;
        Complex { re: re as i64, im: im as i64 }
    }
}

impl ViewState {
    /// The offset after a pan by `(dx, dy)` screen units, scaled by the zoom.
    pub open spec fn panned(&self, dx: int, dy: int) -> (int, int) {
        (self.offset_spec().0 + fx_mul(dx, self.zoom_spec()), self.offset_spec().1 + fx_mul(dy, self.zoom_spec()))
    }

    /// Zoom and offset after scaling the zoom by `factor` and moving the offset so
    /// that the point under pixel `(x, y)` stays where it was.
    pub open spec fn zoomed(&self, x: int, y: int, factor: int) -> (int, int, int) {
        let w = self.width_spec() as int;
        let h = self.height_spec() as int;
        let (ox, oy) = self.offset_spec();
        let nz = fx_mul(self.zoom_spec(), factor);
        let bx = axis_point(x, w, self.zoom_spec(), ox);
        let by = axis_point(y, h, self.zoom_spec(), oy);
        let ax = axis_point(x, w, nz, ox);
        let ay = axis_point(y, h, nz, oy);
        (nz, ox + bx - ax, oy + by - ay)
    }

    pub open spec fn same_except_view(&self, other: &ViewState) -> bool {
        &&& self.width_spec() == other.width_spec()
        &&& self.height_spec() == other.height_spec()
        &&& self.fractal_spec() == other.fractal_spec()
        &&& self.buffer_spec() == other.buffer_spec()
    }

    /// Moves the offset by `(dx, dy)` times the zoom. Fails, changing nothing, when
    /// the offset would leave the range a view holds.
    pub fn pan(&mut self, dx: i64, dy: i64) -> (r: Result<(), ViewError>)
        requires
            old(self).wf(),
        ensures
            final(self).wf(),
            r is Ok <==> offset_ok(old(self).panned(dx as int, dy as int).0)
                && offset_ok(old(self).panned(dx as int, dy as int).1),
            r is Ok ==> final(self).offset_spec() == old(self).panned(dx as int, dy as int)
                && final(self).zoom_spec() == old(self).zoom_spec()
                && final(self).same_except_view(old(self)),
            r is Err ==> r == Err::<(), ViewError>(ViewError::OutOfRange) && *final(self) == *old(self),
    {
        proof {
            assert(abs((dx as int) * (self.zoom as int)) <= 0x80_0000_0000_0000_0000 * ONE) by (nonlinear_arith)
                requires 0 < self.zoom <= ZOOM_LIMIT;
            assert(abs((dy as int) * (self.zoom as int)) <= 0x80_0000_0000_0000_0000 * ONE) by (nonlinear_arith)
                requires 0 < self.zoom <= ZOOM_LIMIT;
            crate::fixed::lemma_trunc_div_bound((dx as int) * (self.zoom as int), ONE as int, 0x80_0000_0000_0000_0000);
            crate::fixed::lemma_trunc_div_bound((dy as int) * (self.zoom as int), ONE as int, 0x80_0000_0000_0000_0000);
        }
        let nx = self.offset_x as i128 + fx_product(dx as i128, self.zoom as i128);
        let ny = self.offset_y as i128 + fx_product(dy as i128, self.zoom as i128);
        if nx < -(OFFSET_LIMIT as i128) || nx > OFFSET_LIMIT as i128 || ny < -(OFFSET_LIMIT as i128)
            || ny > OFFSET_LIMIT as i128 {
            return Err(ViewError::OutOfRange);
        }
        self.offset_x = nx as i64;
        self.offset_y = ny as i64;
        Ok(())
    }

    /// Scales the zoom by `factor` (fixed point) while the plane point under pixel
    /// `(x, y)` stays put. Fails, changing nothing, on a factor that is not
    /// positive, a pixel outside the image, or a zoom or offset out of range.
    pub fn zoom_at(&mut self, x: u32, y: u32, factor: i64) -> (r: Result<(), ViewError>)
        requires
            old(self).wf(),
        ensures
            final(self).wf(),
            factor <= 0 <==> r == Err::<(), ViewError>(ViewError::InvalidFactor),
            factor > 0 && (x > old(self).width_spec() || y > old(self).height_spec())
                <==> r == Err::<(), ViewError>(ViewError::OutsideImage),
            r is Ok <==> factor > 0 && x <= old(self).width_spec() && y <= old(self).height_spec() && ({
                let t = old(self).zoomed(x as int, y as int, factor as int);
                0 < t.0 <= ZOOM_LIMIT && offset_ok(t.1) && offset_ok(t.2)
            }),
            r is Ok ==> ({
                let t = old(self).zoomed(x as int, y as int, factor as int);
                &&& final(self).zoom_spec() == t.0
                &&& final(self).offset_spec() == (t.1, t.2)
                &&& final(self).same_except_view(old(self))
            }),
            r is Err ==> *final(self) == *old(self),
    {
        if factor <= 0 {
            return Err(ViewError::InvalidFactor);
        }
        if x > self.width || y > self.height {
            return Err(ViewError::OutsideImage);
        }
        assert(0 <= (self.zoom as int) * (factor as int) <= 0x100_0000_0000 * 0x7fff_ffff_ffff_ffff) by (nonlinear_arith)
            requires 0 < self.zoom <= 0x100_0000_0000, 0 < factor <= 0x7fff_ffff_ffff_ffff;
        let prod = (self.zoom as i128) * (factor as i128);
        let nz = prod / (ONE as i128);
        if nz <= 0 || nz > ZOOM_LIMIT as i128 {
            return Err(ViewError::OutOfRange);
        }
        let before = self.map_to_complex(x, y);
        proof {
            lemma_axis_point_bound(x as int, self.width as int, nz as int, self.offset_x as int);
            lemma_axis_point_bound(y as int, self.height as int, nz as int, self.offset_y as int);
        }
        let ax = fx_product(ratio(x, self.width), nz) + self.offset_x as i128;
        let ay = fx_product(ratio(y, self.height), nz) + self.offset_y as i128;
        let nx = self.offset_x as i128 + before.re as i128 - ax;
        let ny = self.offset_y as i128 + before.im as i128 - ay;
        if nx < -(OFFSET_LIMIT as i128) || nx > OFFSET_LIMIT as i128 || ny < -(OFFSET_LIMIT as i128)
            || ny > OFFSET_LIMIT as i128 {
            return Err(ViewError::OutOfRange);
        }
        self.zoom = nz as i64;
        self.offset_x = nx as i64;
        self.offset_y = ny as i64;
        Ok(())
    }

    /// The colour of pixel `(x, y)`.
    fn pixel(&self, x: u32, y: u32, max_iterations: u32, escape_radius: i64) -> (r: Rgba)
        requires
            self.wf(),
            x < self.width_spec(),
            y < self.height_spec(),
            escape_radius <= RADIUS_LIMIT,
        ensures
            r == self.pixel_spec(x as int, y as int, max_iterations as nat, escape_radius as int),
    {
        let c = self.map_to_complex(x, y);
        let e = self.fractal.escape(c, max_iterations, escape_radius);
        color_for(e.0, max_iterations, e.1)
    }

    /// The bytes of row `y`: red, green, blue and alpha of each pixel, left to right.
    pub fn render_row(&self, y: u32, max_iterations: u32, escape_radius: i64) -> (r: Vec<u8>)
        requires
            self.wf(),
            y < self.height_spec(),
            escape_radius <= RADIUS_LIMIT,
        ensures
            r@.len() == 4 * self.width_spec(),
            forall|k: int| 0 <= k < r@.len() ==> r@[k] == self.row_byte(y as int, k, max_iterations as nat, escape_radius as int),
    {
        let mut row: Vec<u8> = Vec::new();
        let mut x: u32 = 0;
        while x < self.width
            invariant
                self.wf(),
                y < self.height_spec(),
                escape_radius <= RADIUS_LIMIT,
                x <= self.width,
                row@.len() == 4 * x,
                forall|k: int| 0 <= k < row@.len() ==> row@[k] == self.row_byte(y as int, k, max_iterations as nat, escape_radius as int),
            decreases self.width - x,
        {
            let c = self.pixel(x, y, max_iterations, escape_radius);
            let ghost base = row@.len() as int;
            row.push(c.r);
            row.push(c.g);
            row.push(c.b);
            row.push(c.a);
            assert forall|k: int| base <= k < base + 4 implies row@[k] == self.row_byte(y as int, k, max_iterations as nat, escape_radius as int) by {
                assert(k / 4 == x as int);
                assert(k % 4 == k - base);
            }
            x = x + 1;
        }
        row
    }

    /// Renders the frame into the view's buffer, row after row, and hands back a
    /// copy of it. The zoom, offset and size stay as they were.
    pub fn draw(&mut self, max_iterations: u32, escape_radius: i64) -> (r: Vec<u8>)
        requires
            old(self).wf(),
            escape_radius <= RADIUS_LIMIT,
        ensures
            final(self).wf(),
            final(self).width_spec() == old(self).width_spec(),
            final(self).height_spec() == old(self).height_spec(),
            final(self).zoom_spec() == old(self).zoom_spec(),
            final(self).offset_spec() == old(self).offset_spec(),
            final(self).fractal_spec() == old(self).fractal_spec(),
            final(self).buffer_spec() == old(self).image_spec(max_iterations as nat, escape_radius as int),
            final(self).buffer_spec().len() == old(self).buffer_spec().len(),
            final(self).buffer_spec().len() == old(self).width_spec() * old(self).height_spec() * 4,
            r@ == final(self).buffer_spec(),
            r@.len() == old(self).width_spec() * old(self).height_spec() * 4,
    {
        let ghost v0 = *self;
        let ghost image = v0.image_spec(max_iterations as nat, escape_radius as int);
        let n = self.buffer.len();
        assert(4 * (self.width as int) <= self.buffer@.len()
            && (4 * self.width as int) * (self.height as int) == self.buffer@.len()) by (nonlinear_arith)
            requires self.buffer@.len() == self.width * self.height * 4, self.height >= 1;
        let row_len = 4 * (self.width as usize);
        let mut y: u32 = 0;
        while y < self.height
            invariant
                self.wf(),
                self.width == v0.width && self.height == v0.height && self.zoom == v0.zoom,
                self.offset_x == v0.offset_x && self.offset_y == v0.offset_y && self.fractal == v0.fractal,
                escape_radius <= RADIUS_LIMIT,
                row_len == 4 * self.width,
                y <= self.height,
                image == v0.image_spec(max_iterations as nat, escape_radius as int),
                image.len() == self.buffer@.len(),
                (self.height as int) * (row_len as int) == self.buffer@.len(),
                n == self.buffer@.len(),
                forall|i: int| 0 <= i < (y as int) * (row_len as int) ==> self.buffer@[i] == image[i],
            decreases self.height - y,
        {
            let row = self.render_row(y, max_iterations, escape_radius);
            assert((y as int) * (row_len as int) + row_len <= (self.height as int) * (row_len as int)) by (nonlinear_arith)
                requires y < self.height, row_len >= 0;
            assert((self.height as int) * (row_len as int) == self.buffer@.len()) by (nonlinear_arith)
                requires row_len == 4 * self.width, self.buffer@.len() == self.width * self.height * 4;
            let start = (y as usize) * row_len;
            let mut k: usize = 0;
            while k < row_len
                invariant
                    self.wf(),
                    self.width == v0.width && self.height == v0.height && self.zoom == v0.zoom,
                    self.offset_x == v0.offset_x && self.offset_y == v0.offset_y && self.fractal == v0.fractal,
                    row_len == 4 * self.width,
                    row@.len() == row_len,
                    y < self.height,
                    start == (y as int) * (row_len as int),
                    start + row_len <= self.buffer@.len(),
                    n == self.buffer@.len(),
                    k <= row_len,
                    image == v0.image_spec(max_iterations as nat, escape_radius as int),
                    image.len() == self.buffer@.len(),
                    forall|j: int| 0 <= j < row_len ==> row@[j] == v0.row_byte(y as int, j, max_iterations as nat, escape_radius as int),
                    forall|i: int| 0 <= i < start + k ==> self.buffer@[i] == image[i],
                decreases row_len - k,
            {
                proof {
                    vstd::arithmetic::div_mod::lemma_fundamental_div_mod_converse(
                        (start + k) as int, row_len as int, y as int, k as int);
                }
                self.buffer.set(start + k, row[k]);
                k = k + 1;
            }
            proof {
                assert((y as int + 1) * (row_len as int) == start + row_len) by (nonlinear_arith)
                    requires start == (y as int) * (row_len as int);
            }
            y = y + 1;
        }
        assert((y as int) * (row_len as int) == self.buffer@.len());
        assert(self.buffer@ =~= image);
        let mut out: Vec<u8> = Vec::new();
        let mut i: usize = 0;
        while i < self.buffer.len()
            invariant
                i <= self.buffer@.len(),
                out@ == self.buffer@.subrange(0, i as int),
            decreases self.buffer@.len() - i,
        {
            out.push(self.buffer[i]);
            i = i + 1;
            assert(out@ =~= self.buffer@.subrange(0, i as int));
        }
        assert(out@ =~= self.buffer@);
        out
    }
}

/// Zooming at a pixel keeps it over the same plane point: after a successful
/// `zoom_at(x, y, factor)` the point under `(x, y)` is exactly what it was.
pub proof fn lemma_zoom_at_keeps_point(before: ViewState, after: ViewState, x: u32, y: u32, factor: i64)
    requires
        before.wf(),
        x <= before.width_spec(),
        y <= before.height_spec(),
        after.zoom_spec() == before.zoomed(x as int, y as int, factor as int).0,
        after.offset_spec() == (before.zoomed(x as int, y as int, factor as int).1,
            before.zoomed(x as int, y as int, factor as int).2),
        after.same_except_view(&before),
    ensures
        after.point_spec(x as int, y as int) == before.point_spec(x as int, y as int),
{
}

/// Two pans at one zoom land within two fixed-point units (2^-31) of the single
/// pan by their sum, on each axis, and exactly on it when the zoom is a whole number.
pub proof fn lemma_pan_twice(v: ViewState, mid: ViewState, dx1: int, dy1: int, dx2: int, dy2: int)
    requires
        mid.zoom_spec() == v.zoom_spec(),
        mid.offset_spec() == v.panned(dx1, dy1),
    ensures
        abs(mid.panned(dx2, dy2).0 - v.panned(dx1 + dx2, dy1 + dy2).0) <= 2,
        abs(mid.panned(dx2, dy2).1 - v.panned(dx1 + dx2, dy1 + dy2).1) <= 2,
        v.zoom_spec() % (ONE as int) == 0 ==> mid.panned(dx2, dy2) == v.panned(dx1 + dx2, dy1 + dy2),
        mid.panned(dx2, dy2) == (v.offset_spec().0 + fx_mul(dx2, v.zoom_spec()) + fx_mul(dx1, v.zoom_spec()),
            v.offset_spec().1 + fx_mul(dy2, v.zoom_spec()) + fx_mul(dy1, v.zoom_spec())),
{
    crate::fixed::lemma_fx_mul_add(dx1, dx2, v.zoom_spec());
    crate::fixed::lemma_fx_mul_add(dy1, dy2, v.zoom_spec());
}

/// Zoom after zooming by `f1` and then by `f2`, against zooming once by the
/// fixed-point product `f1 * f2`: each zoom is rounded down to a unit, so the two
/// differ by less than `1 + (f2 + zoom) / ONE` units.
pub proof fn lemma_zoom_twice_zoom(z: int, f1: int, f2: int)
    requires
        z > 0,
        f1 > 0,
        f2 > 0,
    ensures
        (ONE as int) * abs(fx_mul(fx_mul(z, f1), f2) - fx_mul(z, fx_mul(f1, f2))) < ONE + f2 + z,
{
    let o = ONE as int;
    assert(z * f1 > 0 && f1 * f2 > 0) by (nonlinear_arith) requires z > 0, f1 > 0, f2 > 0;
    let z1 = fx_mul(z, f1);
    let f12 = fx_mul(f1, f2);
    vstd::arithmetic::div_mod::lemma_fundamental_div_mod(z * f1, o);
    vstd::arithmetic::div_mod::lemma_fundamental_div_mod(f1 * f2, o);
    vstd::arithmetic::div_mod::lemma_div_pos_is_pos(z * f1, o);
    vstd::arithmetic::div_mod::lemma_div_pos_is_pos(f1 * f2, o);
    assert(z1 * f2 >= 0 && z * f12 >= 0) by (nonlinear_arith) requires z1 >= 0, f2 > 0, z > 0, f12 >= 0;
    let z2 = fx_mul(z1, f2);
    let zp = fx_mul(z, f12);
    vstd::arithmetic::div_mod::lemma_fundamental_div_mod(z1 * f2, o);
    vstd::arithmetic::div_mod::lemma_fundamental_div_mod(z * f12, o);
    let w = z * f1 * f2;
    assert(o * o * z2 <= w && o * o * z2 > w - o * f2 - o * o) by (nonlinear_arith)
        requires
            z * f1 == o * z1 + (z * f1) % o,
            0 <= (z * f1) % o < o,
            z1 * f2 == o * z2 + (z1 * f2) % o,
            0 <= (z1 * f2) % o < o,
            w == z * f1 * f2,
            f2 > 0,
            o > 0;
    assert(o * o * zp <= w && o * o * zp > w - o * z - o * o) by (nonlinear_arith)
        requires
            f1 * f2 == o * f12 + (f1 * f2) % o,
            0 <= (f1 * f2) % o < o,
            z * f12 == o * zp + (z * f12) % o,
            0 <= (z * f12) % o < o,
            w == z * f1 * f2,
            z > 0,
            o > 0;
    assert(o * abs(z2 - zp) < o + f2 + z) by (nonlinear_arith)
        requires
            o * o * z2 <= w,
            o * o * z2 > w - o * f2 - o * o,
            o * o * zp <= w,
            o * o * zp > w - o * z - o * o,
            f2 > 0,
            z > 0,
            o > 0;
}

/// Two zooms at one pixel against one zoom there by the fixed-point product of the
/// factors: the zooms differ as `lemma_zoom_twice_zoom` bounds, and each offset by at
/// most twice that difference plus one unit, since both views keep the point under
/// the pixel where it was.
pub proof fn lemma_zoom_twice(v: ViewState, v1: ViewState, v2: ViewState, once: ViewState, x: u32, y: u32,
    f1: i64, f2: i64)
    requires
        v.wf(),
        f1 > 0,
        f2 > 0,
        x <= v.width_spec(),
        y <= v.height_spec(),
        v1.zoom_spec() == v.zoomed(x as int, y as int, f1 as int).0,
        v1.offset_spec() == (v.zoomed(x as int, y as int, f1 as int).1, v.zoomed(x as int, y as int, f1 as int).2),
        v1.same_except_view(&v),
        v2.zoom_spec() == v1.zoomed(x as int, y as int, f2 as int).0,
        v2.offset_spec() == (v1.zoomed(x as int, y as int, f2 as int).1, v1.zoomed(x as int, y as int, f2 as int).2),
        v2.same_except_view(&v1),
        once.zoom_spec() == v.zoomed(x as int, y as int, fx_mul(f1 as int, f2 as int)).0,
        once.offset_spec() == (v.zoomed(x as int, y as int, fx_mul(f1 as int, f2 as int)).1,
            v.zoomed(x as int, y as int, fx_mul(f1 as int, f2 as int)).2),
        once.same_except_view(&v),
    ensures
        (ONE as int) * abs(v2.zoom_spec() - once.zoom_spec()) < ONE + f2 + v.zoom_spec(),
        abs(v2.offset_spec().0 - once.offset_spec().0) <= 2 * abs(v2.zoom_spec() - once.zoom_spec()) + 1,
        abs(v2.offset_spec().1 - once.offset_spec().1) <= 2 * abs(v2.zoom_spec() - once.zoom_spec()) + 1,
{
    v.lemma_wf_facts();
    lemma_axis_ratio_bound(x as int, v.width_spec() as int);
    lemma_axis_ratio_bound(y as int, v.height_spec() as int);
    lemma_zoom_twice_zoom(v.zoom_spec(), f1 as int, f2 as int);
    lemma_offset_drift(axis_ratio(x as int, v.width_spec() as int), v2.zoom_spec(), once.zoom_spec());
    lemma_offset_drift(axis_ratio(y as int, v.height_spec() as int), v2.zoom_spec(), once.zoom_spec());
}

proof fn lemma_offset_drift(r: int, a: int, b: int)
    requires
        abs(r) <= 2 * ONE,
    ensures
        abs(fx_mul(r, a) - fx_mul(r, b)) <= 2 * abs(a - b) + 1,
{
    let o = ONE as int;
    crate::fixed::lemma_trunc_div_error(r * a, o);
    crate::fixed::lemma_trunc_div_error(r * b, o);
    assert(abs(r * a - r * b) <= 2 * o * abs(a - b)) by (nonlinear_arith)
        requires abs(r) <= 2 * o, o > 0;
    let d = fx_mul(r, a) - fx_mul(r, b);
    assert(o * abs(d) < 2 * o * abs(a - b) + 2 * o) by (nonlinear_arith)
        requires
            abs(r * a - o * fx_mul(r, a)) < o,
            abs(r * b - o * fx_mul(r, b)) < o,
            abs(r * a - r * b) <= 2 * o * abs(a - b),
            d == fx_mul(r, a) - fx_mul(r, b),
            o > 0;
    assert(abs(d) <= 2 * abs(a - b) + 1) by (nonlinear_arith)
        requires o * abs(d) < 2 * o * abs(a - b) + 2 * o, o > 0;
}

/// The frame depends on the size, zoom, offset and rule alone: two views that agree
/// on them draw the same bytes, so a second `draw` with nothing changed in between
/// repeats the first.
pub proof fn lemma_draw_repeatable(a: ViewState, b: ViewState, max_iterations: nat, escape_radius: int)
    requires
        a.width_spec() == b.width_spec(),
        a.height_spec() == b.height_spec(),
        a.zoom_spec() == b.zoom_spec(),
        a.offset_spec() == b.offset_spec(),
        a.fractal_spec() == b.fractal_spec(),
    ensures
        a.image_spec(max_iterations, escape_radius) == b.image_spec(max_iterations, escape_radius),
{
    assert(a.image_spec(max_iterations, escape_radius) =~= b.image_spec(max_iterations, escape_radius));
}

} // verus!
