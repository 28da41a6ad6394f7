use fractal_view::color::{color_for, hsv_to_rgb, log2_fixed_exec, Rgba, HUE_TURN};
use fractal_view::fixed::{Complex, ONE};
use fractal_view::fractals::{
    create_fractal, BurningShip, Fractal, FractalType, Julia, JuliaParams, Mandelbrot, SierpinskiCarpet,
    JULIA_C_IM, JULIA_C_RE,
};
use fractal_view::view::{ViewError, ViewState};

fn view(w: u32, h: u32, t: FractalType) -> ViewState {
    match ViewState::new(w, h, t) {
        Ok(v) => v,
        Err(e) => panic!("view not made: {:?}", e),
    }
}

fn pixel(buf: &[u8], w: u32, x: u32, y: u32) -> [u8; 4] {
    let i = ((y * w + x) * 4) as usize;
    [buf[i], buf[i + 1], buf[i + 2], buf[i + 3]]
}

#[test]
fn end_to_end_mandelbrot_100() {
    let mut v = view(100, 100, FractalType::Mandelbrot);
    let buf = v.draw(50, 4 * ONE);
    assert_eq!(buf.len(), 100 * 100 * 4);
    assert_eq!(pixel(&buf, 100, 50, 50), [0, 0, 0, 255]);
    let corner = v.map_to_complex(0, 0);
    assert_eq!(corner, Complex { re: -2 * ONE, im: -2 * ONE });
    assert!(Mandelbrot.calculate(corner, 50, 4 * ONE) <= 2);
    assert_ne!(pixel(&buf, 100, 0, 0), [0, 0, 0, 255]);
}

#[test]
fn map_to_complex_centre_and_edges() {
    let v = view(100, 80, FractalType::Mandelbrot);
    assert_eq!(v.map_to_complex(50, 40), Complex { re: 0, im: 0 });
    assert_eq!(v.map_to_complex(100, 80), Complex { re: 2 * ONE, im: 2 * ONE });
    assert_eq!(v.map_to_complex(75, 20), Complex { re: ONE, im: -ONE });
    assert_eq!(v.map_to_complex(75, 20), v.map_to_complex(75, 20));
}

#[test]
fn zoom_at_keeps_the_point_under_the_cursor() {
    let mut v = view(64, 48, FractalType::Julia);
    let before = v.map_to_complex(10, 7);
    assert_eq!(v.zoom_at(10, 7, ONE / 2), Ok(()));
    assert_eq!(v.map_to_complex(10, 7), before);
    assert_ne!(v.map_to_complex(0, 0), before);
    let before = v.map_to_complex(60, 40);
    assert_eq!(v.zoom_at(60, 40, 3 * ONE), Ok(()));
    assert_eq!(v.map_to_complex(60, 40), before);
}

#[test]
fn zoom_at_halves_the_span() {
    let mut v = view(100, 100, FractalType::Mandelbrot);
    assert_eq!(v.zoom_at(50, 50, ONE / 2), Ok(()));
    assert_eq!(v.map_to_complex(100, 100), Complex { re: ONE, im: ONE });
}

#[test]
fn zoom_at_errors() {
    let mut v = view(10, 10, FractalType::Mandelbrot);
    let p = v.map_to_complex(3, 3);
    assert_eq!(v.zoom_at(3, 3, 0), Err(ViewError::InvalidFactor));
    assert_eq!(v.zoom_at(3, 3, -ONE), Err(ViewError::InvalidFactor));
    assert_eq!(v.zoom_at(11, 3, ONE), Err(ViewError::OutsideImage));
    assert_eq!(v.zoom_at(3, 11, ONE), Err(ViewError::OutsideImage));
    assert_eq!(v.zoom_at(3, 3, 1000 * ONE), Err(ViewError::OutOfRange));
    assert_eq!(v.map_to_complex(3, 3), p);
}

#[test]
fn pan_twice_matches_pan_by_sum() {
    let mut a = view(40, 40, FractalType::Mandelbrot);
    let mut b = view(40, 40, FractalType::Mandelbrot);
    assert_eq!(a.pan(ONE / 3, -ONE / 7), Ok(()));
    assert_eq!(a.pan(ONE / 5, ONE / 11), Ok(()));
    assert_eq!(b.pan(ONE / 3 + ONE / 5, -ONE / 7 + ONE / 11), Ok(()));
    assert_eq!(a.map_to_complex(20, 20), b.map_to_complex(20, 20));

    let mut c = view(40, 40, FractalType::Mandelbrot);
    let mut d = view(40, 40, FractalType::Mandelbrot);
    assert_eq!(c.zoom_at(20, 20, ONE / 3), Ok(()));
    assert_eq!(d.zoom_at(20, 20, ONE / 3), Ok(()));
    assert_eq!(c.pan(12345, -777), Ok(()));
    assert_eq!(c.pan(9999, 31), Ok(()));
    assert_eq!(d.pan(12345 + 9999, -777 + 31), Ok(()));
    let p = c.map_to_complex(20, 20);
    let q = d.map_to_complex(20, 20);
    assert!((p.re - q.re).abs() <= 2 && (p.im - q.im).abs() <= 2);
}

#[test]
fn pan_scales_with_zoom() {
    let mut v = view(40, 40, FractalType::Mandelbrot);
    assert_eq!(v.pan(ONE, -2 * ONE), Ok(()));
    assert_eq!(v.map_to_complex(20, 20), Complex { re: ONE, im: -2 * ONE });
    assert_eq!(v.zoom_at(20, 20, 2 * ONE), Ok(()));
    assert_eq!(v.pan(ONE, 0), Ok(()));
    assert_eq!(v.map_to_complex(20, 20), Complex { re: 3 * ONE, im: -2 * ONE });
}

#[test]
fn pan_out_of_range_changes_nothing() {
    let mut v = view(40, 40, FractalType::Mandelbrot);
    assert_eq!(v.pan(i64::MAX, 0), Err(ViewError::OutOfRange));
    assert_eq!(v.pan(0, i64::MIN), Err(ViewError::OutOfRange));
    assert_eq!(v.map_to_complex(20, 20), Complex { re: 0, im: 0 });
}

#[test]
fn new_rejects_empty_images() {
    assert!(matches!(ViewState::new(0, 10, FractalType::Mandelbrot), Err(ViewError::EmptyImage)));
    assert!(matches!(ViewState::new(10, 0, FractalType::Julia), Err(ViewError::EmptyImage)));
    assert!(ViewState::new(1, 1, FractalType::SierpinskiCarpet).is_ok());
}

#[test]
fn mandelbrot_origin_never_escapes() {
    let o = Complex { re: 0, im: 0 };
    for max in [0u32, 1, 7, 100, 1000] {
        assert_eq!(Mandelbrot.calculate(o, max, 4 * ONE), max);
        assert_eq!(Mandelbrot.calculate(o, max, 100 * ONE), max);
    }
}

#[test]
fn mandelbrot_point_two_boundary() {
    let two = Complex { re: 2 * ONE, im: 0 };
    assert_eq!(Mandelbrot.calculate(two, 50, 4 * ONE - 1), 1);
    assert_eq!(Mandelbrot.calculate(two, 50, 3 * ONE), 1);
    assert_eq!(Mandelbrot.calculate(two, 50, 4 * ONE), 2);
    assert_eq!(Mandelbrot.calculate(two, 50, -1), 0);
}

#[test]
fn degenerate_parameters() {
    let c = Complex { re: ONE / 4, im: ONE / 4 };
    assert_eq!(Mandelbrot.calculate(c, 0, 4 * ONE), 0);
    assert_eq!(Mandelbrot.calculate(c, 20, -5), 0);
    assert_eq!(BurningShip.calculate(c, 20, -5), 0);
    let mut v = view(4, 3, FractalType::Mandelbrot);
    let buf = v.draw(0, 4 * ONE);
    assert!(buf.chunks(4).all(|p| p == [0, 0, 0, 255]));
}

#[test]
fn sierpinski_centre_cell() {
    let eps = 1000;
    let c = Complex { re: ONE / 3 + eps, im: ONE / 3 + eps };
    assert_eq!(SierpinskiCarpet.calculate(c, 10, 4 * ONE), 0);
    let second = Complex { re: ONE / 6, im: ONE / 6 };
    assert_eq!(SierpinskiCarpet.calculate(second, 10, 0), 1);
    let outside = Complex { re: ONE / 10, im: ONE / 10 };
    assert_eq!(SierpinskiCarpet.calculate(outside, 1, 0), 1);
    let negative = Complex { re: -ONE / 2, im: ONE / 2 };
    assert_eq!(SierpinskiCarpet.calculate(negative, 30, 0), 30);
}

#[test]
fn julia_and_burning_ship_values() {
    let f = create_fractal(FractalType::Julia);
    let j = Julia { params: JuliaParams { c_re: JULIA_C_RE, c_im: JULIA_C_IM } };
    assert_eq!(f, Fractal::Julia(j));
    let far = Complex { re: 2 * ONE, im: 2 * ONE };
    assert_eq!(j.calculate(far, 100, 4 * ONE), 0);
    let near = Complex { re: 0, im: 0 };
    assert!(j.calculate(near, 100, 4 * ONE) > 0);
    // Burning ship at -1.5: z1 = -1.5, z2 = 2.25 - 1.5 = 0.75, z3 = 0.5625 - 1.5 = -0.9375, ...
    let c = Complex { re: -3 * ONE / 2, im: 0 };
    assert_eq!(BurningShip.calculate(c, 30, 4 * ONE), Mandelbrot.calculate(c, 30, 4 * ONE));
    // At 1 + i the absolute values change the orbit: z2 = (1+i)^2 + c = 1 + 3i escapes.
    let d = Complex { re: ONE, im: ONE };
    assert_eq!(BurningShip.calculate(d, 30, 4 * ONE), 2);
    let e = Complex { re: ONE / 2, im: -ONE };
    assert_ne!(BurningShip.calculate(e, 30, 4 * ONE), Mandelbrot.calculate(e, 30, 4 * ONE));
}

#[test]
fn fractal_enum_dispatch() {
    let c = Complex { re: -ONE, im: ONE / 4 };
    assert_eq!(create_fractal(FractalType::Mandelbrot).calculate(c, 40, 4 * ONE), Mandelbrot.calculate(c, 40, 4 * ONE));
    assert_eq!(create_fractal(FractalType::BurningShip).calculate(c, 40, 4 * ONE), BurningShip.calculate(c, 40, 4 * ONE));
    assert_eq!(
        create_fractal(FractalType::SierpinskiCarpet).calculate(c, 40, 4 * ONE),
        SierpinskiCarpet.calculate(c, 40, 4 * ONE)
    );
    let (n, z) = create_fractal(FractalType::Mandelbrot).escape(Complex { re: 2 * ONE, im: 0 }, 9, 3 * ONE);
    assert_eq!(n, 1);
    assert_eq!(z, Complex { re: 2 * ONE, im: 0 });
}

#[test]
fn interior_is_black() {
    let black = Rgba { r: 0, g: 0, b: 0, a: 255 };
    assert_eq!(color_for(10, 10, Complex { re: 0, im: 0 }), black);
    assert_eq!(color_for(0, 0, Complex { re: 5 * ONE, im: -ONE }), black);
    assert_eq!(color_for(77, 77, Complex { re: 3, im: 9 }), black);
}

#[test]
fn smooth_color_values() {
    // |z| = 2: log2 = 1, smooth = 0 + 1 - 1 = 0, hue 0.
    assert_eq!(color_for(0, 10, Complex { re: 2 * ONE, im: 0 }), Rgba { r: 229, g: 45, b: 45, a: 255 });
    // |z| <= 1 counts as 1: smooth = 1 + 1 = 2 of 12, hue 60.
    assert_eq!(color_for(1, 12, Complex { re: ONE / 2, im: 0 }), Rgba { r: 229, g: 229, b: 45, a: 255 });
    // |z| = 4: smooth = 3 + 1 - 2 = 2 of 6, hue 120.
    assert_eq!(color_for(3, 6, Complex { re: 0, im: 4 * ONE }), Rgba { r: 45, g: 229, b: 45, a: 255 });
    // |z| = 2: smooth = 4 + 1 - 1 = 4 of 5, hue 288 in sector 4.
    assert_eq!(color_for(4, 5, Complex { re: 2 * ONE, im: 0 }), Rgba { r: 192, g: 45, b: 229, a: 255 });
    // smooth = 3 + 1 = 4 of 4: hue 360 wraps to 0.
    assert_eq!(color_for(3, 4, Complex { re: 0, im: 0 }), Rgba { r: 229, g: 45, b: 45, a: 255 });
}

#[test]
fn hsv_sectors() {
    let deg = |d: i128| d * (ONE as i128);
    assert_eq!(hsv_to_rgb(0), (229, 45, 45));
    assert_eq!(hsv_to_rgb(deg(60)), (229, 229, 45));
    assert_eq!(hsv_to_rgb(deg(120)), (45, 229, 45));
    assert_eq!(hsv_to_rgb(deg(180)), (45, 229, 229));
    assert_eq!(hsv_to_rgb(deg(240)), (45, 45, 229));
    assert_eq!(hsv_to_rgb(deg(300)), (229, 45, 229));
    // Halfway up sector 0: 0.72 * 0.5 + 0.18 = 0.54, times 255 is 137.7.
    assert_eq!(hsv_to_rgb(deg(30)), (229, 137, 45));
    assert_eq!(hsv_to_rgb(HUE_TURN - 1).0, 229);
}

#[test]
fn log2_exact_powers() {
    let one = ONE as i128;
    assert_eq!(log2_fixed_exec(one), 0);
    assert_eq!(log2_fixed_exec(2 * one), one);
    assert_eq!(log2_fixed_exec(8 * one), 3 * one);
    assert_eq!(log2_fixed_exec(1024 * one), 10 * one);
    let sqrt2 = 6074001000i128;
    let l = log2_fixed_exec(sqrt2);
    assert!((l - one / 2).abs() < 16);
}

#[test]
fn draw_twice_is_identical_and_sized() {
    for t in [FractalType::Mandelbrot, FractalType::Julia, FractalType::BurningShip, FractalType::SierpinskiCarpet] {
        let mut v = view(17, 9, t);
        let a = v.draw(30, 4 * ONE);
        let b = v.draw(30, 4 * ONE);
        assert_eq!(a.len(), 17 * 9 * 4);
        assert_eq!(a, b);
        assert!(a.chunks(4).all(|p| p[3] == 255));
    }
}

#[test]
fn draw_rows_match_render_row() {
    let mut v = view(12, 5, FractalType::Julia);
    let buf = v.draw(25, 4 * ONE);
    for y in 0..5u32 {
        let row = v.render_row(y, 25, 4 * ONE);
        assert_eq!(row.len(), 48);
        assert_eq!(&buf[(y as usize) * 48..(y as usize + 1) * 48], &row[..]);
    }
}

#[test]
fn draw_pixel_follows_rule_and_color() {
    let mut v = view(30, 20, FractalType::Mandelbrot);
    let buf = v.draw(40, 4 * ONE);
    for (x, y) in [(0u32, 0u32), (3, 17), (15, 10), (29, 19), (7, 4)] {
        let c = v.map_to_complex(x, y);
        let (n, z) = Fractal::Mandelbrot(Mandelbrot).escape(c, 40, 4 * ONE);
        let col = color_for(n, 40, z);
        assert_eq!(pixel(&buf, 30, x, y), [col.r, col.g, col.b, col.a]);
    }
}

#[test]
fn end_to_end_corner_colour() {
    let mut v = view(100, 100, FractalType::Mandelbrot);
    let buf = v.draw(50, 4 * ONE);
    // Iteration 1, |z| = sqrt 8, smooth 0.5, hue 3.6.
    assert_eq!(pixel(&buf, 100, 0, 0), [229, 56, 45, 255]);
    assert_eq!(&buf[20200..20204], &[0, 0, 0, 255]);
}

#[test]
fn map_to_complex_100_square() {
    let v = view(100, 100, FractalType::Mandelbrot);
    assert_eq!(v.map_to_complex(50, 50), Complex { re: 0, im: 0 });
    assert_eq!(v.map_to_complex(0, 0), Complex { re: -2 * ONE, im: -2 * ONE });
    assert_eq!(v.map_to_complex(75, 25), Complex { re: ONE, im: -ONE });
}

#[test]
fn zoom_at_corner_by_half() {
    let mut v = view(100, 100, FractalType::Mandelbrot);
    assert_eq!(v.zoom_at(0, 0, ONE / 2), Ok(()));
    assert_eq!(v.map_to_complex(0, 0), Complex { re: -2 * ONE, im: -2 * ONE });
    assert_eq!(v.map_to_complex(50, 50), Complex { re: -ONE, im: -ONE });
    assert_eq!(v.map_to_complex(100, 100), Complex { re: 0, im: 0 });
}

#[test]
fn zoom_twice_close_to_once() {
    let mut a = view(64, 64, FractalType::Mandelbrot);
    let mut b = view(64, 64, FractalType::Mandelbrot);
    assert_eq!(a.zoom_at(5, 9, ONE / 3), Ok(()));
    assert_eq!(a.zoom_at(5, 9, 5 * ONE / 7), Ok(()));
    let f = ((ONE as i128) / 3 * (5 * ONE as i128 / 7) / ONE as i128) as i64;
    assert_eq!(b.zoom_at(5, 9, f), Ok(()));
    let p = a.map_to_complex(60, 60);
    let q = b.map_to_complex(60, 60);
    assert!((p.re - q.re).abs() <= 8 && (p.im - q.im).abs() <= 8);
    assert_eq!(a.map_to_complex(5, 9), b.map_to_complex(5, 9));
}

#[test]
fn pan_order_does_not_matter() {
    let mut a = view(30, 30, FractalType::Mandelbrot);
    let mut b = view(30, 30, FractalType::Mandelbrot);
    assert_eq!(a.zoom_at(15, 15, ONE / 7), Ok(()));
    assert_eq!(b.zoom_at(15, 15, ONE / 7), Ok(()));
    assert_eq!(a.pan(123456, -98765), Ok(()));
    assert_eq!(a.pan(-5555, 4444), Ok(()));
    assert_eq!(b.pan(-5555, 4444), Ok(()));
    assert_eq!(b.pan(123456, -98765), Ok(()));
    assert_eq!(a.map_to_complex(15, 15), b.map_to_complex(15, 15));
}

#[test]
fn hsv_past_the_last_sector() {
    assert_eq!(hsv_to_rgb(HUE_TURN), (45, 45, 45));
    assert_eq!(hsv_to_rgb(2 * HUE_TURN + 17), (45, 45, 45));
}

#[test]
fn new_gives_cleared_buffer_of_full_size() {
    let mut v = view(7, 3, FractalType::BurningShip);
    assert_eq!(v.width(), 7);
    assert_eq!(v.height(), 3);
    assert_eq!(v.draw(5, 4 * ONE).len(), 7 * 3 * 4);
}
