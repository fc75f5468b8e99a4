use mandelbread::fractal_complex::{escape_time, iter_gradient, Complex, LIMIT, ONE};
use mandelbread::worker::pixel_color;

const TWO: i128 = 2 * ONE;

#[test]
fn origin_never_escapes() {
    for budget in [0u32, 1, 10, 75, 1000] {
        assert_eq!(escape_time(Complex::new(0, 0), budget, TWO), (budget, false));
    }
}

#[test]
fn three_escapes_at_once() {
    // 3 * 3 + 3 = 12 lies beyond 2 after the first step
    assert_eq!(escape_time(Complex::new(3 * ONE, 0), 75, TWO), (1, true));
    assert_eq!(escape_time(Complex::new(-3 * ONE, 2 * ONE), 75, TWO), (1, true));
}

#[test]
fn minus_one_cycles() {
    // -1 -> 0 -> -1 -> ... stays bounded
    assert_eq!(escape_time(Complex::new(-ONE, 0), 50, TWO), (50, false));
}

#[test]
fn one_escapes_after_two_steps() {
    // 1 -> 2 (not beyond 2) -> 5
    assert_eq!(escape_time(Complex::new(ONE, 0), 75, TWO), (2, true));
}

#[test]
fn escape_uses_sum_of_absolute_values() {
    // c = 0.9 + 0.9i: c * c + c = 0.9 + 2.52i, whose |re| + |im| = 3.42 exceeds 2
    // (its modulus, about 2.67, would too; c itself has modulus 1.27).
    assert_eq!(escape_time(Complex::new(ONE * 9 / 10, ONE * 9 / 10), 75, TWO), (1, true));
}

#[test]
fn step_squares_and_adds() {
    let mut n = Complex::new(ONE, ONE);
    n.f_sq_add_f64(Complex::new(ONE / 2, -ONE));
    // (1 + i)^2 = 2i; + 0.5 - i = 0.5 + i
    assert_eq!(n, Complex::new(ONE / 2, ONE));
    assert_eq!(n.abs_sum_f64(), (ONE + ONE / 2) as i128);
}

#[test]
fn step_at_the_limit_does_not_overflow() {
    let mut n = Complex::new(LIMIT, -LIMIT);
    n.f_sq_add_f64(Complex::new(-LIMIT, LIMIT));
    assert_eq!(n.re, -LIMIT);
    assert_eq!(n.im, -2 * (LIMIT / ONE) * LIMIT + LIMIT);
}

#[test]
fn iter_gradient_breakpoints() {
    assert_eq!(iter_gradient(0, 100), [255, 0, 0, 255]);
    assert_eq!(iter_gradient(35, 100), [0, 255, 0, 255]);
    assert_eq!(iter_gradient(100, 100), [0, 0, 255, 255]);
    // clamped above the budget
    assert_eq!(iter_gradient(250, 100), [0, 0, 255, 255]);
    // a zero budget counts as the whole budget used
    assert_eq!(iter_gradient(0, 0), [0, 0, 255, 255]);
}

#[test]
fn iter_gradient_rounds_to_nearest() {
    // t = 0.1: 0.1 / 0.35 = 2/7; red 255 * 5/7 = 182.14 -> 182, green 72.86 -> 73
    assert_eq!(iter_gradient(10, 100), [182, 73, 0, 255]);
    // t = 0.675: half way through the second segment, 127.5 -> 128 each
    assert_eq!(iter_gradient(27, 40), [0, 128, 128, 255]);
}

#[test]
fn iter_gradient_is_monotone_within_segments() {
    let mut last = iter_gradient(0, 1000);
    for i in 1..=350u32 {
        let px = iter_gradient(i, 1000);
        assert!(px[0] <= last[0] && px[1] >= last[1] && px[2] == 0);
        last = px;
    }
    for i in 351..=1000u32 {
        let px = iter_gradient(i, 1000);
        assert!(px[0] == 0 && px[1] <= last[1] && px[2] >= last[2]);
        last = px;
    }
}

#[test]
fn pixel_color_black_inside() {
    assert_eq!(pixel_color(75, 75, false), [0, 0, 0, 255]);
    assert_eq!(pixel_color(0, 100, true), [255, 0, 0, 255]);
}

#[test]
fn pixel_mapping_corners() {
    let res = Complex::new(800u32, 600u32);
    let center = Complex::new(-ONE / 2, 0);
    let window = Complex::new(4 * ONE, 3 * ONE);
    let top_left = Complex::map_pixel_value_f64(res, center, window, Complex::new(0, 0));
    assert_eq!(top_left, Complex::new(-ONE / 2 - 2 * ONE, ONE * 3 / 2));
    let bottom_right = Complex::map_pixel_value_f64(res, center, window, Complex::new(800, 600));
    assert_eq!(bottom_right, Complex::new(-ONE / 2 + 2 * ONE, -ONE * 3 / 2));
    let middle = Complex::map_pixel_value_f64(res, center, window, Complex::new(400, 300));
    assert_eq!(middle, center);
}

#[test]
fn pixel_mapping_round_trip() {
    let res = Complex::new(800u32, 600u32);
    let center = Complex::new(-ONE / 3, ONE / 7);
    let window = Complex::new(3 * ONE, 2 * ONE);
    for x in (0..=800u32).step_by(37) {
        for y in (0..=600u32).step_by(41) {
            let v = Complex::map_pixel_value_f64(res, center, window, Complex::new(x, y));
            let bx = (v.re - center.re + window.re / 2) * 800 / window.re;
            let by = 600 - (v.im - center.im + window.im / 2) * 600 / window.im;
            assert!(bx == x as i128 || bx == x as i128 - 1);
            assert!(by == y as i128 || by == y as i128 + 1);
        }
    }
}

#[test]
fn deep_zoom_keeps_neighbouring_pixels_apart() {
    // a span of 1e-20 over 1000 pixels still gives each pixel its own point
    let res = Complex::new(1000u32, 1000u32);
    let window = Complex::new(ONE / 100_000_000_000_000_000_000, ONE / 100_000_000_000_000_000_000);
    let center = Complex::new(-ONE * 3 / 4, ONE / 10);
    let a = Complex::map_pixel_value_f64(res, center, window, Complex::new(500, 500));
    let b = Complex::map_pixel_value_f64(res, center, window, Complex::new(501, 500));
    assert!(b.re > a.re);
    assert_eq!(a.im, b.im);
}
