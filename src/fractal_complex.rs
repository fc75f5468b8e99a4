use vstd::prelude::*;


verus! {

/// A complex number. The fractal's coordinates are `Complex<i128>` in fixed point:
/// a word `v` stands for the real number `v / ONE`.
#[derive(Clone, Copy, Debug, PartialEq, Eq)]
pub struct Complex<T> {
    pub re: T,
    pub im: T,
}

impl<T> Complex<T> {
    pub fn new(re: T, im: T) -> (r: Self)
        ensures
            r.re == re,
            r.im == im,
    {
        Self { re, im }
    }
}

/// Fractional bits of a fixed-point coordinate.
pub const FRAC_BITS: u32 = 96;

/// The fixed-point word that stands for 1.
pub const ONE: i128 = 0x1_0000_0000_0000_0000_0000_0000;

/// Largest magnitude of a coordinate that the evaluator takes (1024 in real units).
pub const LIMIT: i128 = 0x400_0000_0000_0000_0000_0000_0000;

pub open spec fn abs(x: int) -> int {
    if x < 0 {
        -x
    } else {
        x
    }
}

/// The fixed-point product of `a` and `b`: `a * b / ONE`, rounded toward zero.
pub open spec fn fx_mul(a: int, b: int) -> int {
    if a * b >= 0 {
        (a * b) / (ONE as int)
    } else {
        -((-(a * b)) / (ONE as int))
    }
}

/// A pair of coordinates as mathematical integers.
pub type Cx = (int, int);

pub open spec fn cx(c: Complex<i128>) -> Cx {
    (c.re as int, c.im as int)
}

/// Both parts of `c` lie within `[-LIMIT, LIMIT]`.
pub open spec fn in_limit(c: Cx) -> bool {
    abs(c.0) <= LIMIT && abs(c.1) <= LIMIT
}

/// One step of the recurrence in fixed point: `n * n + c`.
pub open spec fn sq_add(n: Cx, c: Cx) -> Cx {
    (fx_mul(n.0, n.0) - fx_mul(n.1, n.1) + c.0, fx_mul(2 * n.0, n.1) + c.1)
}

/// The escape test's norm: the sum of the absolute values of the parts.
pub open spec fn abs_sum(n: Cx) -> int {
    abs(n.0) + abs(n.1)
}

/// Runs at most `k` steps from `n`, stopping at the first step whose result lies
/// farther than `conv` (in the norm above): the number of steps made, and whether
/// the run stopped that way.
pub open spec fn escape_run(n: Cx, c: Cx, k: nat, conv: int) -> (int, bool)
    decreases k,
{
    if k == 0 {
        (0, false)
    } else {
        let m = sq_add(n, c);
        if abs_sum(m) > conv {
            (1, true)
        } else {
            let r = escape_run(m, c, (k - 1) as nat, conv);
            (r.0 + 1, r.1)
        }
    }
}

/// The escape-time result for the point `c`: the recurrence starts at `n = c`.
pub open spec fn escape_time_spec(c: Cx, max_iter: nat, conv: int) -> (int, bool) {
    escape_run(c, c, max_iter, conv)
}

/// The product of two magnitudes under `2^107`, split into 64-bit halves.
proof fn lemma_split_product(a1: int, a0: int, b1: int, b0: int)
    requires
        0 <= a1 <= 0x800_0000_0000,
        0 <= b1 <= 0x800_0000_0000,
        0 <= a0 < 0x1_0000_0000_0000_0000,
        0 <= b0 < 0x1_0000_0000_0000_0000,
    ensures
        (a1 * 0x1_0000_0000_0000_0000 + a0) * (b1 * 0x1_0000_0000_0000_0000 + b0) == (a1 * b1)
            * 0x1_0000_0000_0000_0000_0000_0000_0000_0000 + (a1 * b0 + a0 * b1)
            * 0x1_0000_0000_0000_0000 + a0 * b0,
        0 <= a1 * b1 <= 0x40_0000_0000_0000_0000_0000,
        0 <= a1 * b0 < 0x800_0000_0000_0000_0000_0000_0000,
        0 <= a0 * b1 < 0x800_0000_0000_0000_0000_0000_0000,
        0 <= a0 * b0 < 0x1_0000_0000_0000_0000_0000_0000_0000_0000,
{
    assert((a1 * 0x1_0000_0000_0000_0000 + a0) * (b1 * 0x1_0000_0000_0000_0000 + b0) == (a1 * b1)
        * 0x1_0000_0000_0000_0000_0000_0000_0000_0000 + (a1 * b0 + a0 * b1) * 0x1_0000_0000_0000_0000
        + a0 * b0) by (nonlinear_arith);
    assert(0 <= a1 * b1 <= 0x40_0000_0000_0000_0000_0000) by (nonlinear_arith)
        requires
            0 <= a1 <= 0x800_0000_0000,
            0 <= b1 <= 0x800_0000_0000,
    ;
    assert(0 <= a1 * b0 < 0x800_0000_0000_0000_0000_0000_0000) by (nonlinear_arith)
        requires
            0 <= a1 <= 0x800_0000_0000,
            0 <= b0 < 0x1_0000_0000_0000_0000,
    ;
    assert(0 <= a0 * b1 < 0x800_0000_0000_0000_0000_0000_0000) by (nonlinear_arith)
        requires
            0 <= b1 <= 0x800_0000_0000,
            0 <= a0 < 0x1_0000_0000_0000_0000,
    ;
    assert(0 <= a0 * b0 < 0x1_0000_0000_0000_0000_0000_0000_0000_0000) by (nonlinear_arith)
        requires
            0 <= a0 < 0x1_0000_0000_0000_0000,
            0 <= b0 < 0x1_0000_0000_0000_0000,
    ;
}

/// `(h * 2^128 + m * 2^64 + l) / 2^96 == h * 2^32 + (m + l / 2^64) / 2^32`.
proof fn lemma_shift_product(h: int, m: int, l: int)
    requires
        0 <= h,
        0 <= m,
        0 <= l < 0x1_0000_0000_0000_0000_0000_0000_0000_0000,
    ensures
        (h * 0x1_0000_0000_0000_0000_0000_0000_0000_0000 + m * 0x1_0000_0000_0000_0000 + l)
            / 0x1_0000_0000_0000_0000_0000_0000 == h * 0x1_0000_0000 + (m + l
            / 0x1_0000_0000_0000_0000) / 0x1_0000_0000,
{
    let lh = l / 0x1_0000_0000_0000_0000;
    let ll = l % 0x1_0000_0000_0000_0000;
    let t = m + lh;
    assert(l == lh * 0x1_0000_0000_0000_0000 + ll && 0 <= ll < 0x1_0000_0000_0000_0000);
    let q = t / 0x1_0000_0000;
    let r = t % 0x1_0000_0000;
    assert(t == q * 0x1_0000_0000 + r && 0 <= r < 0x1_0000_0000);
    let total = h * 0x1_0000_0000_0000_0000_0000_0000_0000_0000 + m * 0x1_0000_0000_0000_0000 + l;
    assert(total == (h * 0x1_0000_0000 + q) * 0x1_0000_0000_0000_0000_0000_0000 + (r
        * 0x1_0000_0000_0000_0000 + ll)) by (nonlinear_arith)
        requires
            l == lh * 0x1_0000_0000_0000_0000 + ll,
            t == m + lh,
            t == q * 0x1_0000_0000 + r,
            total == h * 0x1_0000_0000_0000_0000_0000_0000_0000_0000 + m * 0x1_0000_0000_0000_0000
                + l,
    ;
    assert(0 <= r * 0x1_0000_0000_0000_0000 + ll < 0x1_0000_0000_0000_0000_0000_0000) by (nonlinear_arith)
        requires
            0 <= r < 0x1_0000_0000,
            0 <= ll < 0x1_0000_0000_0000_0000,
    ;
    assert(total / 0x1_0000_0000_0000_0000_0000_0000 == h * 0x1_0000_0000 + q) by (nonlinear_arith)
        requires
            total == (h * 0x1_0000_0000 + q) * 0x1_0000_0000_0000_0000_0000_0000 + (r
                * 0x1_0000_0000_0000_0000 + ll),
            0 <= r * 0x1_0000_0000_0000_0000 + ll < 0x1_0000_0000_0000_0000_0000_0000,
    ;
}

proof fn lemma_div_below(x: int, d: int, a: int)
    requires
        0 <= x <= a * d,
        d > 0,
    ensures
        x / d <= a,
{
    assert(x / d <= a) by (nonlinear_arith)
        requires
            0 <= x <= a * d,
            d > 0,
    ;
}

/// The fixed-point product of two coordinates of magnitude at most `2 * LIMIT`; see
/// `fx_mul`. The 256-bit product is formed from 64-bit halves.
fn mul_fixed(a: i128, b: i128) -> (r: i128)
    requires
        abs(a as int) <= 2 * LIMIT,
        abs(b as int) <= 2 * LIMIT,
    ensures
        r as int == fx_mul(a as int, b as int),
        abs(r as int) <= 0x40_0000_0000_0000_0000_0000_0000_0000,
{
    let ua: u128 = if a < 0 {
        (-a) as u128
    } else {
        a as u128
    };
    let ub: u128 = if b < 0 {
        (-b) as u128
    } else {
        b as u128
    };
    let a1 = ua / 0x1_0000_0000_0000_0000;
    let a0 = ua % 0x1_0000_0000_0000_0000;
    let b1 = ub / 0x1_0000_0000_0000_0000;
    let b0 = ub % 0x1_0000_0000_0000_0000;
    proof {
        lemma_split_product(a1 as int, a0 as int, b1 as int, b0 as int);
    }
    let h = a1 * b1;
    let m = a1 * b0 + a0 * b1;
    let l = a0 * b0;
    let mag = h * 0x1_0000_0000 + (m + l / 0x1_0000_0000_0000_0000) / 0x1_0000_0000;
    proof {
        lemma_shift_product(h as int, m as int, l as int);
        assert(ua as int * ub as int == h * 0x1_0000_0000_0000_0000_0000_0000_0000_0000 + m
            * 0x1_0000_0000_0000_0000 + l);
        assert(mag as int == (ua as int * ub as int) / (ONE as int));
        assert(ua as int * ub as int <= 0x40_0000_0000_0000_0000_0000_0000_0000_0000_0000_0000_0000_0000_0000)
            by (nonlinear_arith)
            requires
                ua <= 0x800_0000_0000_0000_0000_0000_0000,
                ub <= 0x800_0000_0000_0000_0000_0000_0000,
        ;
        assert((a as int) * (b as int) == if (a < 0) == (b < 0) {
            ua as int * ub as int
        } else {
            -(ua as int * ub as int)
        }) by (nonlinear_arith)
            requires
                ua as int == abs(a as int),
                ub as int == abs(b as int),
        ;
        assert(ua as int * ub as int >= 0) by (nonlinear_arith);
        assert(0x40_0000_0000_0000_0000_0000_0000_0000 * (ONE as int) == 0x40_0000_0000_0000_0000_0000_0000_0000_0000_0000_0000_0000_0000_0000);
        lemma_div_below(ua as int * ub as int, ONE as int, 0x40_0000_0000_0000_0000_0000_0000_0000);
        assert(ua as int * ub as int == 0 || (ua > 0 && ub > 0)) by (nonlinear_arith);
        assert(ua > 0 && ub > 0 ==> ua as int * ub as int > 0) by (nonlinear_arith);
    }
    if (a < 0) == (b < 0) {
        mag as i128
    } else {
        -(mag as i128)
    }
}

impl Complex<i128> {
    /// Replaces `self` by `self * self + c`, in fixed point.
    pub fn f_sq_add_f64(&mut self, c: Self)
        requires
            in_limit(cx(*old(self))),
            in_limit(cx(c)),
        ensures
            cx(*final(self)) == sq_add(cx(*old(self)), cx(c)),
            abs(final(self).re as int) <= 0x100_0000_0000_0000_0000_0000_0000_0000,
            abs(final(self).im as int) <= 0x100_0000_0000_0000_0000_0000_0000_0000,
    {
        let rr = mul_fixed(self.re, self.re);
        let ii = mul_fixed(self.im, self.im);
        let ri = mul_fixed(2 * self.re, self.im);
        self.re = rr - ii + c.re;
        self.im = ri + c.im;
    }

    /// The sum of the absolute values of the parts, the norm that the escape test uses.
    pub fn abs_sum_f64(&self) -> (r: i128)
        requires
            abs(self.re as int) <= 0x100_0000_0000_0000_0000_0000_0000_0000,
            abs(self.im as int) <= 0x100_0000_0000_0000_0000_0000_0000_0000,
        ensures
            r as int == abs_sum(cx(*self)),
    {
        let a = if self.re < 0 {
            -self.re
        } else {
            self.re
        };
        let b = if self.im < 0 {
            -self.im
        } else {
            self.im
        };
        a + b
    }
}

/// Runs the recurrence `n <- n * n + c` from `n = c` until `seq_iter` steps are made or
/// the norm of `n` exceeds `converge_distance`: the number of steps, and whether the
/// point escaped.
pub fn escape_time(c: Complex<i128>, seq_iter: u32, converge_distance: i128) -> (r: (u32, bool))
    requires
        in_limit(cx(c)),
        0 <= converge_distance <= LIMIT,
    ensures
        (r.0 as int, r.1) == escape_time_spec(cx(c), seq_iter as nat, converge_distance as int),
        r.0 <= seq_iter,
{
    let mut n = c;
    let mut iter: u32 = 0;
    let mut escaped = false;
    while iter < seq_iter && !escaped
        invariant
            iter <= seq_iter,
            escaped ==> escape_time_spec(cx(c), seq_iter as nat, converge_distance as int) == (
            iter as int, true),
            !escaped ==> in_limit(cx(n)),
            !escaped ==> ({
                let rest = escape_run(cx(n), cx(c), (seq_iter - iter) as nat, converge_distance as int);
                escape_time_spec(cx(c), seq_iter as nat, converge_distance as int) == (
                iter + rest.0, rest.1)
            }),
            0 <= converge_distance <= LIMIT,
            in_limit(cx(c)),
        decreases seq_iter - iter,
    {
        n.f_sq_add_f64(c);
        iter = iter + 1;
        if n.abs_sum_f64() > converge_distance {
            escaped = true;
        }
    }
    (iter, escaped)
}

/// The color of a point that stays in the set.
pub open spec fn black() -> Seq<u8> {
    seq![0u8, 0u8, 0u8, 255u8]
}

/// The red-green-blue gradient at `iter / seq_iter` (clamped to 1), with its green
/// breakpoint at `7 / 20`, each channel rounded to the nearest integer.
pub open spec fn iter_gradient_spec(iter: int, seq_iter: int) -> (int, int, int) {
    if iter >= seq_iter {
        (0, 0, 255)
    } else if 20 * iter <= 7 * seq_iter {
        (
            crate::utils::round_div(255 * (7 * seq_iter - 20 * iter), 7 * seq_iter),
            crate::utils::round_div(255 * 20 * iter, 7 * seq_iter),
            0,
        )
    } else {
        (
            0,
            crate::utils::round_div(255 * (20 * seq_iter - 20 * iter), 13 * seq_iter),
            crate::utils::round_div(255 * (20 * iter - 7 * seq_iter), 13 * seq_iter),
        )
    }
}

pub open spec fn rgba_is(px: Seq<u8>, rgb: (int, int, int)) -> bool {
    px.len() == 4 && px[0] as int == rgb.0 && px[1] as int == rgb.1 && px[2] as int == rgb.2
        && px[3] == 255u8
}

/// Colors an escape count by its share of the iteration budget: red at none, green
/// at 35%, blue at all of it, linear in between; opaque.
pub fn iter_gradient(iter: u32, seq_iter: u32) -> (r: [u8; 4])
    ensures
        rgba_is(r@, iter_gradient_spec(iter as int, seq_iter as int)),
{
    if iter >= seq_iter {
        let px = [0, 0, 255, 255];
        assert(px@[0] == 0 && px@[1] == 0 && px@[2] == 255 && px@[3] == 255);
        return px;
    }
    let it = iter as u128;
    let sq = seq_iter as u128;
    if 20 * it <= 7 * sq {
        let d = 7 * sq;
        let red = crate::utils::round_div_u8(255 * (d - 20 * it), d);
        let twenty_it = 20 * it;
        assert(255 * twenty_it <= 255 * d);
        let green = crate::utils::round_div_u8(255 * twenty_it, d);
        assert(255 * twenty_it == 255 * 20 * (iter as int)) by (nonlinear_arith)
            requires
                twenty_it == 20 * it,
                it == iter,
        ;
        let px = [red, green, 0, 255];
        assert(px@[0] == red && px@[1] == green && px@[2] == 0 && px@[3] == 255);
        px
    } else {
        let d = 13 * sq;
        let green = crate::utils::round_div_u8(255 * (20 * sq - 20 * it), d);
        let blue = crate::utils::round_div_u8(255 * (20 * it - 7 * sq), d);
        let px = [0, green, blue, 255];
        assert(px@[0] == 0 && px@[1] == green && px@[2] == blue && px@[3] == 255);
        px
    }
}

/// The color of one pixel: black when the point did not escape, else its gradient color.
pub open spec fn pixel_color_spec(iter: int, seq_iter: int, escaped: bool) -> Seq<u8> {
    if escaped {
        let g = iter_gradient_spec(iter, seq_iter);
        seq![g.0 as u8, g.1 as u8, g.2 as u8, 255u8]
    } else {
        black()
    }
}

/// The point of the plane at a canvas pixel: the canvas of `res` pixels shows the
/// span `window` around `center`; row 0 is the top, the largest imaginary part.
pub open spec fn map_pixel(res: (int, int), center: Cx, window: Cx, coord: (int, int)) -> Cx {
    (
        center.0 - window.0 / 2 + coord.0 * window.0 / res.0,
        center.1 - window.1 / 2 + (res.1 - coord.1) * window.1 / res.1,
    )
}

/// The canvas pixel of a point of the plane, rounded down: the inverse of `map_pixel`.
pub open spec fn pixel_of(res: (int, int), center: Cx, window: Cx, v: Cx) -> (int, int) {
    (
        (v.0 - center.0 + window.0 / 2) * res.0 / window.0,
        res.1 - (v.1 - center.1 + window.1 / 2) * res.1 / window.1,
    )
}

/// A view whose whole span lies within the evaluator's range.
pub open spec fn view_in_limit(center: Cx, window: Cx) -> bool {
    0 < window.0 && 0 < window.1 && abs(center.0) + window.0 <= LIMIT && abs(center.1)
        + window.1 <= LIMIT
}

pub open spec fn res_of(res: Complex<u32>) -> (int, int) {
    (res.re as int, res.im as int)
}

pub open spec fn coord_of(coord: Complex<u32>) -> (int, int) {
    (coord.re as int, coord.im as int)
}

/// `x * w / r` lies in `[0, w]` for `x` in `[0, r]`.
proof fn lemma_scaled_offset(x: int, w: int, r: int)
    requires
        0 <= x <= r,
        0 < r,
        0 < w,
    ensures
        0 <= x * w / r <= w,
{
    assert(0 <= x * w / r <= w) by (nonlinear_arith)
        requires
            0 <= x <= r,
            0 < r,
            0 < w,
    ;
}

/// `x * w / r` for a pixel `x` of `[0, r]` and a span `w`: a whole share of the span
/// plus the share of its remainder, which keeps every product within 128 bits.
pub(crate) fn pixel_offset(x: u32, w: i128, r: u32) -> (o: i128)
    requires
        0 < w <= LIMIT,
        x <= r,
        r > 0,
    ensures
        o as int == (x as int) * (w as int) / (r as int),
        0 <= o <= w,
{
    let q = w / r as i128;
    let rem = w % r as i128;
    proof {
        lemma_scaled_offset(x as int, w as int, r as int);
        assert((x as int) * (w as int) / (r as int) == x * q + (x * rem) / (r as int)
            && 0 <= x * q <= w && 0 <= x * rem < 0x1_0000_0000_0000_0000) by (nonlinear_arith)
            requires
                q == (w as int) / (r as int),
                rem == (w as int) % (r as int),
                0 < w,
                x <= r,
                r > 0,
                r <= 0xFFFF_FFFF,
        ;
    }
    x as i128 * q + (x as i128 * rem) / r as i128
}

impl Complex<i128> {
    /// The point of the plane that the canvas pixel `coord` shows; see `map_pixel`.
    pub fn map_pixel_value_f64(res: Complex<u32>, center: Self, window: Self, coord: Complex<u32>) -> (r: Self)
        requires
            res.re > 0,
            res.im > 0,
            coord.re <= res.re,
            coord.im <= res.im,
            view_in_limit(cx(center), cx(window)),
        ensures
            cx(r) == map_pixel(res_of(res), cx(center), cx(window), coord_of(coord)),
            in_limit(cx(r)),
    {
        let off_re = pixel_offset(coord.re, window.re, res.re);
        let off_im = pixel_offset(res.im - coord.im, window.im, res.im);
        Complex { re: center.re - window.re / 2 + off_re, im: center.im - window.im / 2 + off_im }
    }
}

/// `floor(floor(x * w / r) * r / w)` is `x` at the ends of `[0, r]`, and within one
/// below `x` in between when `w >= r`.
proof fn lemma_axis_round_trip(x: int, w: int, r: int)
    requires
        0 <= x <= r,
        0 < r,
        0 < w,
    ensures
        (x == 0 || x == r) ==> (x * w / r) * r / w == x,
        w >= r ==> x - 1 <= (x * w / r) * r / w <= x,
        (x * w / r) * r / w <= x,
        (x - (x * w / r) * r / w - 1) * w < r,
{
    let q = x * w / r;
    assert(q * r <= x * w < q * r + r) by (nonlinear_arith)
        requires
            q == x * w / r,
            0 < r,
            0 <= x,
            0 < w,
    ;
    assert(q * r / w <= x) by (nonlinear_arith)
        requires
            q * r <= x * w,
            0 < w,
    ;
    assert((x - q * r / w - 1) * w < r) by (nonlinear_arith)
        requires
            x * w < q * r + r,
            0 < w,
            q * r >= 0,
    ;
    if w >= r {
        assert(x - 1 <= q * r / w) by (nonlinear_arith)
            requires
                x * w < q * r + r,
                r <= w,
                0 < w,
        ;
    }
    if x == 0 {
        assert(q == 0);
        assert(q * r / w == 0);
    }
    if x == r {
        assert(q == w) by (nonlinear_arith)
            requires
                q == x * w / r,
                x == r,
                0 < r,
        ;
        assert(q * r / w == r) by (nonlinear_arith)
            requires
                q == w,
                0 < w,
        ;
    }
}

/// Mapping a canvas pixel to the plane and back gives the pixel again at the canvas's
/// corners and edges. Elsewhere it gives a pixel at most one step above or to the left
/// of it where the span holds at least as many fixed-point steps as the canvas has
/// pixels, and in general one less than `1 + pixels / steps` away, on the same side.
pub proof fn lemma_pixel_round_trip(res: (int, int), center: Cx, window: Cx, coord: (int, int))
    requires
        res.0 > 0,
        res.1 > 0,
        window.0 > 0,
        window.1 > 0,
        0 <= coord.0 <= res.0,
        0 <= coord.1 <= res.1,
    ensures
        ({
            let back = pixel_of(res, center, window, map_pixel(res, center, window, coord));
            &&& (coord.0 == 0 || coord.0 == res.0) ==> back.0 == coord.0
            &&& (coord.1 == 0 || coord.1 == res.1) ==> back.1 == coord.1
            &&& window.0 >= res.0 ==> coord.0 - 1 <= back.0 <= coord.0
            &&& window.1 >= res.1 ==> coord.1 <= back.1 <= coord.1 + 1
            &&& back.0 <= coord.0 && (coord.0 - back.0 - 1) * window.0 < res.0
            &&& coord.1 <= back.1 && (back.1 - coord.1 - 1) * window.1 < res.1
        }),
{
    lemma_axis_round_trip(coord.0, window.0, res.0);
    lemma_axis_round_trip(res.1 - coord.1, window.1, res.1);
}

/// The point 0 never escapes: the recurrence stays at 0, so for any budget and any
/// non-negative threshold every step is made and the point counts as in the set.
pub proof fn lemma_origin_never_escapes(max_iter: nat, conv: int)
    requires
        conv >= 0,
    ensures
        escape_time_spec((0, 0), max_iter, conv) == (max_iter as int, false),
{
    lemma_origin_run(max_iter, conv);
}

proof fn lemma_origin_run(k: nat, conv: int)
    requires
        conv >= 0,
    ensures
        escape_run((0, 0), (0, 0), k, conv) == (k as int, false),
    decreases k,
{
    if k > 0 {
        assert(sq_add((0, 0), (0, 0)) == (0int, 0int));
        lemma_origin_run((k - 1) as nat, conv);
    }
}

proof fn lemma_round_div_exact(k: int, d: int)
    requires
        d > 0,
        k >= 0,
    ensures
        crate::utils::round_div(k * d, d) == k,
{
    assert((2 * (k * d) + d) / (2 * d) == k) by (nonlinear_arith)
        requires
            d > 0,
            k >= 0,
    ;
}

/// The iteration gradient is red at `t = 0`, green at the breakpoint `t = 0.35`, blue
/// at `t = 1`, and a count past the budget is held at `t = 1`. Between, red falls and
/// green rises up to the breakpoint, and after it green falls and blue rises.
pub proof fn lemma_iter_gradient_shape(i1: int, i2: int, seq_iter: int)
    requires
        seq_iter > 0,
        0 <= i1 <= i2,
    ensures
        iter_gradient_spec(0, seq_iter) == (255int, 0int, 0int),
        iter_gradient_spec(seq_iter, seq_iter) == (0int, 0int, 255int),
        i2 >= seq_iter ==> iter_gradient_spec(i2, seq_iter) == iter_gradient_spec(seq_iter, seq_iter),
        20 * i1 == 7 * seq_iter ==> iter_gradient_spec(i1, seq_iter) == (0int, 255int, 0int),
        20 * i2 <= 7 * seq_iter ==> ({
            let a = iter_gradient_spec(i1, seq_iter);
            let b = iter_gradient_spec(i2, seq_iter);
            a.0 >= b.0 && a.1 <= b.1 && a.2 == 0 && b.2 == 0
        }),
        7 * seq_iter < 20 * i1 ==> ({
            let a = iter_gradient_spec(i1, seq_iter);
            let b = iter_gradient_spec(i2, seq_iter);
            a.0 == 0 && b.0 == 0 && a.1 >= b.1 && a.2 <= b.2
        }),
{
    let s = seq_iter;
    lemma_round_div_exact(255, 7 * s);
    lemma_round_div_exact(0, 7 * s);
    assert(255 * (7 * s - 20 * 0) == 255 * (7 * s));
    if 20 * i1 == 7 * s {
        assert(i1 < s);
        assert(255 * (20 * s - 20 * i1) == 255 * (13 * s));
        lemma_round_div_exact(255, 13 * s);
        lemma_round_div_exact(0, 13 * s);
        assert(255 * 20 * i1 == 255 * (7 * s)) by (nonlinear_arith)
            requires
                20 * i1 == 7 * s,
        ;
    }
    if 20 * i2 <= 7 * s {
        assert(i2 < s);
        crate::utils::lemma_round_div_facts(255 * (7 * s - 20 * i2), 255 * (7 * s - 20 * i1), 7 * s);
        assert(0 <= 255 * 20 * i1 <= 255 * 20 * i2) by (nonlinear_arith)
            requires
                0 <= i1 <= i2,
        ;
        crate::utils::lemma_round_div_facts(255 * 20 * i1, 255 * 20 * i2, 7 * s);
    }
    if 7 * s < 20 * i1 {
        if i2 < s {
            crate::utils::lemma_round_div_facts(255 * (20 * s - 20 * i2), 255 * (20 * s - 20 * i1), 13 * s);
            crate::utils::lemma_round_div_facts(255 * (20 * i1 - 7 * s), 255 * (20 * i2 - 7 * s), 13 * s);
        } else if i1 < s {
            crate::utils::lemma_round_div_facts(0, 255 * (20 * s - 20 * i1), 13 * s);
            crate::utils::lemma_round_div_facts(0, 255 * (20 * i1 - 7 * s), 13 * s);
        }
    }
}

} // verus!
