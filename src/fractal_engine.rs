use vstd::prelude::*;

use crate::log2::{budget_floor, floor_ok, MAX_SEQ_ITER_FACT};
use crate::fractal_complex::{
    abs, cx, map_pixel, pixel_offset, res_of, view_in_limit, Complex, Cx,
    LIMIT, ONE,
};

verus! {

/// Iteration budget of a view at scale 1, and the base of the automatic budget.
pub const INIT_SEQ_ITER: u32 = 75;

/// Iterations added per halving of the view's span by the automatic budget.
pub const SEQ_ITER_FACT_BASE: u32 = 50;

/// Real part of the default center, -0.72 in fixed point.
pub const BASE_CENTER: i128 = -57_044_277_010_270_323_067_351_644_242;

/// Default span of the real axis, 3.3 in fixed point.
pub const BASE_WINDOW: i128 = 261_452_936_297_072_314_058_695_036_109;

/// Span of the imaginary axis that goes with `BASE_WINDOW` on an 800 by 600 canvas.
pub const BASE_WINDOW_IM: i128 = 196_089_702_222_804_235_544_021_277_081;

/// Center of the view after a reset, -0.5 in fixed point.
pub const RESET_CENTER: i128 = -39_614_081_257_132_168_796_771_975_168;

/// Span of the real axis after a reset, 2.66 in fixed point.
pub const RESET_WINDOW: i128 = 210_746_912_287_943_137_998_826_907_894;

pub const BASE_WORKER_COUNT: usize = 1;

/// Default escape threshold, 2 in fixed point.
pub const BASE_CONV_DIST: i128 = 0x2_0000_0000_0000_0000_0000_0000;

/// Quality divisors offered to users.
pub const LODIV_HIGHEST: u32 = 1;

pub const LODIV_FAST: u32 = 2;

pub const LODIV_FASTER: u32 = 3;

pub const LODIV_FASTEST: u32 = 5;

/// How the pixels of a view are computed.
#[derive(Clone, Copy, Debug, PartialEq, Eq, Structural)]
pub enum FractalBackend {
    /// Tile workers on 128-bit fixed-point words with 96 fractional bits.
    F64,
    /// Tile workers on multiple-precision floating-point numbers.
    Rug,
    /// One draw call of a shader on the graphics device.
    Shader,
}

/// Commands to the render supervisor.
#[derive(Clone, Copy, Debug, PartialEq, Eq, Structural)]
pub enum FractalNotif {
    Commence,
    Shutdown,
    Reload,
    ChangeBackend(FractalBackend),
}

/// Why a command was refused; the view is left as it was.
#[derive(Clone, Copy, Debug, PartialEq, Eq, Structural)]
pub enum ViewError {
    /// A canvas side of zero pixels, or one smaller than the quality divisor.
    ZeroSize,
    /// A worker count of zero.
    ZeroWorkers,
    /// A quality divisor of zero, or one larger than a canvas side.
    BadQuality,
    /// A zoom factor with a zero part.
    BadZoom,
    /// A factor of the automatic budget above `MAX_SEQ_ITER_FACT`.
    BadFactor,
    /// A view, pixel or threshold out of the representable range, or a span that
    /// would round to zero.
    OutOfRange,
}

/// The shared description of what is rendered.
#[derive(Clone, Copy, Debug)]
pub struct FractalContext {
    /// Canvas size in pixels.
    pub res: Complex<u32>,
    /// Center of the view, in fixed point.
    pub center: Complex<i128>,
    /// Span of the view on each axis, in fixed point.
    pub window: Complex<i128>,
    pub backend: FractalBackend,
    /// Quality divisor: the canvas is computed at `res / lodiv` and scaled up.
    pub lodiv: u32,
    /// Iteration budget per pixel.
    pub seq_iter: u32,
    /// Whether zooming derives the budget from the span.
    pub auto_seq_iter: bool,
    /// Iterations added per halving of the span by the automatic budget.
    pub auto_seq_iter_fact: u32,
    pub engine_enabled: bool,
    /// Requested number of tile workers.
    pub worker_count: usize,
    /// Escape threshold on `|re| + |im|`, in fixed point.
    pub converge_distance: i128,
    /// Set on a change of canvas size, cleared once buffers are rebuilt.
    pub has_resized: bool,
}

pub open spec fn max_int(a: int, b: int) -> int {
    if a >= b {
        a
    } else {
        b
    }
}

/// `r` is the automatic iteration budget for the span `window` and the factor
/// `factor`: `INIT_SEQ_ITER` for a span of 1 or more, and otherwise `INIT_SEQ_ITER`
/// plus `floor(factor * log2(1 / max(re, im)))` (see `floor_ok`).
pub open spec fn seq_iters_ok(r: int, window: Cx, factor: nat) -> bool {
    let m = max_int(window.0, window.1);
    if m <= 0 || m >= ONE {
        r == INIT_SEQ_ITER
    } else {
        floor_ok(r - INIT_SEQ_ITER, m, factor)
    }
}

/// The automatic iteration budget for `window`; see `seq_iters_ok`.
pub fn seq_iters_formula(window: Complex<i128>, factor: u32) -> (r: u32)
    requires
        factor <= MAX_SEQ_ITER_FACT,
    ensures
        seq_iters_ok(r as int, cx(window), factor as nat),
{
    let m: i128 = if window.re >= window.im {
        window.re
    } else {
        window.im
    };
    if m <= 0 || m >= ONE {
        return INIT_SEQ_ITER;
    }
    let b = budget_floor(m as u128, factor);
    INIT_SEQ_ITER + b as u32
}

/// The span `w` scaled by `num / den`, rounded down.
pub open spec fn scale_span(w: int, num: int, den: int) -> int {
    w * num / den
}

/// The span of the imaginary axis that keeps the aspect ratio of a canvas of
/// `width` by `height` pixels for the real span `re`, rounded down.
pub open spec fn aspect_span(re: int, width: int, height: int) -> int {
    scale_span(re, height, width)
}

/// `w * num / den` for a span `w`, or `None` where it exceeds `LIMIT`. The product is
/// split into the quotient and the remainder of `w` by `den`, so no step leaves 128 bits.
fn scale_checked(w: i128, num: u32, den: u32) -> (r: Option<i128>)
    requires
        0 < w <= LIMIT,
        den > 0,
    ensures
        r.is_some() <==> scale_span(w as int, num as int, den as int) <= LIMIT,
        r.is_some() ==> r.unwrap() as int == scale_span(w as int, num as int, den as int),
        scale_span(w as int, num as int, den as int) >= 0,
{
    let q = w / den as i128;
    let rem = w % den as i128;
    proof {
        assert(scale_span(w as int, num as int, den as int) == q * num + (rem * num) / (den as int)
            && 0 <= rem * num < 0x1_0000_0000_0000_0000 && 0 <= q && (rem * num) / (den as int) >= 0)
            by (nonlinear_arith)
            requires
                q == (w as int) / (den as int),
                rem == (w as int) % (den as int),
                0 < w,
                den > 0,
                den <= 0xFFFF_FFFF,
                num <= 0xFFFF_FFFF,
                num >= 0,
        ;
    }
    if num > 0 && q > LIMIT / num as i128 {
        assert(q * num > LIMIT) by (nonlinear_arith)
            requires
                q > (LIMIT as int) / (num as int),
                num > 0,
        ;
        return None;
    }
    assert(0 <= q * num <= LIMIT) by (nonlinear_arith)
        requires
            num == 0 || q <= (LIMIT as int) / (num as int),
            num >= 0,
            q >= 0,
    ;
    let v = q * num as i128 + (rem * num as i128) / den as i128;
    if v > LIMIT {
        None
    } else {
        Some(v)
    }
}

/// The center that keeps the point under the canvas pixel `coord` where it is when the
/// span becomes `w2`: that point, moved back by the anchor's offset in the new span.
pub open spec fn zoom_center(res: (int, int), center: Cx, window: Cx, coord: (int, int), w2: Cx) -> Cx {
    let p = map_pixel(res, center, window, coord);
    (p.0 + w2.0 / 2 - coord.0 * w2.0 / res.0, p.1 + w2.1 / 2 - (res.1 - coord.1) * w2.1 / res.1)
}

/// Whether both parts of `c` plus the spans `w` stay within `LIMIT`, for values already
/// bounded by a few `LIMIT`s.
fn fits(c: Complex<i128>, w: Complex<i128>) -> (r: bool)
    requires
        abs(c.re as int) <= 4 * LIMIT,
        abs(c.im as int) <= 4 * LIMIT,
        0 <= w.re <= LIMIT,
        0 <= w.im <= LIMIT,
    ensures
        r == view_in_limit(cx(c), cx(w)),
{
    let a_re = if c.re < 0 {
        -c.re
    } else {
        c.re
    };
    let a_im = if c.im < 0 {
        -c.im
    } else {
        c.im
    };
    0 < w.re && 0 < w.im && a_re + w.re <= LIMIT && a_im + w.im <= LIMIT
}

impl FractalContext {
    pub open spec fn wf(&self) -> bool {
        &&& self.res.re > 0
        &&& self.res.im > 0
        &&& 1 <= self.lodiv <= self.res.re
        &&& self.lodiv <= self.res.im
        &&& view_in_limit(cx(self.center), cx(self.window))
        &&& self.worker_count >= 1
        &&& 0 <= self.converge_distance <= LIMIT
        &&& self.auto_seq_iter_fact <= MAX_SEQ_ITER_FACT
    }

    /// Whether the context is well formed; for callers that cannot carry the proof.
    pub fn check_wf(&self) -> (r: bool)
        ensures
            r == self.wf(),
    {
        let c_ok = -LIMIT <= self.center.re && self.center.re <= LIMIT && -LIMIT <= self.center.im
            && self.center.im <= LIMIT && 0 <= self.window.re && self.window.re <= LIMIT && 0
            <= self.window.im && self.window.im <= LIMIT;
        self.res.re > 0 && self.res.im > 0 && 1 <= self.lodiv && self.lodiv <= self.res.re
            && self.lodiv <= self.res.im && c_ok && fits(self.center, self.window)
            && self.worker_count >= 1 && 0 <= self.converge_distance && self.converge_distance <= LIMIT
            && self.auto_seq_iter_fact <= MAX_SEQ_ITER_FACT
    }

    /// The canvas that is computed: the canvas divided by the quality divisor.
    pub open spec fn canvas_spec(&self) -> (int, int) {
        (self.res.re as int / self.lodiv as int, self.res.im as int / self.lodiv as int)
    }

    /// Size in pixels of the computed canvas.
    pub fn canvas(&self) -> (r: Complex<u32>)
        requires
            self.wf(),
        ensures
            (r.re as int, r.im as int) == self.canvas_spec(),
            r.re > 0,
            r.im > 0,
    {
        assert(self.res.re / self.lodiv > 0 && self.res.im / self.lodiv > 0) by (nonlinear_arith)
            requires
                1 <= self.lodiv <= self.res.re,
                self.lodiv <= self.res.im,
        ;
        Complex { re: self.res.re / self.lodiv, im: self.res.im / self.lodiv }
    }

    /// Takes a new canvas size: the real span is kept and the imaginary span follows
    /// the new aspect ratio; the buffers are marked for rebuilding. Refused, with the
    /// context unchanged, for a side under the quality divisor (`ZeroSize`) or a span
    /// that rounds to zero or leaves the range (`OutOfRange`).
    pub fn resize(&mut self, width: u32, height: u32) -> (r: Result<(), ViewError>)
        requires
            old(self).wf(),
        ensures
            final(self).wf(),
            (width < old(self).lodiv || height < old(self).lodiv) <==> r == Err::<(), ViewError>(
                ViewError::ZeroSize,
            ),
            r == Err::<(), ViewError>(ViewError::OutOfRange) <==> (width >= old(self).lodiv
                && height >= old(self).lodiv && !(0 < aspect_span(
                old(self).window.re as int,
                width as int,
                height as int,
            ) && abs(old(self).center.im as int) + aspect_span(
                old(self).window.re as int,
                width as int,
                height as int,
            ) <= LIMIT)),
            r.is_ok() <==> (width >= old(self).lodiv && height >= old(self).lodiv && 0 < aspect_span(
                old(self).window.re as int,
                width as int,
                height as int,
            ) && abs(old(self).center.im as int) + aspect_span(
                old(self).window.re as int,
                width as int,
                height as int,
            ) <= LIMIT),
            r.is_err() ==> *final(self) == *old(self),
            r.is_ok() ==> final(self).window.re == old(self).window.re && final(self).center == old(
                self,
            ).center,
            r.is_ok() ==> *final(self) == (FractalContext {
                res: Complex { re: width, im: height },
                window: Complex {
                    re: old(self).window.re,
                    im: aspect_span(old(self).window.re as int, width as int, height as int) as i128,
                },
                has_resized: true,
                ..*old(self)
            }),
            r.is_ok() ==> final(self).window.im * width <= final(self).window.re * height
                < (final(self).window.im + 1) * width,
    {
        if width < self.lodiv || height < self.lodiv {
            return Err(ViewError::ZeroSize);
        }
        let im = match scale_checked(self.window.re, height, width) {
            Some(v) => v,
            None => return Err(ViewError::OutOfRange),
        };
        let c_im = if self.center.im < 0 {
            -self.center.im
        } else {
            self.center.im
        };
        if !(0 < im && c_im + im <= LIMIT) {
            return Err(ViewError::OutOfRange);
        }
        self.res = Complex { re: width, im: height };
        self.window.im = im;
        self.has_resized = true;
        assert(im * width <= self.window.re * height < (im + 1) * width) by (nonlinear_arith)
            requires
                im == (self.window.re * height as int) / (width as int),
                width >= 1,
        ;
        Ok(())
    }

    /// Centers the view on the point under the canvas pixel `(x, y)`. Refused with
    /// `OutOfRange`, the context unchanged, for a pixel off the canvas or a view that
    /// would leave the range.
    pub fn move_window_from_mouse_pos(&mut self, x: u32, y: u32) -> (r: Result<(), ViewError>)
        requires
            old(self).wf(),
        ensures
            final(self).wf(),
            r.is_ok() <==> x <= old(self).res.re && y <= old(self).res.im && view_in_limit(
                map_pixel(res_of(old(self).res), cx(old(self).center), cx(old(self).window), (x as int, y as int)),
                cx(old(self).window),
            ),
            r.is_err() ==> r == Err::<(), ViewError>(ViewError::OutOfRange) && *final(self) == *old(self),
            r.is_ok() ==> *final(self) == (FractalContext {
                center: final(self).center,
                ..*old(self)
            }) && cx(final(self).center) == map_pixel(
                res_of(old(self).res),
                cx(old(self).center),
                cx(old(self).window),
                (x as int, y as int),
            ),
    {
        if x > self.res.re || y > self.res.im {
            return Err(ViewError::OutOfRange);
        }
        let c = Complex::map_pixel_value_f64(self.res, self.center, self.window, Complex { re: x, im: y });
        if !fits(c, self.window) {
            return Err(ViewError::OutOfRange);
        }
        self.center = c;
        Ok(())
    }
}

impl FractalContext {
    /// `s` is the iteration budget after the span became `window`: derived from it
    /// when the automatic budget is on, else the budget kept.
    pub open spec fn budget_after(&self, s: u32, window: Cx) -> bool {
        if self.auto_seq_iter {
            seq_iters_ok(s as int, window, self.auto_seq_iter_fact as nat)
        } else {
            s == self.seq_iter
        }
    }

    /// Scales the view by `num / den` (above 1 zooms out, below 1 zooms in) around
    /// the canvas pixel `(x, y)`: the point under that pixel stays under it, and the
    /// center follows. With the automatic budget on, the iteration budget follows the
    /// new span. Refused, the context unchanged, for a zero part of the factor
    /// (`BadZoom`), or for a pixel off the canvas or a view that would leave the range
    /// (`OutOfRange`).
    pub fn zoom_view_scrollwheel(&mut self, num: u32, den: u32, x: u32, y: u32) -> (r: Result<
        (),
        ViewError,
    >)
        requires
            old(self).wf(),
        ensures
            final(self).wf(),
            (num == 0 || den == 0) <==> r == Err::<(), ViewError>(ViewError::BadZoom),
            r.is_err() ==> *final(self) == *old(self),
            ({
                let o = *old(self);
                let w = (
                    scale_span(o.window.re as int, num as int, den as int),
                    scale_span(o.window.im as int, num as int, den as int),
                );
                let c = zoom_center(res_of(o.res), cx(o.center), cx(o.window), (x as int, y as int), w);
                &&& r.is_ok() <==> num > 0 && den > 0 && x <= o.res.re && y <= o.res.im
                    && view_in_limit(c, w)
                &&& r.is_ok() ==> cx(final(self).center) == c && cx(final(self).window) == w
                    && o.budget_after(final(self).seq_iter, w) && *final(self) == (FractalContext {
                    center: final(self).center,
                    window: final(self).window,
                    seq_iter: final(self).seq_iter,
                    ..o
                })
                &&& r.is_ok() ==> map_pixel(res_of(o.res), c, w, (x as int, y as int)) == map_pixel(
                    res_of(o.res),
                    cx(o.center),
                    cx(o.window),
                    (x as int, y as int),
                )
            }),
    {
        if num == 0 || den == 0 {
            return Err(ViewError::BadZoom);
        }
        if x > self.res.re || y > self.res.im {
            return Err(ViewError::OutOfRange);
        }
        let w_re = match scale_checked(self.window.re, num, den) {
            Some(v) => v,
            None => return Err(ViewError::OutOfRange),
        };
        let w_im = match scale_checked(self.window.im, num, den) {
            Some(v) => v,
            None => return Err(ViewError::OutOfRange),
        };
        if w_re == 0 || w_im == 0 {
            return Err(ViewError::OutOfRange);
        }
        let p = Complex::map_pixel_value_f64(self.res, self.center, self.window, Complex { re: x, im: y });
        let off_re = pixel_offset(x, w_re, self.res.re);
        let off_im = pixel_offset(self.res.im - y, w_im, self.res.im);
        let c = Complex { re: p.re + w_re / 2 - off_re, im: p.im + w_im / 2 - off_im };
        let w = Complex { re: w_re, im: w_im };
        if !fits(c, w) {
            return Err(ViewError::OutOfRange);
        }
        self.center = c;
        self.window = w;
        if self.auto_seq_iter {
            self.seq_iter = seq_iters_formula(self.window, self.auto_seq_iter_fact);
        }
        Ok(())
    }

    /// Scales the view by `num / den` around its center; see `zoom_view_scrollwheel`.
    pub fn zoom_view(&mut self, num: u32, den: u32) -> (r: Result<(), ViewError>)
        requires
            old(self).wf(),
        ensures
            final(self).wf(),
            (num == 0 || den == 0) <==> r == Err::<(), ViewError>(ViewError::BadZoom),
            r.is_err() ==> *final(self) == *old(self),
            ({
                let o = *old(self);
                let w = (
                    scale_span(o.window.re as int, num as int, den as int),
                    scale_span(o.window.im as int, num as int, den as int),
                );
                &&& r.is_ok() <==> num > 0 && den > 0 && view_in_limit(cx(o.center), w)
                &&& r.is_ok() ==> cx(final(self).window) == w && o.budget_after(final(self).seq_iter, w)
                    && *final(self) == (FractalContext {
                    window: final(self).window,
                    seq_iter: final(self).seq_iter,
                    ..o
                })
            }),
    {
        if num == 0 || den == 0 {
            return Err(ViewError::BadZoom);
        }
        let w_re = match scale_checked(self.window.re, num, den) {
            Some(v) => v,
            None => return Err(ViewError::OutOfRange),
        };
        let w_im = match scale_checked(self.window.im, num, den) {
            Some(v) => v,
            None => return Err(ViewError::OutOfRange),
        };
        let w = Complex { re: w_re, im: w_im };
        if !fits(self.center, w) {
            return Err(ViewError::OutOfRange);
        }
        self.window = w;
        if self.auto_seq_iter {
            self.seq_iter = seq_iters_formula(self.window, self.auto_seq_iter_fact);
        }
        Ok(())
    }
}

impl Default for FractalContext {
    /// An 800 by 600 canvas on the span 3.3 around -0.72, drawn by the shader, at full
    /// quality, with one worker, the automatic budget and a threshold of 2.
    fn default() -> (r: Self)
        ensures
            r.wf(),
            r.res == (Complex { re: 800u32, im: 600u32 }),
            r.center == (Complex { re: BASE_CENTER, im: 0i128 }),
            r.window == (Complex { re: BASE_WINDOW, im: BASE_WINDOW_IM }),
            r.window.im as int == aspect_span(BASE_WINDOW as int, 800, 600),
            r.backend == FractalBackend::Shader,
            r.lodiv == LODIV_HIGHEST,
            r.seq_iter == INIT_SEQ_ITER,
            r.auto_seq_iter,
            r.auto_seq_iter_fact == SEQ_ITER_FACT_BASE,
            r.engine_enabled,
            r.worker_count == BASE_WORKER_COUNT,
            r.converge_distance == BASE_CONV_DIST,
            r.has_resized,
    {
        FractalContext {
            res: Complex { re: 800, im: 600 },
            center: Complex { re: BASE_CENTER, im: 0 },
            window: Complex { re: BASE_WINDOW, im: BASE_WINDOW_IM },
            backend: FractalBackend::Shader,
            lodiv: LODIV_HIGHEST,
            seq_iter: INIT_SEQ_ITER,
            auto_seq_iter: true,
            auto_seq_iter_fact: SEQ_ITER_FACT_BASE,
            engine_enabled: true,
            worker_count: BASE_WORKER_COUNT,
            converge_distance: BASE_CONV_DIST,
            has_resized: true,
        }
    }
}

impl FractalContext {
    /// Sets the span to 2.66 on the real axis and the canvas's aspect ratio on the
    /// imaginary one. Refused with `OutOfRange`, the context unchanged, where that view
    /// would leave the range.
    pub fn reset_window(&mut self) -> (r: Result<(), ViewError>)
        requires
            old(self).wf(),
        ensures
            final(self).wf(),
            ({
                let o = *old(self);
                let im = aspect_span(RESET_WINDOW as int, o.res.re as int, o.res.im as int);
                &&& r.is_ok() <==> view_in_limit(cx(o.center), (RESET_WINDOW as int, im))
                &&& r.is_err() ==> r == Err::<(), ViewError>(ViewError::OutOfRange) && *final(self) == o
                &&& r.is_ok() ==> *final(self) == (FractalContext {
                    window: Complex { re: RESET_WINDOW, im: im as i128 },
                    ..o
                })
            }),
    {
        let im = match scale_checked(RESET_WINDOW, self.res.im, self.res.re) {
            Some(v) => v,
            None => return Err(ViewError::OutOfRange),
        };
        let w = Complex { re: RESET_WINDOW, im };
        if !fits(self.center, w) {
            return Err(ViewError::OutOfRange);
        }
        self.window = w;
        Ok(())
    }

    /// Centers the view on -0.5 and resets the span; see `reset_window`.
    pub fn reset_view(&mut self) -> (r: Result<(), ViewError>)
        requires
            old(self).wf(),
        ensures
            final(self).wf(),
            ({
                let o = *old(self);
                let im = aspect_span(RESET_WINDOW as int, o.res.re as int, o.res.im as int);
                &&& r.is_ok() <==> 0 < im && im <= LIMIT
                &&& r.is_err() ==> r == Err::<(), ViewError>(ViewError::OutOfRange) && *final(self) == o
                &&& r.is_ok() ==> *final(self) == (FractalContext {
                    center: Complex { re: RESET_CENTER, im: 0 },
                    window: Complex { re: RESET_WINDOW, im: im as i128 },
                    ..o
                })
            }),
    {
        let im = match scale_checked(RESET_WINDOW, self.res.im, self.res.re) {
            Some(v) => v,
            None => return Err(ViewError::OutOfRange),
        };
        if im == 0 {
            return Err(ViewError::OutOfRange);
        }
        self.center = Complex { re: RESET_CENTER, im: 0 };
        self.window = Complex { re: RESET_WINDOW, im };
        Ok(())
    }

    /// Sets the quality divisor and marks the buffers for rebuilding. Refused with
    /// `BadQuality`, the context unchanged, for zero or a divisor above a canvas side.
    pub fn set_lodiv(&mut self, lodiv: u32) -> (r: Result<(), ViewError>)
        requires
            old(self).wf(),
        ensures
            final(self).wf(),
            r.is_ok() <==> 1 <= lodiv <= old(self).res.re && lodiv <= old(self).res.im,
            r.is_err() ==> r == Err::<(), ViewError>(ViewError::BadQuality) && *final(self) == *old(
                self,
            ),
            r.is_ok() ==> *final(self) == (FractalContext { lodiv, has_resized: true, ..*old(self) }),
    {
        if lodiv == 0 || lodiv > self.res.re || lodiv > self.res.im {
            return Err(ViewError::BadQuality);
        }
        self.lodiv = lodiv;
        self.has_resized = true;
        Ok(())
    }

    /// Sets the number of tile workers. Refused with `ZeroWorkers`, the context
    /// unchanged, for zero.
    pub fn set_workers(&mut self, workers: usize) -> (r: Result<(), ViewError>)
        requires
            old(self).wf(),
        ensures
            final(self).wf(),
            r.is_ok() <==> workers >= 1,
            r.is_err() ==> r == Err::<(), ViewError>(ViewError::ZeroWorkers) && *final(self) == *old(
                self,
            ),
            r.is_ok() ==> *final(self) == (FractalContext { worker_count: workers, ..*old(self) }),
    {
        if workers == 0 {
            return Err(ViewError::ZeroWorkers);
        }
        self.worker_count = workers;
        Ok(())
    }

    /// Sets the escape threshold, in fixed point. Refused with `OutOfRange`, the
    /// context unchanged, for a negative threshold or one above `LIMIT`.
    pub fn set_converge_distance(&mut self, converge_distance: i128) -> (r: Result<(), ViewError>)
        requires
            old(self).wf(),
        ensures
            final(self).wf(),
            r.is_ok() <==> 0 <= converge_distance <= LIMIT,
            r.is_err() ==> r == Err::<(), ViewError>(ViewError::OutOfRange) && *final(self) == *old(
                self,
            ),
            r.is_ok() ==> *final(self) == (FractalContext { converge_distance, ..*old(self) }),
    {
        if converge_distance < 0 || converge_distance > LIMIT {
            return Err(ViewError::OutOfRange);
        }
        self.converge_distance = converge_distance;
        Ok(())
    }

    /// Sets the iteration budget.
    pub fn set_seq_iter(&mut self, seq_iter: u32)
        requires
            old(self).wf(),
        ensures
            final(self).wf(),
            *final(self) == (FractalContext { seq_iter, ..*old(self) }),
    {
        self.seq_iter = seq_iter;
    }

    /// Turns the automatic iteration budget on or off.
    pub fn set_auto_seq_iter(&mut self, auto_seq_iter: bool)
        requires
            old(self).wf(),
        ensures
            final(self).wf(),
            *final(self) == (FractalContext { auto_seq_iter, ..*old(self) }),
    {
        self.auto_seq_iter = auto_seq_iter;
    }

    /// Sets the iterations that the automatic budget adds per halving of the span.
    /// Refused with `BadFactor`, the context unchanged, above `MAX_SEQ_ITER_FACT`.
    pub fn set_auto_seq_iter_fact(&mut self, auto_seq_iter_fact: u32) -> (r: Result<(), ViewError>)
        requires
            old(self).wf(),
        ensures
            final(self).wf(),
            r.is_ok() <==> auto_seq_iter_fact <= MAX_SEQ_ITER_FACT,
            r.is_err() ==> r == Err::<(), ViewError>(ViewError::BadFactor) && *final(self) == *old(
                self,
            ),
            r.is_ok() ==> *final(self) == (FractalContext { auto_seq_iter_fact, ..*old(self) }),
    {
        if auto_seq_iter_fact > MAX_SEQ_ITER_FACT {
            return Err(ViewError::BadFactor);
        }
        self.auto_seq_iter_fact = auto_seq_iter_fact;
        Ok(())
    }

    /// Selects the backend; the notification to send to the supervisor comes back.
    pub fn set_backend(&mut self, backend: FractalBackend) -> (r: FractalNotif)
        requires
            old(self).wf(),
        ensures
            final(self).wf(),
            *final(self) == (FractalContext { backend, ..*old(self) }),
            r == FractalNotif::ChangeBackend(backend),
    {
        self.backend = backend;
        FractalNotif::ChangeBackend(backend)
    }

    /// Marks the engine as running; the notification to send comes back.
    pub fn commence(&mut self) -> (r: FractalNotif)
        requires
            old(self).wf(),
        ensures
            final(self).wf(),
            *final(self) == (FractalContext { engine_enabled: true, ..*old(self) }),
            r == FractalNotif::Commence,
    {
        self.engine_enabled = true;
        FractalNotif::Commence
    }

    /// Marks the engine as stopped; the notification to send comes back.
    pub fn shutdown(&mut self) -> (r: FractalNotif)
        requires
            old(self).wf(),
        ensures
            final(self).wf(),
            *final(self) == (FractalContext { engine_enabled: false, ..*old(self) }),
            r == FractalNotif::Shutdown,
    {
        self.engine_enabled = false;
        FractalNotif::Shutdown
    }
}

} // verus!
