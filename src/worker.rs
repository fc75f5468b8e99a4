use vstd::prelude::*;

use crate::fractal_complex::{
    black, cx, escape_time, escape_time_spec, iter_gradient, iter_gradient_spec, map_pixel,
    pixel_color_spec, rgba_is, Complex,
};
use crate::fractal_engine::FractalContext;
use crate::tiles::RenderRect;

verus! {

/// Commands to a tile worker.
#[derive(Clone, Copy, Debug, PartialEq, Eq)]
pub enum WorkerNotif {
    /// Take a new band; nothing is computed.
    SetRenderRect(RenderRect),
    /// Compute the band and send the result.
    Reload,
    /// Stop for good.
    Shutdown,
}

/// What a worker sends back after a reload: the band's pixels (RGBA, row by row), the
/// band, and how long the pass took, in nanoseconds.
pub struct WorkerResult {
    pub pixels: Vec<u8>,
    pub rrect: RenderRect,
    pub reload_dur: u64,
}

/// The state of a tile worker between commands.
#[derive(Clone, Copy, Debug, PartialEq, Eq)]
pub enum WorkerState {
    /// Waiting for a command, with its band.
    Idle(RenderRect),
    /// Stopped; it takes no more commands.
    ShutDown,
}

/// What a worker does on a command.
#[derive(Clone, Copy, Debug, PartialEq, Eq)]
pub enum WorkerAction {
    /// Nothing beyond the change of state.
    Nothing,
    /// Compute this band and send the result.
    Compute(RenderRect),
    /// Leave the command loop.
    Exit,
}

/// The worker's next state and action on a command.
pub open spec fn worker_step_spec(state: WorkerState, notif: WorkerNotif) -> (WorkerState, WorkerAction) {
    match state {
        WorkerState::ShutDown => (WorkerState::ShutDown, WorkerAction::Exit),
        WorkerState::Idle(rect) => match notif {
            WorkerNotif::SetRenderRect(r) => (WorkerState::Idle(r), WorkerAction::Nothing),
            WorkerNotif::Reload => (WorkerState::Idle(rect), WorkerAction::Compute(rect)),
            WorkerNotif::Shutdown => (WorkerState::ShutDown, WorkerAction::Exit),
        },
    }
}

/// Steps the worker's state machine: a new band is only stored, a reload computes the
/// current band and leaves the worker idle, and a shutdown ends it.
pub fn worker_step(state: WorkerState, notif: WorkerNotif) -> (r: (WorkerState, WorkerAction))
    ensures
        r == worker_step_spec(state, notif),
{
    match state {
        WorkerState::ShutDown => (WorkerState::ShutDown, WorkerAction::Exit),
        WorkerState::Idle(rect) => match notif {
            WorkerNotif::SetRenderRect(r) => (WorkerState::Idle(r), WorkerAction::Nothing),
            WorkerNotif::Reload => (WorkerState::Idle(rect), WorkerAction::Compute(rect)),
            WorkerNotif::Shutdown => (WorkerState::ShutDown, WorkerAction::Exit),
        },
    }
}

/// The color of a pixel from its escape-time result; see `pixel_color_spec`.
pub fn pixel_color(iter: u32, seq_iter: u32, escaped: bool) -> (r: [u8; 4])
    ensures
        r@ == pixel_color_spec(iter as int, seq_iter as int, escaped),
{
    if escaped {
        let px = iter_gradient(iter, seq_iter);
        assert(px@ =~= pixel_color_spec(iter as int, seq_iter as int, escaped));
        px
    } else {
        let px = [0u8, 0u8, 0u8, 255u8];
        assert(px@ =~= black());
        px
    }
}

/// The band fits in the computed canvas of `ctx`.
pub open spec fn rect_in_canvas(ctx: FractalContext, rect: RenderRect) -> bool {
    rect.left + rect.width <= ctx.canvas_spec().0 && rect.top + rect.height <= ctx.canvas_spec().1
}

/// Whether `compute_image_f64` takes the band `rect` of the well-formed view `ctx`.
pub fn rect_fits(ctx: &FractalContext, rect: RenderRect) -> (r: bool)
    requires
        ctx.wf(),
    ensures
        r == (rect_in_canvas(*ctx, rect) && rect.width as int * rect.height as int * 4 <= usize::MAX),
{
    let canvas = ctx.canvas();
    let fits = rect.left as u64 + rect.width as u64 <= canvas.re as u64 && rect.top as u64
        + rect.height as u64 <= canvas.im as u64;
    proof {
        crate::utils::lemma_mul_bounded(rect.width as int, rect.height as int, 0xFFFF_FFFF, 0xFFFF_FFFF);
    }
    let size = rect.width as u128 * rect.height as u128 * 4;
    fits && size <= usize::MAX as u128
}

/// The color of pixel `k` of the band, counted row by row.
pub open spec fn tile_pixel(ctx: FractalContext, rect: RenderRect, k: int) -> Seq<u8> {
    let c = map_pixel(
        ctx.canvas_spec(),
        cx(ctx.center),
        cx(ctx.window),
        (rect.left + k % (rect.width as int), rect.top + k / (rect.width as int)),
    );
    let e = escape_time_spec(c, ctx.seq_iter as nat, ctx.converge_distance as int);
    pixel_color_spec(e.0, ctx.seq_iter as int, e.1)
}

/// Byte `i` of the band's pixel buffer.
pub open spec fn tile_byte(ctx: FractalContext, rect: RenderRect, i: int) -> u8 {
    tile_pixel(ctx, rect, i / 4)[i % 4]
}

/// Computes the band `rect` of the view `ctx`: for each pixel, row by row, the
/// escape-time result of the point it shows, colored; RGBA, four bytes a pixel.
pub fn compute_image_f64(ctx: &FractalContext, rect: RenderRect) -> (pixels: Vec<u8>)
    requires
        ctx.wf(),
        rect_in_canvas(*ctx, rect),
        rect.width as int * rect.height as int * 4 <= usize::MAX,
    ensures
        pixels@.len() == rect.width as int * rect.height as int * 4,
        forall|i: int| 0 <= i < pixels@.len() ==> pixels@[i] == tile_byte(*ctx, rect, i),
{
    let canvas = ctx.canvas();
    let w = rect.width as usize;
    assert(rect.width as int * rect.height as int <= usize::MAX) by (nonlinear_arith)
        requires
            rect.width as int * rect.height as int * 4 <= usize::MAX,
            rect.width as int * rect.height as int >= 0,
    ;
    let total = w * rect.height as usize;
    let mut pixels: Vec<u8> = Vec::with_capacity(total * 4);
    let mut k: usize = 0;
    while k < total
        invariant
            ctx.wf(),
            rect_in_canvas(*ctx, rect),
            canvas.re as int == ctx.canvas_spec().0,
            canvas.im as int == ctx.canvas_spec().1,
            w == rect.width,
            total == rect.width as int * rect.height as int,
            total * 4 <= usize::MAX,
            k <= total,
            pixels@.len() == 4 * k,
            forall|i: int| 0 <= i < 4 * k ==> pixels@[i] == tile_byte(*ctx, rect, i),
        decreases total - k,
    {
        assert(w > 0) by (nonlinear_arith)
            requires
                k < total,
                total == w * rect.height,
        ;
        assert(k / w < rect.height && k % w < w) by (nonlinear_arith)
            requires
                k < total,
                total == w * rect.height,
                w > 0,
        ;
        let x = rect.left + (k % w) as u32;
        let y = rect.top + (k / w) as u32;
        let c = Complex::map_pixel_value_f64(canvas, ctx.center, ctx.window, Complex { re: x, im: y });
        let (iter, escaped) = escape_time(c, ctx.seq_iter, ctx.converge_distance);
        let px = pixel_color(iter, ctx.seq_iter, escaped);
        assert(px@ == tile_pixel(*ctx, rect, k as int));
        let ghost before = pixels@;
        pixels.push(px[0]);
        pixels.push(px[1]);
        pixels.push(px[2]);
        pixels.push(px[3]);
        assert forall|i: int| 0 <= i < 4 * (k + 1) implies pixels@[i] == tile_byte(*ctx, rect, i) by {
            if i >= 4 * k {
                assert(i / 4 == k && i % 4 == i - 4 * k);
            } else {
                assert(pixels@[i] == before[i]);
            }
        }
        k = k + 1;
    }
    pixels
}

/// Copies a full-width band's pixels into the output buffer of a canvas `out_width`
/// pixels wide: the band's bytes land at the offset of its first row, and the rest
/// of the buffer is left as it was.
pub fn blit(out: &mut Vec<u8>, out_width: u32, result: &WorkerResult)
    requires
        result.rrect.left == 0,
        result.rrect.width == out_width,
        result.pixels@.len() == out_width as int * result.rrect.height as int * 4,
        (result.rrect.top as int + result.rrect.height as int) * out_width as int * 4 <= old(out)@.len(),
    ensures
        final(out)@.len() == old(out)@.len(),
        ({
            let off = result.rrect.top as int * out_width as int * 4;
            forall|i: int|
                0 <= i < final(out)@.len() ==> #[trigger] final(out)@[i] == if off <= i < off
                    + result.pixels@.len() {
                    result.pixels@[i - off]
                } else {
                    old(out)@[i]
                }
        }),
{
    let out_len = out.len();
    let ghost off = result.rrect.top as int * out_width as int * 4;
    assert(off + result.pixels@.len() <= out@.len()) by (nonlinear_arith)
        requires
            off == result.rrect.top as int * out_width as int * 4,
            result.pixels@.len() == out_width as int * result.rrect.height as int * 4,
            (result.rrect.top as int + result.rrect.height as int) * out_width as int * 4 <= out@.len(),
    ;
    assert(result.rrect.top as int * out_width as int <= off && off <= usize::MAX) by (nonlinear_arith)
        requires
            off == result.rrect.top as int * out_width as int * 4,
            result.pixels@.len() >= 0,
            off + result.pixels@.len() <= out@.len(),
            out@.len() <= usize::MAX,
            result.rrect.top >= 0,
            out_width >= 0,
    ;
    let start = result.rrect.top as usize * out_width as usize * 4;
    let n = result.pixels.len();
    let mut j: usize = 0;
    while j < n
        invariant
            start == off,
            n == result.pixels@.len(),
            off + n <= out@.len(),
            out@.len() == old(out)@.len(),
            out@.len() == out_len,
            j <= n,
            forall|i: int|
                0 <= i < out@.len() ==> #[trigger] out@[i] == if off <= i < off + j {
                    result.pixels@[i - off]
                } else {
                    old(out)@[i]
                },
        decreases n - j,
    {
        out.set(start + j, result.pixels[j]);
        j = j + 1;
    }
}

} // verus!
