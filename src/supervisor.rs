use vstd::prelude::*;

use crate::fractal_complex::{
    abs, cx, map_pixel, pixel_color_spec, res_of, view_in_limit, Complex, LIMIT,
};
use crate::fractal_engine::{
    aspect_span, scale_span, zoom_center, FractalBackend, FractalContext, FractalNotif, ViewError,
};
use crate::pool::WorkerPool;
use crate::tiles::{
    band_height, band_top, in_band, lemma_tiles_partition, row_owner, tile_rects, tile_spec, RenderRect,
};
use crate::worker::{blit, WorkerResult};

verus! {

/// Zoom factor of one scroll step, as `ZOOM_NUM / ZOOM_DEN` outward (1.1).
pub const ZOOM_NUM: u32 = 11;

pub const ZOOM_DEN: u32 = 10;

/// Window events, as the window layer reports them.
#[derive(Clone, Copy, Debug, PartialEq, Eq)]
pub enum WindowEvent {
    Closed,
    Resized { width: u32, height: u32 },
    /// The left mouse button released over pixel `(x, y)`.
    LeftReleased { x: i32, y: i32 },
    /// One step of the scroll wheel over pixel `(x, y)`; `up` zooms in.
    Scrolled { up: bool, x: i32, y: i32 },
    Other,
}

/// What the supervisor does after an event or a notification.
#[derive(Clone, Copy, Debug, PartialEq, Eq)]
pub enum Reaction {
    Nothing,
    Reload,
    Shutdown,
}

/// How a reload is carried out.
#[derive(Clone, Copy, Debug, PartialEq, Eq)]
pub enum ReloadPath {
    /// Fan out to the tile workers and gather their bands.
    Workers,
    /// One draw call of the shader.
    Shader,
}

/// The reaction to a command's outcome: a change of view is followed by a reload, and a
/// refused command changes nothing.
pub open spec fn reaction_of(r: Result<(), ViewError>) -> Reaction {
    if r.is_ok() {
        Reaction::Reload
    } else {
        Reaction::Nothing
    }
}

fn reaction(r: Result<(), ViewError>) -> (out: Reaction)
    ensures
        out == reaction_of(r),
{
    match r {
        Ok(()) => Reaction::Reload,
        Err(_) => Reaction::Nothing,
    }
}

/// Applies a window event to the view: a close shuts down; a resize, a click (which
/// centers the view on the clicked point) and a scroll step (which zooms by 1.1 around
/// the pointer, inward for `up`) change the view and ask for a reload; an event at a
/// negative pixel, a refused change, and any other event change nothing.
pub fn handle_event(ctx: &mut FractalContext, ev: WindowEvent) -> (r: Reaction)
    requires
        old(ctx).wf(),
    ensures
        final(ctx).wf(),
        r == Reaction::Nothing ==> *final(ctx) == *old(ctx),
        ev is Closed ==> r == Reaction::Shutdown && *final(ctx) == *old(ctx),
        ev is Resized ==> ({
            let (w, h) = (ev->Resized_width, ev->Resized_height);
            let im = aspect_span(old(ctx).window.re as int, w as int, h as int);
            &&& r != Reaction::Shutdown
            &&& r == Reaction::Reload <==> (w >= old(ctx).lodiv && h >= old(ctx).lodiv && 0 < im
                && abs(old(ctx).center.im as int) + im <= LIMIT)
            &&& r == Reaction::Reload ==> final(ctx).res == (Complex { re: w, im: h })
                && final(ctx).window.im == im && final(ctx).has_resized && final(ctx).window.re
                == old(ctx).window.re && final(ctx).center == old(ctx).center
        }),
        ev is LeftReleased ==> ({
            let (x, y) = (ev->LeftReleased_x as int, ev->LeftReleased_y as int);
            let c = map_pixel(res_of(old(ctx).res), cx(old(ctx).center), cx(old(ctx).window), (x, y));
            &&& r != Reaction::Shutdown
            &&& r == Reaction::Reload <==> (x >= 0 && y >= 0 && x <= old(ctx).res.re && y
                <= old(ctx).res.im && view_in_limit(c, cx(old(ctx).window)))
            &&& r == Reaction::Reload ==> *final(ctx) == (FractalContext {
                center: final(ctx).center,
                ..*old(ctx)
            }) && cx(final(ctx).center) == c
        }),
        ev is Scrolled ==> ({
            let (num, den) = if ev->Scrolled_up {
                (ZOOM_DEN as int, ZOOM_NUM as int)
            } else {
                (ZOOM_NUM as int, ZOOM_DEN as int)
            };
            let (x, y) = (ev->Scrolled_x as int, ev->Scrolled_y as int);
            let o = *old(ctx);
            let w = (scale_span(o.window.re as int, num, den), scale_span(o.window.im as int, num, den));
            let c = zoom_center(res_of(o.res), cx(o.center), cx(o.window), (x, y), w);
            &&& r != Reaction::Shutdown
            &&& r == Reaction::Reload <==> (x >= 0 && y >= 0 && x <= o.res.re && y <= o.res.im
                && view_in_limit(c, w))
            &&& r == Reaction::Reload ==> cx(final(ctx).window) == w && cx(final(ctx).center) == c
                && o.budget_after(final(ctx).seq_iter, w) && *final(ctx) == (FractalContext {
                center: final(ctx).center,
                window: final(ctx).window,
                seq_iter: final(ctx).seq_iter,
                ..o
            })
        }),
        ev is Other ==> r == Reaction::Nothing && *final(ctx) == *old(ctx),
{
    match ev {
        WindowEvent::Closed => Reaction::Shutdown,
        WindowEvent::Resized { width, height } => {
            let out = ctx.resize(width, height);
            reaction(out)
        },
        WindowEvent::LeftReleased { x, y } => {
            if x < 0 || y < 0 {
                Reaction::Nothing
            } else {
                let out = ctx.move_window_from_mouse_pos(x as u32, y as u32);
                reaction(out)
            }
        },
        WindowEvent::Scrolled { up, x, y } => {
            if x < 0 || y < 0 {
                Reaction::Nothing
            } else {
                let out = if up {
                    ctx.zoom_view_scrollwheel(ZOOM_DEN, ZOOM_NUM, x as u32, y as u32)
                } else {
                    ctx.zoom_view_scrollwheel(ZOOM_NUM, ZOOM_DEN, x as u32, y as u32)
                };
                reaction(out)
            }
        },
        WindowEvent::Other => Reaction::Nothing,
    }
}

/// Applies a notification to the running supervisor, whose backend is `backend`: a
/// shutdown stops, a reload reloads, a change of backend is taken, and a second
/// start is ignored.
pub fn handle_notif(backend: &mut FractalBackend, notif: FractalNotif) -> (r: Reaction)
    ensures
        match notif {
            FractalNotif::Commence => r == Reaction::Nothing && *final(backend) == *old(backend),
            FractalNotif::Shutdown => r == Reaction::Shutdown && *final(backend) == *old(backend),
            FractalNotif::Reload => r == Reaction::Reload && *final(backend) == *old(backend),
            FractalNotif::ChangeBackend(b) => r == Reaction::Nothing && *final(backend) == b,
        },
{
    match notif {
        FractalNotif::Commence => Reaction::Nothing,
        FractalNotif::Shutdown => Reaction::Shutdown,
        FractalNotif::Reload => Reaction::Reload,
        FractalNotif::ChangeBackend(b) => {
            *backend = b;
            Reaction::Nothing
        },
    }
}

/// The tile workers compute for the two CPU backends; the shader draws for its own.
pub fn reload_path(backend: FractalBackend) -> (r: ReloadPath)
    ensures
        r == (if backend == FractalBackend::Shader {
            ReloadPath::Shader
        } else {
            ReloadPath::Workers
        }),
{
    match backend {
        FractalBackend::Shader => ReloadPath::Shader,
        _ => ReloadPath::Workers,
    }
}

/// What must be done before the workers are told to reload.
pub struct ReloadPrep {
    /// The output buffer's new size in pixels, when the canvas changed.
    pub resize_buffers: Option<Complex<u32>>,
    /// The bands to hand out, one per worker, when the canvas or the pool changed.
    pub rects: Option<Vec<RenderRect>>,
}

/// Prepares a reload for a pool of `pool_len` workers: a pending resize is consumed and
/// gives the buffers' new size, the computed canvas; a resize or a change of the worker
/// count gives the bands of the requested count of workers over that canvas.
pub fn prepare_reload(ctx: &mut FractalContext, pool_len: usize) -> (r: ReloadPrep)
    requires
        old(ctx).wf(),
        old(ctx).worker_count <= u32::MAX,
    ensures
        final(ctx).wf(),
        *final(ctx) == (FractalContext { has_resized: false, ..*old(ctx) }),
        old(ctx).has_resized <==> r.resize_buffers.is_some(),
        r.resize_buffers.is_some() ==> ({
            let c = r.resize_buffers.unwrap();
            (c.re as int, c.im as int) == old(ctx).canvas_spec()
        }),
        (old(ctx).has_resized || pool_len != old(ctx).worker_count) <==> r.rects.is_some(),
        r.rects.is_some() ==> ({
            let rects = r.rects.unwrap()@;
            &&& rects.len() == old(ctx).worker_count
            &&& forall|i: int|
                0 <= i < rects.len() ==> rects[i] == tile_spec(
                    i,
                    old(ctx).worker_count as int,
                    old(ctx).canvas_spec().0,
                    old(ctx).canvas_spec().1,
                )
        }),
{
    let canvas = ctx.canvas();
    let resized = ctx.has_resized;
    ctx.has_resized = false;
    let rects = if resized || pool_len != ctx.worker_count {
        Some(tile_rects(ctx.worker_count as u32, canvas.re, canvas.im))
    } else {
        None
    };
    let resize_buffers = if resized {
        Some(canvas)
    } else {
        None
    };
    ReloadPrep { resize_buffers, rects }
}

/// Takes worker `id`'s result: its duration is recorded in its slot and its band is
/// copied into the output buffer of a canvas `out_width` pixels wide.
pub fn receive_result<W>(
    pool: &mut WorkerPool<W>,
    out: &mut Vec<u8>,
    out_width: u32,
    id: usize,
    result: &WorkerResult,
)
    requires
        old(pool).wf(),
        id < old(pool).view().0.len(),
        result.rrect.left == 0,
        result.rrect.width == out_width,
        result.pixels@.len() == out_width as int * result.rrect.height as int * 4,
        (result.rrect.top as int + result.rrect.height as int) * out_width as int * 4 <= old(out)@.len(),
    ensures
        final(pool).wf(),
        final(pool).view().0 == old(pool).view().0,
        final(pool).view().1 == old(pool).view().1.update(id as int, result.reload_dur),
        final(out)@.len() == old(out)@.len(),
        ({
            let off = result.rrect.top as int * out_width as int * 4;
            forall|i: int|
                0 <= i < final(out)@.len() ==> #[trigger] final(out)@[i] == if off <= i < off
                    + result.pixels@.len() {
                    result.pixels@[i - off]
                } else {
                    old(out)@[i]
                }
        }),
{
    pool.record(id, result.reload_dur);
    blit(out, out_width, result);
}

/// Prepares a shader reload: a pending resize is consumed and gives the size of the
/// render target, the computed canvas. The view itself is left as it was.
pub fn prepare_shader_reload(ctx: &mut FractalContext) -> (r: Option<Complex<u32>>)
    requires
        old(ctx).wf(),
    ensures
        final(ctx).wf(),
        *final(ctx) == (FractalContext { has_resized: false, ..*old(ctx) }),
        old(ctx).has_resized <==> r.is_some(),
        r.is_some() ==> (r.unwrap().re as int, r.unwrap().im as int) == old(ctx).canvas_spec(),
{
    let canvas = ctx.canvas();
    let resized = ctx.has_resized;
    ctx.has_resized = false;
    if resized {
        Some(canvas)
    } else {
        None
    }
}

/// Byte `i` of the output buffer lies in band `j`'s part of it: the rows of the band,
/// four bytes a pixel, `width` pixels a row.
pub open spec fn in_band_bytes(i: int, j: int, count: int, width: int, height: int) -> bool {
    band_top(j, count, height) * width * 4 <= i < (band_top(j, count, height) + band_height(
        j,
        count,
        height,
    )) * width * 4
}

/// A reload fills the whole output buffer exactly once: every byte of a `width` by
/// `height` canvas lies in the part of exactly one of the `count` bands, and every
/// pixel a worker computes is opaque, so none keeps a zeroed alpha byte.
pub proof fn lemma_reload_covers_output(count: int, width: int, height: int, i: int)
    requires
        count > 0,
        width > 0,
        0 <= i < height * width * 4,
    ensures
        0 <= row_owner(i / (width * 4), count, height) < count,
        in_band_bytes(i, row_owner(i / (width * 4), count, height), count, width, height),
        forall|k: int|
            0 <= k < count && #[trigger] in_band_bytes(i, k, count, width, height) ==> k == row_owner(
                i / (width * 4),
                count,
                height,
            ),
        forall|iter: int, seq_iter: int, escaped: bool| #[trigger]
            pixel_color_spec(iter, seq_iter, escaped)[3] == 255u8,
{
    let w4 = width * 4;
    let y = i / w4;
    assert(height * width * 4 == height * w4) by (nonlinear_arith)
        requires
            w4 == width * 4,
    ;
    assert(0 <= y < height) by (nonlinear_arith)
        requires
            y == i / w4,
            w4 > 0,
            0 <= i < height * w4,
            w4 == width * 4,
    ;
    lemma_tiles_partition(count, height, y);
    assert forall|k: int| 0 <= k < count implies #[trigger] in_band_bytes(i, k, count, width, height)
        == in_band(y, k, count, height) by {
        let t = band_top(k, count, height);
        let e = band_top(k, count, height) + band_height(k, count, height);
        assert((t * width * 4 <= i) == (t <= y) && (i < e * width * 4) == (y < e)) by (nonlinear_arith)
            requires
                y == i / w4,
                w4 == width * 4,
                w4 > 0,
                i >= 0,
        ;
    }
    assert forall|iter: int, seq_iter: int, escaped: bool| #[trigger]
        pixel_color_spec(iter, seq_iter, escaped)[3] == 255u8 by {
    }
}

} // verus!
