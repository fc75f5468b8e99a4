use mandelbread::fractal_complex::{Complex, LIMIT, ONE};
use mandelbread::fractal_engine::{
    seq_iters_formula, FractalBackend, FractalContext, FractalNotif, ViewError, BASE_CENTER,
    BASE_WINDOW, INIT_SEQ_ITER,
};
use mandelbread::pool::{PoolStep, WorkerPool};
use mandelbread::supervisor::{
    handle_event, handle_notif, prepare_reload, prepare_shader_reload, receive_result, reload_path,
    Reaction, ReloadPath, WindowEvent,
};
use mandelbread::tiles::{tile_rect, tile_rects, RenderRect};
use mandelbread::worker::{compute_image_f64, worker_step, WorkerAction, WorkerNotif, WorkerResult, WorkerState};

#[test]
fn tiles_cover_rows_once() {
    for count in 1..=9u32 {
        for height in [0u32, 1, 5, 7, 100, 601] {
            let rects = tile_rects(count, 640, height);
            assert_eq!(rects.len(), count as usize);
            let mut owners = vec![0u32; height as usize];
            for r in &rects {
                assert_eq!(r.left, 0);
                assert_eq!(r.width, 640);
                for y in r.top..r.top + r.height {
                    owners[y as usize] += 1;
                }
            }
            assert!(owners.iter().all(|&n| n == 1));
        }
    }
}

#[test]
fn tiles_remainder_goes_to_last_band() {
    let rects = tile_rects(4, 10, 10);
    let heights: Vec<u32> = rects.iter().map(|r| r.height).collect();
    assert_eq!(heights, vec![2, 2, 2, 4]);
    assert_eq!(tile_rect(3, 4, 10, 10), RenderRect { left: 0, top: 6, width: 10, height: 4 });
    let even = tile_rects(4, 10, 601);
    let hs: Vec<u32> = even.iter().map(|r| r.height).collect();
    assert_eq!(hs, vec![150, 150, 150, 151]);
}

#[test]
fn pool_grow_and_shrink() {
    let mut pool: WorkerPool<u32> = WorkerPool::new();
    pool.add(10);
    pool.record(0, 7);
    assert_eq!(pool.next_step(3), PoolStep::Spawn);
    pool.add(11);
    pool.add(12);
    assert_eq!(pool.len(), 3);
    assert_eq!(pool.durations(), vec![7, 0, 0]);
    assert_eq!(pool.next_step(3), PoolStep::Ready);
    assert_eq!(pool.next_step(1), PoolStep::Retire);
    assert_eq!(pool.retire(), Some(12));
    assert_eq!(pool.retire(), Some(11));
    assert_eq!(pool.len(), 1);
    assert_eq!(pool.durations(), vec![7]);
    assert_eq!(*pool.worker(0), 10);
    assert_eq!(pool.retire(), Some(10));
    assert_eq!(pool.retire(), None);
}

#[test]
fn pool_durations_telemetry() {
    let mut pool: WorkerPool<u8> = WorkerPool::new();
    assert_eq!(pool.max_duration(), 0);
    for w in 0..4u8 {
        pool.add(w);
    }
    pool.record(1, 40);
    pool.record(3, 25);
    assert_eq!(pool.max_duration(), 40);
    pool.reset_durations();
    assert_eq!(pool.durations(), vec![0, 0, 0, 0]);
}

#[test]
fn default_context() {
    let ctx = FractalContext::default();
    assert_eq!(ctx.res, Complex::new(800, 600));
    assert_eq!(ctx.center, Complex::new(BASE_CENTER, 0));
    assert_eq!(ctx.window.re, BASE_WINDOW);
    assert_eq!(ctx.window.im as i128, BASE_WINDOW as i128 * 600 / 800);
    assert_eq!(ctx.backend, FractalBackend::Shader);
    assert_eq!(ctx.seq_iter, INIT_SEQ_ITER);
    assert_eq!(ctx.worker_count, 1);
    assert!(ctx.has_resized);
}

#[test]
fn resize_keeps_aspect_ratio() {
    let mut ctx = FractalContext::default();
    for (w, h) in [(1024u32, 768u32), (300, 900), (1920, 1080), (7, 3)] {
        assert_eq!(ctx.resize(w, h), Ok(()));
        let re = ctx.window.re as i128;
        let im = ctx.window.im as i128;
        assert!(im * w as i128 <= re * h as i128 && re * (h as i128) < (im + 1) * w as i128);
        assert_eq!(ctx.res, Complex::new(w, h));
        assert!(ctx.has_resized);
    }
}

#[test]
fn resize_refuses_empty_canvas() {
    let mut ctx = FractalContext::default();
    assert_eq!(ctx.resize(0, 600), Err(ViewError::ZeroSize));
    assert_eq!(ctx.set_lodiv(5), Ok(()));
    assert_eq!(ctx.resize(4, 600), Err(ViewError::ZeroSize));
    assert_eq!(ctx.res, Complex::new(800, 600));
}

#[test]
fn setters_validate() {
    let mut ctx = FractalContext::default();
    assert_eq!(ctx.set_workers(0), Err(ViewError::ZeroWorkers));
    assert_eq!(ctx.set_workers(4), Ok(()));
    assert_eq!(ctx.worker_count, 4);
    assert_eq!(ctx.set_lodiv(0), Err(ViewError::BadQuality));
    assert_eq!(ctx.set_lodiv(601), Err(ViewError::BadQuality));
    assert_eq!(ctx.set_converge_distance(-1), Err(ViewError::OutOfRange));
    assert_eq!(ctx.set_converge_distance(LIMIT + 1), Err(ViewError::OutOfRange));
    assert_eq!(ctx.set_converge_distance(4 * ONE), Ok(()));
    assert_eq!(ctx.set_backend(FractalBackend::Rug), FractalNotif::ChangeBackend(FractalBackend::Rug));
    assert_eq!(ctx.shutdown(), FractalNotif::Shutdown);
    assert!(!ctx.engine_enabled);
    assert_eq!(ctx.commence(), FractalNotif::Commence);
    assert!(ctx.engine_enabled);
}

#[test]
fn pan_centers_on_clicked_point() {
    let mut ctx = FractalContext::default();
    let before = ctx.center;
    assert_eq!(ctx.move_window_from_mouse_pos(400, 300), Ok(()));
    assert_eq!(ctx.center, before);
    assert_eq!(ctx.move_window_from_mouse_pos(0, 0), Ok(()));
    assert_eq!(ctx.center.re, before.re - ctx.window.re / 2);
    assert_eq!(ctx.center.im, ctx.window.im - ctx.window.im / 2);
    assert_eq!(ctx.move_window_from_mouse_pos(801, 0), Err(ViewError::OutOfRange));
}

#[test]
fn zoom_scales_span_and_budget() {
    let mut ctx = FractalContext::default();
    assert_eq!(ctx.zoom_view(0, 1), Err(ViewError::BadZoom));
    ctx.resize(800, 800).unwrap();
    assert_eq!(ctx.zoom_view(1, 4), Ok(()));
    assert_eq!(ctx.window.re, BASE_WINDOW / 4);
    // 0.825 wide: 50 * log2(1 / 0.825) = 13.87
    assert_eq!(ctx.seq_iter, INIT_SEQ_ITER + 13);
    // zooming at the middle pixel keeps the center
    let c = ctx.center;
    assert_eq!(ctx.zoom_view_scrollwheel(1, 2, 400, 400), Ok(()));
    assert_eq!(ctx.center, c);
    // zooming in at the left edge keeps the left edge where it is
    let w = ctx.window.re;
    let left = c.re - w / 2;
    assert_eq!(ctx.zoom_view_scrollwheel(1, 2, 0, 400), Ok(()));
    assert_eq!(ctx.window.re, w / 2);
    assert_eq!(ctx.center.re, left + (w / 2) / 2);
    assert_eq!(ctx.center.re - ctx.window.re / 2, left);
    assert_eq!(ctx.zoom_view(10_000, 1), Err(ViewError::OutOfRange));
}

#[test]
fn auto_budget_formula() {
    assert_eq!(seq_iters_formula(Complex::new(3 * ONE, 2 * ONE), 50), INIT_SEQ_ITER);
    assert_eq!(seq_iters_formula(Complex::new(ONE, ONE * 3 / 4), 50), 75);
    assert_eq!(seq_iters_formula(Complex::new(ONE / 2, ONE * 3 / 8), 50), 125);
    assert_eq!(seq_iters_formula(Complex::new(ONE / 2, ONE / 4), 0), INIT_SEQ_ITER);
    // 50 * log2(40 / 33) = 13.87 and 7 * log2(1000) = 69.76
    assert_eq!(seq_iters_formula(Complex::new(ONE * 33 / 40, 1), 50), INIT_SEQ_ITER + 13);
    assert_eq!(seq_iters_formula(Complex::new(ONE / 1000, ONE / 2000), 7), INIT_SEQ_ITER + 69);
    assert_eq!(seq_iters_formula(Complex::new(ONE / 1024, 1), 10), INIT_SEQ_ITER + 100);
    // 3 * log2(3) = 4.75: the span 1/3 rounds down, so its logarithm is a little larger
    assert_eq!(seq_iters_formula(Complex::new(ONE / 3, 1), 3), INIT_SEQ_ITER + 4);
    // the smallest span and the largest factor
    assert_eq!(seq_iters_formula(Complex::new(1, 1), 1024), INIT_SEQ_ITER + 96 * 1024);
}

#[test]
fn auto_budget_factor_is_bounded() {
    let mut ctx = FractalContext::default();
    assert_eq!(ctx.set_auto_seq_iter_fact(1025), Err(ViewError::BadFactor));
    assert_eq!(ctx.auto_seq_iter_fact, 50);
    assert_eq!(ctx.set_auto_seq_iter_fact(1024), Ok(()));
    assert_eq!(ctx.auto_seq_iter_fact, 1024);
}

#[test]
fn events_drive_the_view() {
    let mut ctx = FractalContext::default();
    assert_eq!(handle_event(&mut ctx, WindowEvent::Closed), Reaction::Shutdown);
    assert_eq!(handle_event(&mut ctx, WindowEvent::Other), Reaction::Nothing);
    assert_eq!(handle_event(&mut ctx, WindowEvent::Resized { width: 1000, height: 500 }), Reaction::Reload);
    assert_eq!(ctx.res, Complex::new(1000, 500));
    assert_eq!(handle_event(&mut ctx, WindowEvent::LeftReleased { x: -1, y: 3 }), Reaction::Nothing);
    assert_eq!(handle_event(&mut ctx, WindowEvent::LeftReleased { x: 500, y: 250 }), Reaction::Reload);
    let w = ctx.window.re;
    assert_eq!(handle_event(&mut ctx, WindowEvent::Scrolled { up: true, x: 500, y: 250 }), Reaction::Reload);
    assert_eq!(ctx.window.re as i128, w as i128 * 10 / 11);
    let mut backend = FractalBackend::F64;
    assert_eq!(handle_notif(&mut backend, FractalNotif::ChangeBackend(FractalBackend::Shader)), Reaction::Nothing);
    assert_eq!(backend, FractalBackend::Shader);
    assert_eq!(handle_notif(&mut backend, FractalNotif::Reload), Reaction::Reload);
    assert_eq!(reload_path(backend), ReloadPath::Shader);
    assert_eq!(reload_path(FractalBackend::Rug), ReloadPath::Workers);
}

#[test]
fn worker_state_machine() {
    let rect = RenderRect { left: 0, top: 5, width: 8, height: 2 };
    let s = WorkerState::Idle(RenderRect::default());
    let (s, a) = worker_step(s, WorkerNotif::SetRenderRect(rect));
    assert_eq!((s, a), (WorkerState::Idle(rect), WorkerAction::Nothing));
    let (s, a) = worker_step(s, WorkerNotif::Reload);
    assert_eq!((s, a), (WorkerState::Idle(rect), WorkerAction::Compute(rect)));
    let (s, a) = worker_step(s, WorkerNotif::Shutdown);
    assert_eq!((s, a), (WorkerState::ShutDown, WorkerAction::Exit));
}

#[test]
fn shader_reload_consumes_resize() {
    let mut ctx = FractalContext::default();
    ctx.set_lodiv(2).unwrap();
    assert_eq!(prepare_shader_reload(&mut ctx), Some(Complex::new(400, 300)));
    assert!(!ctx.has_resized);
    assert_eq!(prepare_shader_reload(&mut ctx), None);
}

#[test]
fn zoom_anchor_point_stays() {
    let mut ctx = FractalContext::default();
    for (num, den, x, y) in [(10u32, 11u32, 123u32, 456u32), (11, 10, 700, 20), (1, 3, 0, 600)] {
        let before = Complex::map_pixel_value_f64(ctx.res, ctx.center, ctx.window, Complex::new(x, y));
        assert_eq!(ctx.zoom_view_scrollwheel(num, den, x, y), Ok(()));
        let after = Complex::map_pixel_value_f64(ctx.res, ctx.center, ctx.window, Complex::new(x, y));
        assert_eq!(before, after);
    }
}

#[test]
fn deep_zoom_is_accepted() {
    let mut ctx = FractalContext::default();
    // sixty halvings: a span near 3e-18, far below a double's resolution around -0.72
    for _ in 0..60 {
        assert_eq!(ctx.zoom_view_scrollwheel(1, 2, 400, 300), Ok(()));
    }
    assert!(ctx.window.re > 0 && ctx.window.re < ONE / 100_000_000_000_000_000);
    // 50 * log2(2^60 / 3.3) = 2913.87
    assert_eq!(ctx.seq_iter, INIT_SEQ_ITER + 2913);
}

#[test]
fn tile_at_zero_center_is_black_in_the_middle() {
    let mut ctx = FractalContext::default();
    ctx.set_backend(FractalBackend::F64);
    ctx.center = Complex::new(0, 0);
    ctx.seq_iter = 500;
    let rect = RenderRect { left: 0, top: 300, width: 800, height: 1 };
    let pixels = compute_image_f64(&ctx, rect);
    assert_eq!(&pixels[400 * 4..400 * 4 + 4], &[0, 0, 0, 255]);
}

#[test]
fn tile_at_three_escapes_after_one_step() {
    let mut ctx = FractalContext::default();
    ctx.center = Complex::new(3 * ONE, 0);
    let rect = RenderRect { left: 400, top: 300, width: 1, height: 1 };
    let pixels = compute_image_f64(&ctx, rect);
    assert_eq!(pixels, mandelbread::fractal_complex::iter_gradient(1, ctx.seq_iter).to_vec());
}

#[test]
fn end_to_end_four_workers() {
    let mut ctx = FractalContext::default();
    ctx.set_backend(FractalBackend::F64);
    ctx.set_workers(4).unwrap();
    let mut pool: WorkerPool<WorkerState> = WorkerPool::new();
    let prep = prepare_reload(&mut ctx, pool.len());
    assert!(!ctx.has_resized);
    let canvas = prep.resize_buffers.unwrap();
    assert_eq!(canvas, Complex::new(800, 600));
    let rects = prep.rects.unwrap();
    while pool.next_step(ctx.worker_count) == PoolStep::Spawn {
        pool.add(WorkerState::Idle(RenderRect::default()));
    }
    assert_eq!(pool.len(), 4);
    let mut out = vec![0u8; (canvas.re * canvas.im * 4) as usize];
    let mut covered = vec![0u32; canvas.im as usize];
    for (id, rect) in rects.iter().enumerate() {
        let (state, _) = worker_step(*pool.worker(id), WorkerNotif::SetRenderRect(*rect));
        let (_, action) = worker_step(state, WorkerNotif::Reload);
        let band = match action {
            WorkerAction::Compute(r) => r,
            _ => panic!("a reload computes"),
        };
        let pixels = compute_image_f64(&ctx, band);
        for y in band.top..band.top + band.height {
            covered[y as usize] += 1;
        }
        let result = WorkerResult { pixels, rrect: band, reload_dur: 1 + id as u64 };
        receive_result(&mut pool, &mut out, canvas.re, id, &result);
    }
    assert!(covered.iter().all(|&n| n == 1));
    assert!(out.chunks(4).all(|px| px[3] == 255));
    assert_eq!(pool.max_duration(), 4);
    // the middle of the main cardioid is black, the far left corner escapes
    let at = |x: usize, y: usize| &out[(y * 800 + x) * 4..(y * 800 + x) * 4 + 4];
    assert_eq!(at(400, 300), &[0, 0, 0, 255]);
    assert_ne!(at(0, 0), &[0, 0, 0, 255]);
    assert!(prepare_reload(&mut ctx, pool.len()).rects.is_none());
}
