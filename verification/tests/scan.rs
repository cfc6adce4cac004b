use mandelbrot_core::{advance_plot, near_border, new_plot, process_plot_cpu, set_pixel, Ctx, PlotPoint};

// Fixed-point values at scale 2^60 for the 4x4 scenario viewport:
// centre (-0.8, 0.0001), horizontal span 3.5.
const CENTER_X: i64 = -922337203685477580;
const CENTER_Y: i64 = 115292150460685;
const SPAN: i64 = 4035225266123964416;

fn scenario_ctx(chunk_size: usize) -> Ctx {
    let mut ctx = Ctx {
        win_width: 4,
        win_height: 4,
        chunk_size,
        ..Default::default()
    };
    ctx.define_bounds(CENTER_X, CENTER_Y, SPAN);
    ctx
}

fn grids_identical(a: &Vec<Vec<PlotPoint>>, b: &Vec<Vec<PlotPoint>>) -> bool {
    if a.len() != b.len() {
        return false;
    }
    for y in 0..a.len() {
        if a[y].len() != b[y].len() {
            return false;
        }
        for x in 0..a[y].len() {
            let (pa, pb) = (a[y][x], b[y][x]);
            if pa.processed() != pb.processed() || pa.filled != pb.filled {
                return false;
            }
            if pa.processed()
                && (pa.stable() != pb.stable() || pa.calculated_value() != pb.calculated_value())
            {
                return false;
            }
        }
    }
    true
}

#[test]
fn scenario_corner_escapes_and_center_is_stable() {
    let mut ctx = scenario_ctx(4);
    let mut plot = new_plot(4, 4);
    let rows = process_plot_cpu(&mut ctx, &mut plot, 4);
    assert_eq!(rows, 4);

    // Pixel (0, 0) sits at (-2.55, 1.75...): far outside, escapes early.
    assert!(plot[0][0].processed());
    assert!(!plot[0][0].stable());
    assert!(plot[0][0].calculated_value() < 500);

    // Pixel (2, 2) sits at the centre (-0.8, 0.0001): inside the set.
    assert!(plot[2][2].processed());
    assert!(plot[2][2].stable());
    assert_eq!(plot[2][2].calculated_value(), 500);
}

#[test]
fn scenario_chunked_scan_matches_single_pass() {
    // One pass over all four rows at once...
    let mut ctx_whole = scenario_ctx(4);
    let mut plot_whole = new_plot(4, 4);
    assert_eq!(process_plot_cpu(&mut ctx_whole, &mut plot_whole, 4), 4);

    // ...and four resumed passes of one row each.
    let mut ctx_steps = scenario_ctx(1);
    let mut plot_steps = new_plot(4, 4);
    let mut total: usize = 0;
    for _ in 0..4 {
        total += process_plot_cpu(&mut ctx_steps, &mut plot_steps, 4);
        ctx_steps.rows_processed += ctx_steps.chunk_size;
    }
    assert_eq!(total, 4);

    assert!(grids_identical(&plot_whole, &plot_steps));
    assert_eq!(ctx_whole.min_value, ctx_steps.min_value);
    assert_eq!(ctx_whole.max_value, ctx_steps.max_value);
}

#[test]
fn values_do_not_change_after_further_scanning() {
    // Idempotence: what one chunk computed, later chunks leave untouched.
    let mut ctx = scenario_ctx(1);
    let mut plot = new_plot(4, 4);
    process_plot_cpu(&mut ctx, &mut plot, 4);
    ctx.rows_processed += ctx.chunk_size;

    let snapshot: Vec<Vec<PlotPoint>> = plot.clone();
    for _ in 0..3 {
        process_plot_cpu(&mut ctx, &mut plot, 4);
        ctx.rows_processed += ctx.chunk_size;
    }

    for y in 0..4usize {
        for x in 0..4usize {
            if snapshot[y][x].processed() {
                assert!(plot[y][x].processed());
                assert_eq!(snapshot[y][x].stable(), plot[y][x].stable());
                assert_eq!(
                    snapshot[y][x].calculated_value(),
                    plot[y][x].calculated_value()
                );
                assert_eq!(snapshot[y][x].filled, plot[y][x].filled);
            }
        }
    }
}

#[test]
fn interior_region_is_fast_filled() {
    // A viewport deep inside the set: every pixel is stable, the border is
    // traced, and pixels far enough from it are filled without evaluation.
    let mut ctx = Ctx {
        win_width: 6,
        win_height: 6,
        ..Default::default()
    };
    // Centre (-0.2, 0.0001), span 0.01: all inside the main cardioid.
    ctx.define_bounds(-230584300921369395, 115292150460685, 11529215046068470);
    let mut plot = new_plot(6, 6);
    process_plot_cpu(&mut ctx, &mut plot, 6);

    for y in 0..6usize {
        for x in 0..6usize {
            assert!(plot[y][x].processed());
            assert!(plot[y][x].stable());
            assert_eq!(plot[y][x].calculated_value(), 500);
        }
    }
    // The scan's first pixel seeds the trace: evaluated, not filled.
    assert!(!plot[0][0].filled);
    // A pixel two steps from the window border can only have been filled.
    assert!(plot[3][3].filled);
}

#[test]
fn mirrored_rows_are_pixel_identical() {
    // Axis through the middle of the viewport: the lower half is copied
    // from the upper half, row for row.
    let mut ctx = Ctx {
        win_width: 4,
        win_height: 4,
        chunk_size: 4,
        ..Default::default()
    };
    ctx.define_bounds(CENTER_X, 0, SPAN);
    let mut plot = new_plot(4, 4);

    let mut guard: usize = 0;
    while ctx.total_rows_processed < 4 && guard < 10 {
        advance_plot(&mut ctx, &mut plot);
        guard += 1;
    }
    assert!(ctx.total_rows_processed >= 4);

    // Mirror pairs around the axis between rows 1 and 2: (2, 1) and (3, 0).
    for x in 0..4usize {
        for (lower, upper) in [(2usize, 1usize), (3usize, 0usize)] {
            assert_eq!(plot[lower][x].processed(), plot[upper][x].processed());
            assert_eq!(plot[lower][x].stable(), plot[upper][x].stable());
            assert_eq!(
                plot[lower][x].calculated_value(),
                plot[upper][x].calculated_value()
            );
        }
    }
}

#[test]
fn odd_height_mirror_uses_classified_offset() {
    // A 5-row viewport with the axis through the middle row's span: the
    // classification reports an offset of one, so rows 3 and 4 are copied
    // from rows 1 and 0, and the axis row itself is scanned directly.
    let mut ctx = Ctx {
        win_width: 5,
        win_height: 5,
        chunk_size: 5,
        ..Default::default()
    };
    ctx.define_bounds(CENTER_X, 0, SPAN);
    let mut plot = new_plot(5, 5);

    let mut guard: usize = 0;
    while ctx.total_rows_processed < 5 && guard < 10 {
        advance_plot(&mut ctx, &mut plot);
        guard += 1;
    }
    assert!(ctx.total_rows_processed >= 5);

    for x in 0..5usize {
        assert!(plot[2][x].processed());
        for (lower, upper) in [(3usize, 1usize), (4usize, 0usize)] {
            assert_eq!(plot[lower][x].processed(), plot[upper][x].processed());
            assert_eq!(plot[lower][x].stable(), plot[upper][x].stable());
            assert_eq!(
                plot[lower][x].calculated_value(),
                plot[upper][x].calculated_value()
            );
        }
    }
}

#[test]
fn single_row_mirror_band_is_copied() {
    // Axis row at height minus two: the mirrored band is a single row,
    // which must still be copied so the scan really completes.
    let mut ctx = Ctx {
        win_width: 4,
        win_height: 4,
        chunk_size: 4,
        ..Default::default()
    };
    // centre_y = span/4 puts the axis three quarters of the way down.
    ctx.define_bounds(CENTER_X, SPAN / 4, SPAN);
    let mut plot = new_plot(4, 4);

    let mut guard: usize = 0;
    while ctx.total_rows_processed < 4 && guard < 10 {
        advance_plot(&mut ctx, &mut plot);
        guard += 1;
    }
    assert!(ctx.total_rows_processed >= 4);

    for y in 0..4usize {
        for x in 0..4usize {
            assert!(plot[y][x].processed(), "pixel ({}, {}) left unprocessed", x, y);
        }
    }
}

#[test]
fn partial_scan_leaves_later_rows_untouched() {
    // Partial previews: after one single-row chunk, only that row of the
    // window has been worked on by the row scan itself.
    let mut ctx = scenario_ctx(1);
    let mut plot = new_plot(4, 4);
    let rows = process_plot_cpu(&mut ctx, &mut plot, 4);
    assert_eq!(rows, 1);
    for x in 0..4usize {
        assert!(plot[0][x].processed());
    }
}

#[test]
fn advance_plot_reports_progress() {
    let mut ctx = scenario_ctx(2);
    let mut plot = new_plot(4, 4);
    let first = advance_plot(&mut ctx, &mut plot);
    assert!(first > 0);
    assert_eq!(ctx.rows_processed, 2);
    assert_eq!(ctx.total_rows_processed, first);
}

#[test]
fn near_border_checks_left_neighbour() {
    let mut plot = new_plot(3, 1);
    assert!(!near_border(&plot, -1, 0));
    assert!(!near_border(&plot, 0, 0));
    let mut p = PlotPoint::default();
    p.calculate(0, 500);
    plot[0][1] = p;
    assert!(near_border(&plot, 1, 0));
}

#[test]
fn set_pixel_writes_opaque_rgba() {
    let mut ctx = Ctx {
        win_width: 3,
        win_height: 2,
        ..Default::default()
    };
    ctx.define_bounds(0, 0, 600);
    let mut data: Vec<u8> = vec![0; 4 * 3 * 2];
    set_pixel(&ctx, &mut data, 1, 1, 10, 20, 30);
    let base = (1 + 1 * 3) * 4;
    assert_eq!(data[base], 10);
    assert_eq!(data[base + 1], 20);
    assert_eq!(data[base + 2], 30);
    assert_eq!(data[base + 3], 255);
    // No other byte moved.
    for (i, b) in data.iter().enumerate() {
        if i < base || i > base + 3 {
            assert_eq!(*b, 0);
        }
    }
}
