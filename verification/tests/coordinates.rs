use mandelbrot_core::{Ctx, Symmetry};

// 2^60, the fixed-point scale.
const FP_ONE: i64 = 1 << 60;

fn viewport(w: usize, h: usize, cx: i64, cy: i64, span: i64) -> Ctx {
    let mut ctx = Ctx {
        win_width: w,
        win_height: h,
        ..Default::default()
    };
    ctx.define_bounds(cx, cy, span);
    ctx
}

#[test]
fn default_context_values() {
    let ctx = Ctx::default();
    assert_eq!(ctx.max_iters, 500);
    assert_eq!(ctx.min_value, i128::MAX);
    assert_eq!(ctx.max_value, 0);
    assert_eq!(ctx.chunk_size, 128);
    assert_eq!(ctx.rows_processed, 0);
    assert_eq!(ctx.total_rows_processed, 0);
    assert_eq!(ctx.brightness, 600);
    assert!(ctx.needs_recalc);
}

#[test]
fn define_bounds_derives_aspect_correct_box() {
    // A 4x2 viewport: the vertical span is half the horizontal one.
    let ctx = viewport(4, 2, 1000, -500, 8000);
    assert_eq!(ctx.center_x, 1000);
    assert_eq!(ctx.center_y, -500);
    assert_eq!(ctx.horizontal_span, 8000);
    assert_eq!(ctx.vertical_span, 4000);
    assert_eq!(ctx.x_min, 1000 - 4000);
    assert_eq!(ctx.x_max, 1000 + 4000);
    assert_eq!(ctx.y_min, -500 - 2000);
    assert_eq!(ctx.y_max, -500 + 2000);
}

#[test]
fn get_x_interpolates_quarters() {
    let ctx = viewport(4, 4, 0, 0, 40000);
    // x_min = -20000; each pixel advances by a quarter of the span.
    assert_eq!(ctx.get_x(0), -20000);
    assert_eq!(ctx.get_x(1), -10000);
    assert_eq!(ctx.get_x(2), 0);
    assert_eq!(ctx.get_x(3), 10000);
    assert_eq!(ctx.get_x(4), 20000);
}

#[test]
fn get_y_runs_downward() {
    let ctx = viewport(4, 4, 0, 0, 40000);
    // Row 0 is the top of the viewport: y_max.
    assert_eq!(ctx.get_y(0), 20000);
    assert_eq!(ctx.get_y(2), 0);
    assert_eq!(ctx.get_y(4), -20000);
    let (gx, gy) = ctx.get_coords(1, 1);
    assert_eq!(gx, ctx.get_x(1));
    assert_eq!(gy, ctx.get_y(1));
}

#[test]
fn revert_y_recovers_row_within_tolerance() {
    // The round-trip tolerance: the recovered row is the one mapped from,
    // or up to two below it.
    let ctx = viewport(400, 300, -922337203685477580, 10, 4035225266123964416);
    for y in 0..300usize {
        let coord = ctx.get_y(y);
        let (row, _) = ctx.revert_y(coord);
        assert!(row <= y, "row {} above {}", row, y);
        assert!(row + 2 >= y, "row {} too far below {}", row, y);
    }
}

#[test]
fn revert_y_center_of_symmetric_viewport() {
    // Axis through the middle of a 4-row viewport: ordinate 0 maps between
    // rows 1 and 2, the floor lands on row 1, and the mirror offset is 0.
    let ctx = viewport(4, 4, 0, 0, FP_ONE);
    let (row, sym) = ctx.revert_y(0);
    assert_eq!(row, 1);
    assert_eq!(sym, Symmetry::Exact);
}

#[test]
fn revert_y_classifies_odd_height_offset() {
    // In a 5-row viewport centred on the axis the reflection is off by one
    // row: mirror pairs sum to four, not five, so the classification
    // reports an offset of one.
    let ctx = viewport(5, 5, 0, 0, FP_ONE);
    let (row, sym) = ctx.revert_y(0);
    assert_eq!(row, 2);
    assert_eq!(sym, Symmetry::OverOne);
}

#[test]
fn define_bounds_from_zooms_into_selection() {
    let mut ctx = viewport(100, 100, 0, 0, 100000);
    // Select the left half of the window, vertically centred.
    ctx.define_bounds_from(0, 25, 50, 50);
    assert_eq!(ctx.horizontal_span, 50000);
    // The new centre is the coordinate of pixel column 25.
    assert_eq!(ctx.center_x, -50000 + 100000 * 2500 / 10000);
}

#[test]
fn apply_changes_merges_display_parameters() {
    let mut ctx = viewport(4, 4, 0, 0, 40000);
    let mut other = ctx;
    other.min_value = 7;
    other.max_value = 99;
    other.brightness = 250;
    other.max_iters = 1234;
    ctx.apply_changes(&other);
    assert_eq!(ctx.min_value, 7);
    assert_eq!(ctx.max_value, 99);
    assert_eq!(ctx.brightness, 250);
    // Only the three display parameters move over.
    assert_eq!(ctx.max_iters, 500);
}

#[test]
fn revert_y_bottom_ordinate_maps_to_last_row() {
    let ctx = viewport(8, 8, 0, 0, 80000);
    let (row, _) = ctx.revert_y(ctx.y_min as i64);
    assert_eq!(row, 7);
    let (top, _) = ctx.revert_y(ctx.y_max as i64);
    assert_eq!(top, 0);
}

#[test]
fn reset_min_max_forgets_observed_range() {
    let mut ctx = viewport(4, 4, 0, 0, 40000);
    ctx.min_value = 3;
    ctx.max_value = 8;
    ctx.needs_recalc = false;
    ctx.reset_min_max();
    assert_eq!(ctx.min_value, i128::MAX);
    assert_eq!(ctx.max_value, 0);
    assert!(ctx.needs_recalc);
}
