use mandelbrot_core::{mandelbrot_val_at_point, new_plot, reset_plot, Complex, PlotPoint, TraceDirection};

// 2^60, the fixed-point scale.
const FP_ONE: i64 = 1 << 60;

#[test]
fn fresh_point_is_unprocessed() {
    let p = PlotPoint::default();
    assert!(!p.processed());
    assert!(!p.stable());
    assert!(!p.filled);
}

#[test]
fn calculate_sets_iteration_count_as_value() {
    let mut p = PlotPoint::default();
    p.calculate(7, 42);
    assert!(p.processed());
    assert!(!p.stable());
    assert_eq!(p.calculated_value(), 42);
}

#[test]
fn zero_magnitude_marks_stable() {
    let mut p = PlotPoint::default();
    p.calculate(0, 500);
    assert!(p.processed());
    assert!(p.stable());
    assert_eq!(p.calculated_value(), 500);
}

#[test]
fn reset_clears_value_and_fill_flag() {
    let mut p = PlotPoint::default();
    p.calculate(0, 500);
    p.reset();
    assert!(!p.processed());
    assert!(!p.stable());
    assert!(!p.filled);
}

#[test]
fn new_from_applies_update() {
    let base = PlotPoint::default();
    let upd = |mut p: PlotPoint| -> PlotPoint {
        p.calculate(3, 9);
        p
    };
    let built = PlotPoint::new_from(&base, upd);
    assert!(built.processed());
    assert_eq!(built.calculated_value(), 9);
    assert!(!base.processed());
}

#[test]
fn trace_directions_index_clockwise() {
    assert_eq!(TraceDirection::Right.get_index(), 0);
    assert_eq!(TraceDirection::RightDown.get_index(), 1);
    assert_eq!(TraceDirection::Down.get_index(), 2);
    assert_eq!(TraceDirection::LeftDown.get_index(), 3);
    assert_eq!(TraceDirection::Left.get_index(), 4);
    assert_eq!(TraceDirection::LeftUp.get_index(), 5);
    assert_eq!(TraceDirection::Up.get_index(), 6);
    assert_eq!(TraceDirection::RightUp.get_index(), 7);
}

#[test]
fn origin_never_escapes() {
    let mut p = PlotPoint::default();
    mandelbrot_val_at_point(Complex::new(0, 0), 500, &mut p);
    assert!(p.processed());
    assert!(p.stable());
    assert_eq!(p.calculated_value(), 500);
}

#[test]
fn far_exterior_escapes_immediately() {
    // c = 3: the squared magnitude 9 is over the threshold 4 at the first
    // check, so the point escapes with zero completed iterations.
    let mut p = PlotPoint::default();
    mandelbrot_val_at_point(Complex::new(3 * FP_ONE, 0), 500, &mut p);
    assert!(p.processed());
    assert!(!p.stable());
    assert_eq!(p.calculated_value(), 0);
}

#[test]
fn point_two_escapes_after_one_step() {
    // c = 2: |c|^2 = 4 is not over the threshold, but z1 = 6 is.
    let mut p = PlotPoint::default();
    mandelbrot_val_at_point(Complex::new(2 * FP_ONE, 0), 500, &mut p);
    assert!(!p.stable());
    assert_eq!(p.calculated_value(), 1);
}

#[test]
fn minus_one_cycles_forever() {
    // c = -1 oscillates between -1 and 0: never escapes.
    let mut p = PlotPoint::default();
    mandelbrot_val_at_point(Complex::new(-FP_ONE, 0), 250, &mut p);
    assert!(p.stable());
    assert_eq!(p.calculated_value(), 250);
}

#[test]
fn new_plot_allocates_unprocessed_grid() {
    let plot = new_plot(3, 2);
    assert_eq!(plot.len(), 2);
    for row in &plot {
        assert_eq!(row.len(), 3);
        for p in row {
            assert!(!p.processed());
            assert!(!p.filled);
        }
    }
}

#[test]
fn reset_plot_clears_every_point() {
    let mut plot = new_plot(3, 3);
    let mut seed = PlotPoint::default();
    seed.calculate(0, 10);
    plot[1][2] = seed;
    reset_plot(&mut plot);
    for row in &plot {
        for p in row {
            assert!(!p.processed());
            assert!(!p.filled);
        }
    }
}
