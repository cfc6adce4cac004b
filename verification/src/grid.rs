use vstd::prelude::*;
use crate::ctx::Ctx;
use crate::evaluator::mandel_point;
use crate::point::PlotPoint;

verus! {

/// The plot is a row-major rectangle: `h` rows of `w` points each.
pub open spec fn grid_dims(plot: Seq<Vec<PlotPoint>>, w: int, h: int) -> bool {
    &&& plot.len() == h
    &&& forall|r: int| 0 <= r < h ==> (#[trigger] plot[r])@.len() == w
}

/// Once a point's value is set, no scheduler activity changes it: every
/// point processed in the old grid is byte-for-byte the same in the new one.
pub open spec fn preserves_processed(
    p0: Seq<Vec<PlotPoint>>,
    p1: Seq<Vec<PlotPoint>>,
    w: int,
    h: int,
) -> bool {
    forall|r: int, c: int|
        0 <= r < h && 0 <= c < w && (#[trigger] p0[r]@[c]).processed_spec() ==> p1[r]@[c]
            == p0[r]@[c]
}

/// What a scan step may have written into a freshly processed point at
/// column `x`, row `y`: either the fast-fill mark (stable at full iteration
/// cost, flagged as filled, never evaluated), or the evaluator's exact result
/// for the pixel's coordinate, with the computed value inside the observed
/// range.
pub open spec fn new_point_ok(ctx: Ctx, pt: PlotPoint, x: int, y: int) -> bool {
    &&& pt.processed_spec()
    &&& pt.calc_spec() == Some(pt.iters_spec() as i128)
    &&& (pt.filled_spec() ==> pt.value_spec() == 0 && pt.iters_spec() == ctx.max_iters)
    &&& (!pt.filled_spec() ==> {
        let m = mandel_point(ctx.x_coord_of(x), ctx.y_coord_of(y), ctx.max_iters as nat);
        &&& pt.value_spec() as int == m.0
        &&& pt.iters_spec() as nat == m.1
        &&& ctx.min_value <= pt.iters_spec() as i128 <= ctx.max_value
    })
}

/// Only processed points may carry the fast-fill flag: a reset clears both
/// together, and the fill shortcut sets both together.
pub open spec fn fill_flags_ok(p: Seq<Vec<PlotPoint>>, w: int, h: int) -> bool {
    forall|r: int, c: int|
        0 <= r < h && 0 <= c < w && !(#[trigger] p[r]@[c]).processed_spec() ==> !p[r]@[c].filled_spec()
}

/// Every point freshly marked with the fast-fill flag sits to the right of
/// a stable seed: its left neighbour is stable, and column 0 is never
/// filled.
pub open spec fn fills_seeded(
    p0: Seq<Vec<PlotPoint>>,
    p1: Seq<Vec<PlotPoint>>,
    w: int,
    h: int,
) -> bool {
    forall|r: int, c: int|
        0 <= r < h && 0 <= c < w && !p0[r]@[c].processed_spec() && (
        #[trigger] p1[r]@[c]).processed_spec() && p1[r]@[c].filled_spec() ==> 1 <= c
            && p1[r]@[c - 1].stable_spec()
}

/// No fast-fill flag moved: points keep their filled state, so the step
/// evaluated rather than filled.
pub open spec fn fill_flags_unchanged(
    p0: Seq<Vec<PlotPoint>>,
    p1: Seq<Vec<PlotPoint>>,
    w: int,
    h: int,
) -> bool {
    forall|r: int, c: int|
        0 <= r < h && 0 <= c < w ==> (#[trigger] p1[r]@[c]).filled_spec() == p0[r]@[c].filled_spec()
}

/// Every point that became processed carries exactly the evaluator's result
/// for its own pixel coordinate: nothing was filled or copied into it.
pub open spec fn new_cells_evaluated(
    ctx: Ctx,
    p0: Seq<Vec<PlotPoint>>,
    p1: Seq<Vec<PlotPoint>>,
) -> bool {
    let w = ctx.win_width as int;
    let h = ctx.win_height as int;
    forall|r: int, c: int|
        0 <= r < h && 0 <= c < w && !p0[r]@[c].processed_spec() && (
        #[trigger] p1[r]@[c]).processed_spec() ==> {
            let m = mandel_point(ctx.x_coord_of(c), ctx.y_coord_of(r), ctx.max_iters as nat);
            &&& p1[r]@[c].value_spec() as int == m.0
            &&& p1[r]@[c].iters_spec() as nat == m.1
            &&& p1[r]@[c].calc_spec() == Some(p1[r]@[c].iters_spec() as i128)
        }
}

/// A step that leaves processed points untouched leaves them whole: the
/// cell's entire state carries over.
pub proof fn lemma_cells_stay(p0: Seq<Vec<PlotPoint>>, p1: Seq<Vec<PlotPoint>>, w: int, h: int)
    requires
        preserves_processed(p0, p1, w, h),
    ensures
        forall|r: int, c: int|
            0 <= r < h && 0 <= c < w && p0[r]@[c].processed_spec() ==> (#[trigger] p1[r]@[c])
                == p0[r]@[c],
{
    assert forall|r: int, c: int|
        0 <= r < h && 0 <= c < w && p0[r]@[c].processed_spec() implies (#[trigger] p1[r]@[c])
        == p0[r]@[c] by {
        assert(p1[r]@[c] == p0[r]@[c]);
    }
}

/// Steps that only evaluate compose: fill flags still have not moved, and
/// fresh cells still carry the evaluator's result for their own pixel.
pub proof fn lemma_eval_step_trans(
    ctx: Ctx,
    p0: Seq<Vec<PlotPoint>>,
    p1: Seq<Vec<PlotPoint>>,
    p2: Seq<Vec<PlotPoint>>,
)
    requires
        grid_dims(p0, ctx.win_width as int, ctx.win_height as int),
        preserves_processed(p1, p2, ctx.win_width as int, ctx.win_height as int),
        fill_flags_unchanged(p0, p1, ctx.win_width as int, ctx.win_height as int),
        fill_flags_unchanged(p1, p2, ctx.win_width as int, ctx.win_height as int),
        new_cells_evaluated(ctx, p0, p1),
        new_cells_evaluated(ctx, p1, p2),
    ensures
        fill_flags_unchanged(p0, p2, ctx.win_width as int, ctx.win_height as int),
        new_cells_evaluated(ctx, p0, p2),
{
    let w = ctx.win_width as int;
    let h = ctx.win_height as int;
    assert forall|r: int, c: int|
        0 <= r < h && 0 <= c < w && !p0[r]@[c].processed_spec() && (
    #[trigger] p2[r]@[c]).processed_spec() implies {
        let m = mandel_point(ctx.x_coord_of(c), ctx.y_coord_of(r), ctx.max_iters as nat);
        &&& p2[r]@[c].value_spec() as int == m.0
        &&& p2[r]@[c].iters_spec() as nat == m.1
        &&& p2[r]@[c].calc_spec() == Some(p2[r]@[c].iters_spec() as i128)
    } by {
        if p1[r]@[c].processed_spec() {
            assert(p2[r]@[c] == p1[r]@[c]);
        }
    }
}

/// The common contract of every scan step, from state `(c0, p0)` to
/// `(c1, p1)`: the grid keeps its shape, processed points are untouched, the
/// context changes only by widening the observed value range, and — as long
/// as the grid's fill flags were disciplined to begin with — they stay so,
/// and every point that became processed carries what `new_point_ok` allows
/// for its own pixel.
pub open spec fn scan_step_ok(
    c0: Ctx,
    p0: Seq<Vec<PlotPoint>>,
    c1: Ctx,
    p1: Seq<Vec<PlotPoint>>,
) -> bool {
    let w = c0.win_width as int;
    let h = c0.win_height as int;
    &&& grid_dims(p1, w, h)
    &&& preserves_processed(p0, p1, w, h)
    &&& c1 == (Ctx { min_value: c1.min_value, max_value: c1.max_value, ..c0 })
    &&& c1.min_value <= c0.min_value
    &&& c1.max_value >= c0.max_value
    &&& fill_flags_ok(p0, w, h) ==> {
        &&& fill_flags_ok(p1, w, h)
        &&& fills_seeded(p0, p1, w, h)
        &&& forall|r: int, c: int|
            0 <= r < h && 0 <= c < w && !p0[r]@[c].processed_spec()
                && (#[trigger] p1[r]@[c]).processed_spec() ==> new_point_ok(c1, p1[r]@[c], c, r)
    }
}

/// A step that leaves processed points untouched in particular leaves them
/// processed.
pub proof fn lemma_processed_stays(p0: Seq<Vec<PlotPoint>>, p1: Seq<Vec<PlotPoint>>, w: int, h: int)
    requires
        preserves_processed(p0, p1, w, h),
    ensures
        forall|r: int, c: int|
            0 <= r < h && 0 <= c < w && p0[r]@[c].processed_spec() ==> (
            #[trigger] p1[r]@[c]).processed_spec(),
{
    assert forall|r: int, c: int|
        0 <= r < h && 0 <= c < w && p0[r]@[c].processed_spec() implies (
    #[trigger] p1[r]@[c]).processed_spec() by {
        assert(p1[r]@[c] == p0[r]@[c]);
    }
}

/// Scan steps compose: two consecutive steps make one step.
pub proof fn lemma_scan_step_trans(
    c0: Ctx,
    p0: Seq<Vec<PlotPoint>>,
    c1: Ctx,
    p1: Seq<Vec<PlotPoint>>,
    c2: Ctx,
    p2: Seq<Vec<PlotPoint>>,
)
    requires
        grid_dims(p0, c0.win_width as int, c0.win_height as int),
        scan_step_ok(c0, p0, c1, p1),
        scan_step_ok(c1, p1, c2, p2),
    ensures
        scan_step_ok(c0, p0, c2, p2),
{
    let w = c0.win_width as int;
    let h = c0.win_height as int;
    assert forall|r: int, c: int|
        0 <= r < h && 0 <= c < w && (#[trigger] p0[r]@[c]).processed_spec() implies p2[r]@[c]
        == p0[r]@[c] by {
        assert(p1[r]@[c] == p0[r]@[c]);
        assert(p1[r]@[c].processed_spec());
    }
    if fill_flags_ok(p0, w, h) {
        assert(fill_flags_ok(p1, w, h));
        assert forall|r: int, c: int|
            0 <= r < h && 0 <= c < w && !p0[r]@[c].processed_spec()
                && (#[trigger] p2[r]@[c]).processed_spec() implies new_point_ok(
            c2,
            p2[r]@[c],
            c,
            r,
        ) by {
            if p1[r]@[c].processed_spec() {
                assert(new_point_ok(c1, p1[r]@[c], c, r));
                assert(p2[r]@[c] == p1[r]@[c]);
            } else {
                assert(new_point_ok(c2, p2[r]@[c], c, r));
            }
        }
        assert forall|r: int, c: int|
            0 <= r < h && 0 <= c < w && !p0[r]@[c].processed_spec() && (
        #[trigger] p2[r]@[c]).processed_spec() && p2[r]@[c].filled_spec() implies 1 <= c && p2[r]@[
            c - 1
        ].stable_spec() by {
            if p1[r]@[c].processed_spec() {
                assert(p2[r]@[c] == p1[r]@[c]);
                assert(1 <= c && p1[r]@[c - 1].stable_spec());
                assert(p2[r]@[c - 1] == p1[r]@[c - 1]);
            } else {
                assert(1 <= c && p2[r]@[c - 1].stable_spec());
            }
        }
    }
}

/// Allocate a grid of unprocessed points for a viewport.
pub fn new_plot(w: usize, h: usize) -> (plot: Vec<Vec<PlotPoint>>)
    ensures
        grid_dims(plot@, w as int, h as int),
        forall|r: int, c: int|
            0 <= r < h && 0 <= c < w ==> !(#[trigger] plot@[r]@[c]).processed_spec()
                && !plot@[r]@[c].filled_spec(),
{
    let mut plot: Vec<Vec<PlotPoint>> = Vec::new();
    let mut y: usize = 0;
    while y < h
        invariant
            y <= h,
            plot@.len() == y,
            forall|r: int| 0 <= r < y ==> (#[trigger] plot@[r])@.len() == w,
            forall|r: int, c: int|
                0 <= r < y && 0 <= c < w ==> !(#[trigger] plot@[r]@[c]).processed_spec()
                    && !plot@[r]@[c].filled_spec(),
        decreases h - y,
    {
        let mut row: Vec<PlotPoint> = Vec::new();
        let mut x: usize = 0;
        while x < w
            invariant
                x <= w,
                row@.len() == x,
                forall|c: int|
                    0 <= c < x ==> !(#[trigger] row@[c]).processed_spec()
                        && !row@[c].filled_spec(),
            decreases w - x,
        {
            row.push(PlotPoint::default());
            x = x + 1;
        }
        plot.push(row);
        y = y + 1;
    }
    plot
}

/// Clear every point of the grid: values and fast-fill flags are dropped, so
/// the next scan re-evaluates everything. Partial results from a superseded
/// request are discarded this way, never merged.
pub fn reset_plot(plot: &mut Vec<Vec<PlotPoint>>)
    ensures
        final(plot)@.len() == old(plot)@.len(),
        forall|r: int|
            0 <= r < old(plot)@.len() ==> (#[trigger] final(plot)@[r])@.len()
                == old(plot)@[r]@.len(),
        forall|r: int, c: int|
            0 <= r < old(plot)@.len() && 0 <= c < old(plot)@[r]@.len()
                ==> !(#[trigger] final(plot)@[r]@[c]).processed_spec()
                && !final(plot)@[r]@[c].filled_spec(),
{
    let h = plot.len();
    let mut y: usize = 0;
    while y < h
        invariant
            y <= h,
            h == plot@.len(),
            plot@.len() == old(plot)@.len(),
            forall|r: int|
                0 <= r < h ==> (#[trigger] plot@[r])@.len() == old(plot)@[r]@.len(),
            forall|r: int, c: int|
                0 <= r < y && 0 <= c < plot@[r]@.len()
                    ==> !(#[trigger] plot@[r]@[c]).processed_spec()
                    && !plot@[r]@[c].filled_spec(),
        decreases h - y,
    {
        let w = plot[y].len();
        let mut x: usize = 0;
        while x < w
            invariant
                y < h,
                h == plot@.len(),
                plot@.len() == old(plot)@.len(),
                x <= w,
                w == plot@[y as int]@.len(),
                forall|r: int|
                    0 <= r < h ==> (#[trigger] plot@[r])@.len() == old(plot)@[r]@.len(),
                forall|r: int, c: int|
                    0 <= r < y && 0 <= c < plot@[r]@.len()
                        ==> !(#[trigger] plot@[r]@[c]).processed_spec()
                        && !plot@[r]@[c].filled_spec(),
                forall|c: int|
                    0 <= c < x ==> !(#[trigger] plot@[y as int]@[c]).processed_spec()
                        && !plot@[y as int]@[c].filled_spec(),
            decreases w - x,
        {
            let mut p = plot[y][x];
            p.reset();
            plot[y][x] = p;
            x = x + 1;
        }
        y = y + 1;
    }
}

/// Whether the pixel at column `x` (false when `x` is negative: column 0 has
/// no left neighbour) of row `y` is a known stable point.
pub fn near_border(plot: &Vec<Vec<PlotPoint>>, x: i64, y: usize) -> (r: bool)
    requires
        y < plot@.len(),
        x < plot@[y as int]@.len(),
    ensures
        r == (0 <= x && plot@[y as int]@[x as int].stable_spec()),
{
    if x < 0 {
        return false;
    }

    let row_len: usize = plot[y].len();
    proof {
        assert((x as int) < (row_len as int));
    }
    let point = plot[y][x as usize];

    point.stable()
}

/// Write one opaque pixel into the row-major RGBA byte buffer.
pub fn set_pixel(ctx: &Ctx, data: &mut Vec<u8>, x: usize, y: usize, r: u8, g: u8, b: u8)
    requires
        ctx.wf(),
        x < ctx.win_width,
        y < ctx.win_height,
        old(data)@.len() == 4 * (ctx.win_width as int) * (ctx.win_height as int),
    ensures
        final(data)@.len() == old(data)@.len(),
        ({
            let index = 4 * (x as int + y as int * ctx.win_width as int);
            final(data)@ == old(data)@.update(index, r).update(index + 1, g).update(
                index + 2,
                b,
            ).update(index + 3, 255u8)
        }),
{
    proof {
        lemma_pixel_index_fits(x as int, y as int, ctx.win_width as int, ctx.win_height as int);
    }
    let index = (x + y * ctx.win_width) * 4;

    data[index] = r;
    data[index + 1] = g;
    data[index + 2] = b;
    data[index + 3] = 255;
    proof {
        assert(4 * (x as int + y as int * ctx.win_width as int) == index as int);
    }
}

/// The byte index of a pixel is within the RGBA buffer.
proof fn lemma_pixel_index_fits(x: int, y: int, w: int, h: int)
    requires
        0 <= x < w,
        0 <= y < h,
        4 * w * h <= usize::MAX as int,
    ensures
        0 <= y * w,
        (x + y * w) * 4 + 3 < 4 * w * h,
{
    assert(0 <= y * w && (x + y * w) * 4 + 3 < 4 * w * h) by (nonlinear_arith)
        requires
            0 <= x < w,
            0 <= y < h,
    ;
}

} // verus!
