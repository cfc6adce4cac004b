use vstd::prelude::*;
use vstd::arithmetic::div_mod::{
    lemma_fundamental_div_mod, lemma_mod_division_less_than_divisor, lemma_mod_multiples_vanish,
    lemma_small_mod,
};
use vstd::arithmetic::mul::lemma_mul_upper_bound;
use crate::ctx::Ctx;
use crate::evaluator::{mandel_point, mandelbrot_val_at_point, Complex, COORD_LIMIT};
use crate::grid::{fill_flags_unchanged, grid_dims, lemma_cells_stay, lemma_eval_step_trans, lemma_processed_stays, lemma_scan_step_trans, new_cells_evaluated, scan_step_ok};
use crate::point::PlotPoint;

verus! {

/// The eight directions of the boundary walk, in clockwise order starting
/// rightward, matching the neighbour-offset table.
#[derive(Clone, Copy, Debug, PartialEq, Eq, Structural)]
pub enum TraceDirection {
    Right,
    RightDown,
    Down,
    LeftDown,
    Left,
    LeftUp,
    Up,
    RightUp,
}

impl TraceDirection {
    /// The direction's position in the clockwise neighbour order.
    pub open spec fn index_spec(self) -> int {
        match self {
            TraceDirection::Right => 0,
            TraceDirection::RightDown => 1,
            TraceDirection::Down => 2,
            TraceDirection::LeftDown => 3,
            TraceDirection::Left => 4,
            TraceDirection::LeftUp => 5,
            TraceDirection::Up => 6,
            TraceDirection::RightUp => 7,
        }
    }

    pub fn get_index(&self) -> (r: usize)
        ensures
            r == self.index_spec(),
            r < 8,
    {
        match self {
            TraceDirection::Right => 0,
            TraceDirection::RightDown => 1,
            TraceDirection::Down => 2,
            TraceDirection::LeftDown => 3,
            TraceDirection::Left => 4,
            TraceDirection::LeftUp => 5,
            TraceDirection::Up => 6,
            TraceDirection::RightUp => 7,
        }
    }
}

/// The pixel offset and direction of the neighbour at position `idx` of the
/// clockwise order: right, right-down, down, left-down, left, left-up, up,
/// right-up.
pub open spec fn neighbour_spec(idx: int) -> (int, int, TraceDirection) {
    if idx == 0 {
        (1, 0, TraceDirection::Right)
    } else if idx == 1 {
        (1, 1, TraceDirection::RightDown)
    } else if idx == 2 {
        (0, 1, TraceDirection::Down)
    } else if idx == 3 {
        (-1, 1, TraceDirection::LeftDown)
    } else if idx == 4 {
        (-1, 0, TraceDirection::Left)
    } else if idx == 5 {
        (-1, -1, TraceDirection::LeftUp)
    } else if idx == 6 {
        (0, -1, TraceDirection::Up)
    } else {
        (1, -1, TraceDirection::RightUp)
    }
}

fn neighbour_entry(idx: usize) -> (r: (i64, i64, TraceDirection))
    requires
        idx < 8,
    ensures
        r.0 as int == neighbour_spec(idx as int).0,
        r.1 as int == neighbour_spec(idx as int).1,
        r.2 == neighbour_spec(idx as int).2,
{
    if idx == 0 {
        (1, 0, TraceDirection::Right)
    } else if idx == 1 {
        (1, 1, TraceDirection::RightDown)
    } else if idx == 2 {
        (0, 1, TraceDirection::Down)
    } else if idx == 3 {
        (-1, 1, TraceDirection::LeftDown)
    } else if idx == 4 {
        (-1, 0, TraceDirection::Left)
    } else if idx == 5 {
        (-1, -1, TraceDirection::LeftUp)
    } else if idx == 6 {
        (0, -1, TraceDirection::Up)
    } else {
        (1, -1, TraceDirection::RightUp)
    }
}

/// Everything in the grid except the cell at `(y, x)` is untouched.
pub open spec fn only_cell_changed(
    p0: Seq<Vec<PlotPoint>>,
    p1: Seq<Vec<PlotPoint>>,
    w: int,
    h: int,
    x: int,
    y: int,
) -> bool {
    forall|r: int, c: int|
        0 <= r < h && 0 <= c < w && !(r == y && c == x) ==> (#[trigger] p1[r]@[c]) == p0[r]@[c]
}

/// Everything outside the 3-by-3 neighbourhood centred on `(y, x)` is
/// untouched.
pub open spec fn only_neighbourhood_changed(
    p0: Seq<Vec<PlotPoint>>,
    p1: Seq<Vec<PlotPoint>>,
    w: int,
    h: int,
    x: int,
    y: int,
) -> bool {
    forall|r: int, c: int|
        0 <= r < h && 0 <= c < w && (r < y - 1 || r > y + 1 || c < x - 1 || c > x + 1) ==> (
        #[trigger] p1[r]@[c]) == p0[r]@[c]
}

/// Fresh cells of one evaluating step carry the evaluator's result and no
/// fill flag moved: the congruence over contexts that differ only in the
/// observed value range.
pub proof fn lemma_nce_same_view(
    ca: Ctx,
    cb: Ctx,
    p0: Seq<Vec<PlotPoint>>,
    p1: Seq<Vec<PlotPoint>>,
)
    requires
        cb == (Ctx { min_value: cb.min_value, max_value: cb.max_value, ..ca }),
        new_cells_evaluated(ca, p0, p1),
    ensures
        new_cells_evaluated(cb, p0, p1),
{
    let w = cb.win_width as int;
    let h = cb.win_height as int;
    assert forall|r: int, c: int|
        0 <= r < h && 0 <= c < w && !p0[r]@[c].processed_spec() && (
    #[trigger] p1[r]@[c]).processed_spec() implies {
        let m = mandel_point(cb.x_coord_of(c), cb.y_coord_of(r), cb.max_iters as nat);
        &&& p1[r]@[c].value_spec() as int == m.0
        &&& p1[r]@[c].iters_spec() as nat == m.1
        &&& p1[r]@[c].calc_spec() == Some(p1[r]@[c].iters_spec() as i128)
    } by {
        assert(cb.x_coord_of(c) == ca.x_coord_of(c));
        assert(cb.y_coord_of(r) == ca.y_coord_of(r));
    }
}

/// Every row outside the window `[lo, hi)` is untouched.
pub open spec fn outside_window_unchanged(
    p0: Seq<Vec<PlotPoint>>,
    p1: Seq<Vec<PlotPoint>>,
    w: int,
    h: int,
    lo: int,
    hi: int,
) -> bool {
    forall|r: int, c: int|
        0 <= r < h && 0 <= c < w && !(lo <= r < hi) ==> (#[trigger] p1[r]@[c]) == p0[r]@[c]
}

/// Evaluate one point unless it was already processed (then nothing happens
/// and the call reports so), folding a fresh computed value into the
/// context's observed range.
pub fn calculate_point(ctx: &mut Ctx, plot_point: &mut PlotPoint, cx: i64, cy: i64) -> (r: bool)
    requires
        -COORD_LIMIT <= cx <= COORD_LIMIT,
        -COORD_LIMIT <= cy <= COORD_LIMIT,
        old(ctx).max_iters < usize::MAX,
    ensures
        r == old(plot_point).processed_spec(),
        r ==> *final(ctx) == *old(ctx) && *final(plot_point) == *old(plot_point),
        !r ==> ({
            let m = mandel_point(cx as int, cy as int, old(ctx).max_iters as nat);
            let calc = final(plot_point).iters_spec() as i128;
            &&& final(plot_point).processed_spec()
            &&& final(plot_point).value_spec() as int == m.0
            &&& final(plot_point).iters_spec() as nat == m.1
            &&& final(plot_point).calc_spec() == Some(calc)
            &&& final(plot_point).filled_spec() == old(plot_point).filled_spec()
            &&& *final(ctx) == (Ctx {
                min_value: if calc < old(ctx).min_value {
                    calc
                } else {
                    old(ctx).min_value
                },
                max_value: if calc > old(ctx).max_value {
                    calc
                } else {
                    old(ctx).max_value
                },
                ..*old(ctx)
            })
        }),
{
    if plot_point.processed() {
        return true;
    }

    mandelbrot_val_at_point(Complex::new(cx, cy), ctx.max_iters, plot_point);

    let calc_value: i128 = plot_point.calculated_value();

    if calc_value < ctx.min_value {
        ctx.min_value = calc_value;
    }

    if calc_value > ctx.max_value {
        ctx.max_value = calc_value;
    }

    false
}

/// Evaluate the pixel at `(x, y)` if it is still unprocessed, and report
/// whether it is stable.
pub fn process_point(ctx: &mut Ctx, plot: &mut Vec<Vec<PlotPoint>>, x: usize, y: usize) -> (r:
    bool)
    requires
        old(ctx).wf(),
        old(ctx).max_iters < usize::MAX,
        grid_dims(old(plot)@, old(ctx).win_width as int, old(ctx).win_height as int),
        x < old(ctx).win_width,
        y < old(ctx).win_height,
    ensures
        scan_step_ok(*old(ctx), old(plot)@, *final(ctx), final(plot)@),
        only_cell_changed(
            old(plot)@,
            final(plot)@,
            old(ctx).win_width as int,
            old(ctx).win_height as int,
            x as int,
            y as int,
        ),
        final(plot)@[y as int]@[x as int].processed_spec(),
        r == final(plot)@[y as int]@[x as int].stable_spec(),
        old(plot)@[y as int]@[x as int].processed_spec() ==> *final(ctx) == *old(ctx)
            && final(plot)@ == old(plot)@,
        fill_flags_unchanged(
            old(plot)@,
            final(plot)@,
            old(ctx).win_width as int,
            old(ctx).win_height as int,
        ),
        new_cells_evaluated(*old(ctx), old(plot)@, final(plot)@),
        final(ctx).wf(),
{
    let mut p = plot[y][x];

    if p.processed() {
        return p.stable();
    }

    let coords = ctx.get_coords(x, y);
    calculate_point(ctx, &mut p, coords.0, coords.1);
    plot[y][x] = p;

    proof {
        let c0 = *old(ctx);
        let p0 = old(plot)@;
        let p1 = plot@;
        let w = c0.win_width as int;
        let h = c0.win_height as int;
        assert(p1[y as int]@ == p0[y as int]@.update(x as int, p));
        assert forall|rr: int, cc: int|
            0 <= rr < h && 0 <= cc < w && (#[trigger] p0[rr]@[cc]).processed_spec()
                implies p1[rr]@[cc] == p0[rr]@[cc] by {
            assert(!(rr == y as int && cc == x as int));
        }
        if crate::grid::fill_flags_ok(p0, w, h) {
            assert(!p0[y as int]@[x as int].filled_spec());
            assert forall|rr: int, cc: int|
                0 <= rr < h && 0 <= cc < w && !p0[rr]@[cc].processed_spec()
                    && (#[trigger] p1[rr]@[cc]).processed_spec()
                    implies crate::grid::new_point_ok(*ctx, p1[rr]@[cc], cc, rr) by {
                assert(rr == y as int && cc == x as int);
                assert(p1[rr]@[cc] == p);
            }
            assert(!p.filled_spec());
        }
        assert forall|rr: int, cc: int|
            0 <= rr < h && 0 <= cc < w implies (#[trigger] p1[rr]@[cc]).filled_spec()
            == p0[rr]@[cc].filled_spec() by {
            if rr == y as int && cc == x as int {
                assert(p1[rr]@[cc] == p);
            } else {
                assert(p1[rr]@[cc] == p0[rr]@[cc]);
            }
        }
        assert forall|rr: int, cc: int|
            0 <= rr < h && 0 <= cc < w && !p0[rr]@[cc].processed_spec() && (
        #[trigger] p1[rr]@[cc]).processed_spec() implies {
            let m = mandel_point(c0.x_coord_of(cc), c0.y_coord_of(rr), c0.max_iters as nat);
            &&& p1[rr]@[cc].value_spec() as int == m.0
            &&& p1[rr]@[cc].iters_spec() as nat == m.1
            &&& p1[rr]@[cc].calc_spec() == Some(p1[rr]@[cc].iters_spec() as i128)
        } by {
            assert(rr == y as int && cc == x as int);
            assert(p1[rr]@[cc] == p);
        }
    }

    p.stable()
}

/// Walk rightward from column `x` of row `y`, marking unprocessed pixels as
/// stable at full iteration cost without evaluating them, until a processed
/// non-stable pixel or the row's right edge stops the run. Returns the column
/// where the run stopped.
#[verifier::loop_isolation(false)]
pub fn process_fast(ctx: &mut Ctx, plot: &mut Vec<Vec<PlotPoint>>, x: usize, y: usize) -> (r:
    usize)
    requires
        old(ctx).wf(),
        old(ctx).max_iters < usize::MAX,
        grid_dims(old(plot)@, old(ctx).win_width as int, old(ctx).win_height as int),
        1 <= x <= old(ctx).win_width,
        y < old(ctx).win_height,
        old(plot)@[y as int]@[x as int - 1].stable_spec(),
    ensures
        scan_step_ok(*old(ctx), old(plot)@, *final(ctx), final(plot)@),
        *final(ctx) == *old(ctx),
        x <= r <= old(ctx).win_width,
        forall|rr: int, cc: int|
            0 <= rr < old(ctx).win_height as int && 0 <= cc < old(ctx).win_width as int && !(rr
                == y as int && x as int <= cc <= r as int) ==> (#[trigger] final(plot)@[rr]@[cc])
                == old(plot)@[rr]@[cc],
        forall|cc: int|
            x as int <= cc <= r as int && cc < old(ctx).win_width as int ==> (
            #[trigger] final(plot)@[y as int]@[cc]).processed_spec(),
        // every pixel of the run is stable afterwards, and the fresh ones
        // carry the fast-fill mark at full iteration cost
        forall|cc: int|
            x as int <= cc < r as int ==> (#[trigger] final(plot)@[y as int]@[cc]).stable_spec(),
        forall|cc: int|
            x as int <= cc < r as int && !old(plot)@[y as int]@[cc].processed_spec() ==> ({
                let pt = #[trigger] final(plot)@[y as int]@[cc];
                &&& pt.filled_spec()
                &&& pt.value_spec() == 0
                &&& pt.iters_spec() == old(ctx).max_iters
                &&& pt.calc_spec() == Some(old(ctx).max_iters as i128)
            }),
        // the run stopped at the first column that could stop it
        forall|cc: int|
            x as int <= cc < r as int ==> !((#[trigger] old(plot)@[y as int]@[cc]).processed_spec()
                && !old(plot)@[y as int]@[cc].stable_spec()) && (cc
                == old(ctx).win_width as int - 1 ==> !old(plot)@[y as int]@[cc].processed_spec()),
        (r as int) < old(ctx).win_width as int ==> old(plot)@[y as int]@[r as int].processed_spec()
            && (!old(plot)@[y as int]@[r as int].stable_spec() || r as int
            == old(ctx).win_width as int - 1),
        final(ctx).wf(),
{
    let max = ctx.win_width - 1;
    let mut cur_x = x;

    while cur_x <= max
        invariant
            x <= cur_x <= max + 1,
            scan_step_ok(*old(ctx), old(plot)@, *ctx, plot@),
            *ctx == *old(ctx),
            forall|rr: int, cc: int|
                0 <= rr < old(ctx).win_height as int && 0 <= cc < old(ctx).win_width as int && !(
                rr == y as int && x as int <= cc < cur_x as int) ==> (#[trigger] plot@[rr]@[cc])
                    == old(plot)@[rr]@[cc],
            forall|cc: int|
                x as int <= cc < cur_x as int ==> (
                #[trigger] plot@[y as int]@[cc]).processed_spec(),
            forall|cc: int|
                x as int <= cc < cur_x as int ==> (
                #[trigger] plot@[y as int]@[cc]).stable_spec(),
            forall|cc: int|
                x as int <= cc < cur_x as int && !old(plot)@[y as int]@[cc].processed_spec()
                    ==> ({
                    let pt = #[trigger] plot@[y as int]@[cc];
                    &&& pt.filled_spec()
                    &&& pt.value_spec() == 0
                    &&& pt.iters_spec() == old(ctx).max_iters
                    &&& pt.calc_spec() == Some(old(ctx).max_iters as i128)
                }),
            forall|cc: int|
                x as int <= cc < cur_x as int ==> !((
                #[trigger] old(plot)@[y as int]@[cc]).processed_spec() && !old(
                    plot,
                )@[y as int]@[cc].stable_spec()) && (cc == old(ctx).win_width as int - 1
                    ==> !old(plot)@[y as int]@[cc].processed_spec()),
            plot@[y as int]@[x as int - 1].stable_spec(),
        decreases max + 1 - cur_x,
    {
        let ghost c_pre = *ctx;
        let ghost p_pre = plot@;
        let mut p = plot[y][cur_x];

        if p.processed() && (!p.stable() || (p.stable() && cur_x == max)) {
            return cur_x;
        } else if !p.stable() {
            p.calculate(0, ctx.max_iters);
            p.mark_filled();
            plot[y][cur_x] = p;
            proof {
                assert(plot@[y as int]@[cur_x as int - 1].stable_spec());
                lemma_scan_step_trans(*old(ctx), old(plot)@, c_pre, p_pre, *ctx, plot@);
            }
        }

        cur_x = cur_x + 1;
    }

    cur_x
}

/// Examine the eight neighbours of `(x, y)` in the fixed rotational order
/// that starts three positions before the walk's current direction, lazily
/// evaluating every unprocessed in-window neighbour, and return the first
/// stable neighbour with its direction — or `(x, y)` itself when no
/// neighbour is stable, which ends the walk.
#[verifier::loop_isolation(false)]
#[verifier::rlimit(100)]
#[verifier::spinoff_prover]
pub fn process_neighbours(
    ctx: &mut Ctx,
    plot: &mut Vec<Vec<PlotPoint>>,
    x: usize,
    y: usize,
    direction: TraceDirection,
    limit: usize,
) -> (r: (usize, usize, TraceDirection))
    requires
        old(ctx).wf(),
        old(ctx).max_iters < usize::MAX,
        grid_dims(old(plot)@, old(ctx).win_width as int, old(ctx).win_height as int),
        x < old(ctx).win_width,
        old(ctx).offset <= y,
        (y as int) < old(ctx).offset as int + limit as int,
        old(ctx).offset as int + limit as int <= old(ctx).win_height as int,
    ensures
        scan_step_ok(*old(ctx), old(plot)@, *final(ctx), final(plot)@),
        outside_window_unchanged(
            old(plot)@,
            final(plot)@,
            old(ctx).win_width as int,
            old(ctx).win_height as int,
            old(ctx).offset as int,
            old(ctx).offset as int + limit as int,
        ),
        r.0 < old(ctx).win_width,
        old(ctx).offset <= r.1,
        (r.1 as int) < old(ctx).offset as int + limit as int,
        !(r.0 == x && r.1 == y) ==> final(plot)@[r.1 as int]@[r.0 as int].stable_spec(),
        forall|idx: int|
            #![trigger neighbour_spec(idx)]
            0 <= idx < 8 ==> ({
                let nxi = x as int + neighbour_spec(idx).0;
                let nyi = y as int + neighbour_spec(idx).1;
                (0 <= nxi < old(ctx).win_width as int && old(ctx).offset as int <= nyi
                    && nyi < old(ctx).offset as int + limit as int)
                    ==> final(plot)@[nyi]@[nxi].processed_spec()
            }),
        // the result is the first stable in-window neighbour in the
        // rotational visit order, or the seed itself when none is stable
        ({
            let sel = first_stable_from(
                final(plot)@,
                old(ctx).win_width as int,
                old(ctx).offset as int,
                old(ctx).offset as int + limit as int,
                x as int,
                y as int,
                direction.index_spec(),
                0,
            );
            match sel {
                Some(idx) => r.0 as int == x as int + neighbour_spec(idx).0 && r.1 as int
                    == y as int + neighbour_spec(idx).1 && r.2 == neighbour_spec(idx).2,
                None => r.0 == x && r.1 == y && r.2 == TraceDirection::Right,
            }
        }),
        only_neighbourhood_changed(
            old(plot)@,
            final(plot)@,
            old(ctx).win_width as int,
            old(ctx).win_height as int,
            x as int,
            y as int,
        ),
        fill_flags_unchanged(
            old(plot)@,
            final(plot)@,
            old(ctx).win_width as int,
            old(ctx).win_height as int,
        ),
        new_cells_evaluated(*old(ctx), old(plot)@, final(plot)@),
        final(ctx).wf(),
{
    proof {
        crate::ctx::lemma_dim_factor_bound(old(ctx).win_width as int, old(ctx).win_height as int);
    }
    let mut next: (usize, usize, TraceDirection) = (x, y, TraceDirection::Right);
    let mut found = false;
    let ghost mut j_sel: int = 0;
    let d = direction.get_index();
    let mut k: usize = 0;

    while k < 8
        invariant
            k <= 8,
            scan_step_ok(*old(ctx), old(plot)@, *ctx, plot@),
            outside_window_unchanged(
                old(plot)@,
                plot@,
                old(ctx).win_width as int,
                old(ctx).win_height as int,
                old(ctx).offset as int,
                old(ctx).offset as int + limit as int,
            ),
            only_neighbourhood_changed(
                old(plot)@,
                plot@,
                old(ctx).win_width as int,
                old(ctx).win_height as int,
                x as int,
                y as int,
            ),
            fill_flags_unchanged(
                old(plot)@,
                plot@,
                old(ctx).win_width as int,
                old(ctx).win_height as int,
            ),
            new_cells_evaluated(*old(ctx), old(plot)@, plot@),
            next.0 < old(ctx).win_width,
            old(ctx).offset <= next.1,
            (next.1 as int) < old(ctx).offset as int + limit as int,
            !found ==> next.0 == x && next.1 == y && next.2 == TraceDirection::Right,
            found ==> !(next.0 == x && next.1 == y) && plot@[next.1 as int]@[
                next.0 as int
            ].stable_spec(),
            found ==> 0 <= j_sel < k && ({
                let idx = visited_neighbour(d as int, j_sel);
                let nxi = x as int + neighbour_spec(idx).0;
                let nyi = y as int + neighbour_spec(idx).1;
                &&& 0 <= nxi < old(ctx).win_width as int
                &&& old(ctx).offset as int <= nyi < old(ctx).offset as int + limit as int
                &&& next.0 as int == nxi
                &&& next.1 as int == nyi
                &&& next.2 == neighbour_spec(idx).2
            }),
            forall|j: int|
                #![trigger visited_neighbour(d as int, j)]
                0 <= j < k ==> ({
                    let idx = visited_neighbour(d as int, j);
                    let nxi = x as int + neighbour_spec(idx).0;
                    let nyi = y as int + neighbour_spec(idx).1;
                    (0 <= nxi < old(ctx).win_width as int && old(ctx).offset as int <= nyi
                        && nyi < old(ctx).offset as int + limit as int) ==> plot@[nyi]@[
                        nxi
                    ].processed_spec()
                }),
            forall|j: int|
                #![trigger visited_neighbour(d as int, j)]
                0 <= j < (if found {
                    j_sel
                } else {
                    k as int
                }) ==> ({
                    let idx = visited_neighbour(d as int, j);
                    let nxi = x as int + neighbour_spec(idx).0;
                    let nyi = y as int + neighbour_spec(idx).1;
                    (0 <= nxi < old(ctx).win_width as int && old(ctx).offset as int <= nyi
                        && nyi < old(ctx).offset as int + limit as int) ==> !plot@[nyi]@[
                        nxi
                    ].stable_spec()
                }),
        decreases 8 - k,
    {
        let e = neighbour_entry((d + 5 + k) % 8);
        let nx = x as i64 + e.0;
        let ny = y as i64 + e.1;
        proof {
            assert(((d + 5 + k) % 8) as int == visited_neighbour(d as int, k as int));
        }

        if nx >= 0 && nx < ctx.win_width as i64 {
            if ny >= ctx.offset as i64 && ny < ctx.offset as i64 + limit as i64 {
                let ghost c_pre = *ctx;
                let ghost p_pre = plot@;
                let stable = process_point(ctx, plot, nx as usize, ny as usize);
                proof {
                    lemma_processed_stays(
                        p_pre,
                        plot@,
                        old(ctx).win_width as int,
                        old(ctx).win_height as int,
                    );
                    lemma_cells_stay(
                        p_pre,
                        plot@,
                        old(ctx).win_width as int,
                        old(ctx).win_height as int,
                    );
                    lemma_scan_step_trans(*old(ctx), old(plot)@, c_pre, p_pre, *ctx, plot@);
                    lemma_nce_same_view(c_pre, *old(ctx), p_pre, plot@);
                    lemma_eval_step_trans(*old(ctx), old(plot)@, p_pre, plot@);
                    if found {
                        assert(p_pre[next.1 as int]@[next.0 as int].processed_spec());
                        assert(plot@[next.1 as int]@[next.0 as int] == p_pre[next.1 as int]@[
                            next.0 as int
                        ]);
                    }
                }
                if stable && !found {
                    next = (nx as usize, ny as usize, e.2);
                    found = true;
                    proof {
                        j_sel = k as int;
                    }
                }
            }
        }

        k = k + 1;
    }

    proof {
        assert forall|idx: int|
            #![trigger neighbour_spec(idx)]
            0 <= idx < 8 implies ({
            let nxi = x as int + neighbour_spec(idx).0;
            let nyi = y as int + neighbour_spec(idx).1;
            (0 <= nxi < old(ctx).win_width as int && old(ctx).offset as int <= nyi
                && nyi < old(ctx).offset as int + limit as int)
                ==> plot@[nyi]@[nxi].processed_spec()
        }) by {
            let a = idx - d as int - 5;
            lemma_mod_division_less_than_divisor(a, 8);
            let j = a % 8;
            lemma_fundamental_div_mod(a, 8);
            assert(d as int + 5 + j == idx - 8 * (a / 8));
            lemma_mod_multiples_vanish(-(a / 8), idx, 8);
            lemma_small_mod(idx as nat, 8);
            assert(visited_neighbour(d as int, j) == idx);
        }
        let lo = old(ctx).offset as int;
        let hi = old(ctx).offset as int + limit as int;
        let w = old(ctx).win_width as int;
        if found {
            lemma_first_stable_here(plot@, w, lo, hi, x as int, y as int, d as int, 0, j_sel);
        } else {
            lemma_first_stable_missing(plot@, w, lo, hi, x as int, y as int, d as int, 0);
        }
    }
    next
}

/// The neighbour position examined at step `j` of the walk's rotation for a
/// direction of index `d`: the order starts three positions before `d`.
pub open spec fn visited_neighbour(d: int, j: int) -> int {
    (d + 5 + j) % 8
}

/// The neighbour index the walk steps to: the first stable in-window
/// neighbour of `(x, y)` in the rotational visit order for direction index
/// `d`, from visit step `j` on; `None` when no remaining neighbour is
/// stable.
pub open spec fn first_stable_from(
    p: Seq<Vec<PlotPoint>>,
    w: int,
    lo: int,
    hi: int,
    x: int,
    y: int,
    d: int,
    j: int,
) -> Option<int>
    decreases 8 - j,
{
    if j < 0 || j >= 8 {
        None
    } else {
        let idx = visited_neighbour(d, j);
        let nx = x + neighbour_spec(idx).0;
        let ny = y + neighbour_spec(idx).1;
        if 0 <= nx < w && lo <= ny < hi && p[ny]@[nx].stable_spec() {
            Some(idx)
        } else {
            first_stable_from(p, w, lo, hi, x, y, d, j + 1)
        }
    }
}

/// When visit step `js` lands on a stable in-window neighbour and no
/// earlier remaining step does, the selection is that step's neighbour.
proof fn lemma_first_stable_here(
    p: Seq<Vec<PlotPoint>>,
    w: int,
    lo: int,
    hi: int,
    x: int,
    y: int,
    d: int,
    j: int,
    js: int,
)
    requires
        0 <= j <= js < 8,
        ({
            let idx = visited_neighbour(d, js);
            let nx = x + neighbour_spec(idx).0;
            let ny = y + neighbour_spec(idx).1;
            0 <= nx < w && lo <= ny < hi && p[ny]@[nx].stable_spec()
        }),
        forall|j2: int|
            j <= j2 < js ==> ({
                let idx = #[trigger] visited_neighbour(d, j2);
                let nx = x + neighbour_spec(idx).0;
                let ny = y + neighbour_spec(idx).1;
                !(0 <= nx < w && lo <= ny < hi && p[ny]@[nx].stable_spec())
            }),
    ensures
        first_stable_from(p, w, lo, hi, x, y, d, j) == Some(visited_neighbour(d, js)),
    decreases js - j,
{
    if j < js {
        lemma_first_stable_here(p, w, lo, hi, x, y, d, j + 1, js);
    }
}

/// When no remaining visit step lands on a stable in-window neighbour, the
/// selection is empty.
proof fn lemma_first_stable_missing(
    p: Seq<Vec<PlotPoint>>,
    w: int,
    lo: int,
    hi: int,
    x: int,
    y: int,
    d: int,
    j: int,
)
    requires
        0 <= j,
        forall|j2: int|
            j <= j2 < 8 ==> ({
                let idx = #[trigger] visited_neighbour(d, j2);
                let nx = x + neighbour_spec(idx).0;
                let ny = y + neighbour_spec(idx).1;
                !(0 <= nx < w && lo <= ny < hi && p[ny]@[nx].stable_spec())
            }),
    ensures
        first_stable_from(p, w, lo, hi, x, y, d, j) is None,
    decreases 8 - j,
{
    if j < 8 {
        lemma_first_stable_missing(p, w, lo, hi, x, y, d, j + 1);
    }
}

/// Trace the boundary of a stable region discovered at `(x, y)`: walk from
/// stable neighbour to stable neighbour, hugging the boundary on the
/// interior side, until the walk returns to its start. Pixels examined on
/// the way are evaluated and stay marked; boundary pixels are stable but not
/// fast-filled, so a later row scan hitting them from the left still
/// triggers the fast fill for the enclosed interior.
///
/// Each step is keyed by a position and a direction, so a walk longer than
/// the number of such states has revisited one and would never return to its
/// start: the walk is cut there instead of looping on.
#[verifier::loop_isolation(false)]
pub fn trace_edge(ctx: &mut Ctx, plot: &mut Vec<Vec<PlotPoint>>, x: usize, y: usize, limit: usize)
    requires
        old(ctx).wf(),
        old(ctx).max_iters < usize::MAX,
        grid_dims(old(plot)@, old(ctx).win_width as int, old(ctx).win_height as int),
        x < old(ctx).win_width,
        old(ctx).offset <= y,
        (y as int) < old(ctx).offset as int + limit as int,
        old(ctx).offset as int + limit as int <= old(ctx).win_height as int,
    ensures
        scan_step_ok(*old(ctx), old(plot)@, *final(ctx), final(plot)@),
        outside_window_unchanged(
            old(plot)@,
            final(plot)@,
            old(ctx).win_width as int,
            old(ctx).win_height as int,
            old(ctx).offset as int,
            old(ctx).offset as int + limit as int,
        ),
        // every in-window neighbour of the seed was processed by the walk's
        // first step and stays so
        forall|idx: int|
            #![trigger neighbour_spec(idx)]
            0 <= idx < 8 ==> ({
                let nxi = x as int + neighbour_spec(idx).0;
                let nyi = y as int + neighbour_spec(idx).1;
                (0 <= nxi < old(ctx).win_width as int && old(ctx).offset as int <= nyi
                    && nyi < old(ctx).offset as int + limit as int)
                    ==> final(plot)@[nyi]@[nxi].processed_spec()
            }),
        // the walk only evaluates: no fill flag moves, and every pixel it
        // processes carries the evaluator's result for its own coordinate
        fill_flags_unchanged(
            old(plot)@,
            final(plot)@,
            old(ctx).win_width as int,
            old(ctx).win_height as int,
        ),
        new_cells_evaluated(*old(ctx), old(plot)@, final(plot)@),
        final(ctx).wf(),
{
    proof {
        crate::ctx::lemma_dim_factor_bound(old(ctx).win_width as int, old(ctx).win_height as int);
        lemma_mul_upper_bound(
            old(ctx).win_width as int,
            0x4000_0000_0000_0000,
            old(ctx).win_height as int,
            0x4000_0000_0000_0000,
        );
    }
    let first = process_neighbours(ctx, plot, x, y, TraceDirection::Right, limit);
    let mut cur_x = first.0;
    let mut cur_y = first.1;
    let mut cur_dir = first.2;

    if cur_x == x && cur_y == y {
        return;
    }

    let mut fuel: u128 = 8 * ((ctx.win_width as u128) * (ctx.win_height as u128)) + 8;

    while fuel > 0
        invariant
            scan_step_ok(*old(ctx), old(plot)@, *ctx, plot@),
            outside_window_unchanged(
                old(plot)@,
                plot@,
                old(ctx).win_width as int,
                old(ctx).win_height as int,
                old(ctx).offset as int,
                old(ctx).offset as int + limit as int,
            ),
            forall|idx: int|
                #![trigger neighbour_spec(idx)]
                0 <= idx < 8 ==> ({
                    let nxi = x as int + neighbour_spec(idx).0;
                    let nyi = y as int + neighbour_spec(idx).1;
                    (0 <= nxi < old(ctx).win_width as int && old(ctx).offset as int <= nyi
                        && nyi < old(ctx).offset as int + limit as int) ==> plot@[nyi]@[
                        nxi
                    ].processed_spec()
                }),
            fill_flags_unchanged(
                old(plot)@,
                plot@,
                old(ctx).win_width as int,
                old(ctx).win_height as int,
            ),
            new_cells_evaluated(*old(ctx), old(plot)@, plot@),
            cur_x < old(ctx).win_width,
            old(ctx).offset <= cur_y,
            (cur_y as int) < old(ctx).offset as int + limit as int,
        decreases fuel,
    {
        let ghost c_pre = *ctx;
        let ghost p_pre = plot@;
        let r = process_neighbours(ctx, plot, cur_x, cur_y, cur_dir, limit);
        proof {
            lemma_processed_stays(
                p_pre,
                plot@,
                old(ctx).win_width as int,
                old(ctx).win_height as int,
            );
            lemma_scan_step_trans(*old(ctx), old(plot)@, c_pre, p_pre, *ctx, plot@);
            lemma_nce_same_view(c_pre, *old(ctx), p_pre, plot@);
            lemma_eval_step_trans(*old(ctx), old(plot)@, p_pre, plot@);
        }
        cur_x = r.0;
        cur_y = r.1;
        cur_dir = r.2;

        if cur_x == x && cur_y == y {
            return;
        }
        fuel = fuel - 1;
    }
}

} // verus!
