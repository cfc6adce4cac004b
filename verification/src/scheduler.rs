use vstd::prelude::*;
use crate::ctx::{Ctx, Symmetry};
use crate::grid::{fill_flags_ok, grid_dims, lemma_processed_stays, lemma_scan_step_trans, near_border, preserves_processed, scan_step_ok};
use crate::point::PlotPoint;
use crate::tracer::{outside_window_unchanged, process_fast, process_point, trace_edge};

verus! {

/// Where the next chunk's band of rows ends, relative to a window of `limit`
/// rows: `chunk_size` rows past the resume point, clipped to the window.
pub open spec fn band_end_spec(ctx: Ctx, limit: int) -> int {
    if ctx.rows_processed as int + ctx.chunk_size as int <= limit {
        ctx.rows_processed as int + ctx.chunk_size as int
    } else {
        limit
    }
}

/// How many rows the next chunk touches in a window of `limit` rows.
pub open spec fn band_count_spec(ctx: Ctx, limit: int) -> int {
    if (ctx.rows_processed as int) < band_end_spec(ctx, limit) {
        band_end_spec(ctx, limit) - ctx.rows_processed as int
    } else {
        0
    }
}

/// Process the next chunk of rows of the window that starts at row
/// `ctx.offset` and is `limit` rows tall: rows `rows_processed` up to
/// `rows_processed + chunk_size` of the window, clipped to it. Each pixel is
/// evaluated once; a freshly found stable pixel whose left neighbour is
/// already stable fast-fills the run to its right, and one without such a
/// neighbour has its region's boundary traced instead. Returns how many rows
/// of the window were touched.
#[verifier::loop_isolation(false)]
pub fn process_plot_cpu(ctx: &mut Ctx, plot: &mut Vec<Vec<PlotPoint>>, limit: usize) -> (r: usize)
    requires
        old(ctx).wf(),
        old(ctx).max_iters < usize::MAX,
        grid_dims(old(plot)@, old(ctx).win_width as int, old(ctx).win_height as int),
        old(ctx).offset as int + limit as int <= old(ctx).win_height as int,
    ensures
        scan_step_ok(*old(ctx), old(plot)@, *final(ctx), final(plot)@),
        outside_window_unchanged(
            old(plot)@,
            final(plot)@,
            old(ctx).win_width as int,
            old(ctx).win_height as int,
            old(ctx).offset as int,
            old(ctx).offset as int + limit as int,
        ),
        r as int == band_count_spec(*old(ctx), limit as int),
        forall|rr: int, cc: int|
            old(ctx).offset as int + old(ctx).rows_processed as int <= rr
                && rr < old(ctx).offset as int + band_end_spec(*old(ctx), limit as int) && 0 <= cc
                < old(ctx).win_width as int ==> (#[trigger] final(plot)@[rr]@[cc]).processed_spec(),
        final(ctx).wf(),
{
    let mut rows_processed: usize = 0;
    let mut cur_y = ctx.rows_processed;
    let end = if ctx.rows_processed >= limit {
        ctx.rows_processed
    } else if ctx.chunk_size <= limit - ctx.rows_processed {
        ctx.rows_processed + ctx.chunk_size
    } else {
        limit
    };
    proof {
        crate::ctx::lemma_dim_factor_bound(
            old(ctx).win_width as int,
            old(ctx).win_height as int,
        );
    }

    while cur_y < end
        invariant
            old(ctx).rows_processed <= cur_y,
            cur_y <= end || cur_y == old(ctx).rows_processed,
            end as int == if old(ctx).rows_processed as int >= limit as int {
                old(ctx).rows_processed as int
            } else {
                band_end_spec(*old(ctx), limit as int)
            },
            rows_processed as int == cur_y as int - old(ctx).rows_processed as int,
            scan_step_ok(*old(ctx), old(plot)@, *ctx, plot@),
            outside_window_unchanged(
                old(plot)@,
                plot@,
                old(ctx).win_width as int,
                old(ctx).win_height as int,
                old(ctx).offset as int,
                old(ctx).offset as int + limit as int,
            ),
            forall|rr: int, cc: int|
                old(ctx).offset as int + old(ctx).rows_processed as int <= rr
                    && rr < old(ctx).offset as int + cur_y as int && 0 <= cc
                    < old(ctx).win_width as int ==> (
                #[trigger] plot@[rr]@[cc]).processed_spec(),
        decreases end - cur_y,
    {
        let row = ctx.offset + cur_y;
        let mut cur_x: usize = 0;

        while cur_x < ctx.win_width
            invariant
                cur_x <= ctx.win_width + 1,
                cur_y < end,
                row == ctx.offset + cur_y,
                scan_step_ok(*old(ctx), old(plot)@, *ctx, plot@),
                outside_window_unchanged(
                    old(plot)@,
                    plot@,
                    old(ctx).win_width as int,
                    old(ctx).win_height as int,
                    old(ctx).offset as int,
                    old(ctx).offset as int + limit as int,
                ),
                forall|rr: int, cc: int|
                    old(ctx).offset as int + old(ctx).rows_processed as int <= rr
                        && rr < old(ctx).offset as int + cur_y as int && 0 <= cc
                        < old(ctx).win_width as int ==> (
                    #[trigger] plot@[rr]@[cc]).processed_spec(),
                forall|cc: int|
                    0 <= cc < cur_x as int && cc < old(ctx).win_width as int ==> (
                    #[trigger] plot@[row as int]@[cc]).processed_spec(),
            decreases ctx.win_width + 1 - cur_x,
        {
            let ghost c_pre = *ctx;
            let ghost p_pre = plot@;
            let was_processed = plot[row][cur_x].processed();
            let stable = process_point(ctx, plot, cur_x, row);
            proof {
                lemma_processed_stays(
                    p_pre,
                    plot@,
                    old(ctx).win_width as int,
                    old(ctx).win_height as int,
                );
                lemma_scan_step_trans(*old(ctx), old(plot)@, c_pre, p_pre, *ctx, plot@);
            }

            if was_processed {
                cur_x = cur_x + 1;
                continue;
            }

            if stable {
                if near_border(plot, cur_x as i64 - 1, row) {
                    let ghost c_mid = *ctx;
                    let ghost p_mid = plot@;
                    cur_x = process_fast(ctx, plot, cur_x + 1, row);
                    proof {
                        lemma_processed_stays(
                            p_mid,
                            plot@,
                            old(ctx).win_width as int,
                            old(ctx).win_height as int,
                        );
                        lemma_scan_step_trans(*old(ctx), old(plot)@, c_mid, p_mid, *ctx, plot@);
                    }
                } else {
                    let ghost c_mid = *ctx;
                    let ghost p_mid = plot@;
                    trace_edge(ctx, plot, cur_x, row, limit);
                    proof {
                        lemma_processed_stays(
                            p_mid,
                            plot@,
                            old(ctx).win_width as int,
                            old(ctx).win_height as int,
                        );
                        lemma_scan_step_trans(*old(ctx), old(plot)@, c_mid, p_mid, *ctx, plot@);
                    }
                }
            }

            cur_x = cur_x + 1;
        }

        cur_y = cur_y + 1;
        rows_processed = rows_processed + 1;
    }

    rows_processed
}

/// Whether the real axis crosses the viewport, so that the symmetry
/// shortcut applies.
pub open spec fn axis_active(ctx: Ctx) -> bool {
    ctx.y_min < ctx.y_max && ctx.y_min <= 0 <= ctx.y_max
}

/// The last row of the upper part of the scan: the row of the real axis,
/// clipped to the grid; the whole grid when the axis is out of view.
pub open spec fn upper_rows_spec(ctx: Ctx) -> int {
    let h = ctx.win_height as int;
    if axis_active(ctx) {
        if ctx.row_of(0) < h - 1 {
            ctx.row_of(0)
        } else {
            h - 1
        }
    } else {
        h - 1
    }
}

/// The row offset of the mirror copy, from the symmetry classification of
/// the real axis: copied row `r` takes its value from row
/// `2*y1 + 1 - shift - r`.
pub open spec fn axis_shift_spec(ctx: Ctx) -> int {
    if axis_active(ctx) {
        match ctx.symmetry_class_of(0) {
            Symmetry::Exact => 0int,
            Symmetry::OverOne => 1int,
            Symmetry::OverTwo => 2int,
        }
    } else {
        0int
    }
}

/// The last row filled by mirroring: the mirror image of row 0 across the
/// axis at the classified offset, clipped to the grid; 0 when there is
/// nothing above the axis.
pub open spec fn mirror_top_spec(ctx: Ctx) -> int {
    let h = ctx.win_height as int;
    let y1 = upper_rows_spec(ctx);
    let shift = axis_shift_spec(ctx);
    if y1 > 0 {
        if 2 * y1 + 1 - shift < h - 1 {
            2 * y1 + 1 - shift
        } else {
            h - 1
        }
    } else {
        0
    }
}

/// The first row below the mirrored band, scanned directly again.
pub open spec fn lower_start_spec(ctx: Ctx) -> int {
    if mirror_top_spec(ctx) > 0 {
        mirror_top_spec(ctx) + 1
    } else {
        0
    }
}

/// Every processed point of the mirrored band equals its mirror image in
/// the upper part, at the classified offset: what the copy wrote is still a
/// copy.
pub open spec fn mirror_consistent(ctx: Ctx, p: Seq<Vec<PlotPoint>>) -> bool {
    let w = ctx.win_width as int;
    let y1 = upper_rows_spec(ctx);
    let y3 = mirror_top_spec(ctx);
    let shift = axis_shift_spec(ctx);
    forall|r: int, c: int|
        y1 + 1 <= r <= y3 && 0 <= c < w && (#[trigger] p[r]@[c]).processed_spec() ==> p[r]@[c]
            == p[2 * y1 + 1 - shift - r]@[c]
}

/// How many rows one frame advances the scan by: the mirrored band counts
/// once, on the first frame, and each of the two scanned windows contributes
/// its next chunk.
pub open spec fn rows_advanced_spec(ctx: Ctx) -> int {
    let h = ctx.win_height as int;
    let y1 = upper_rows_spec(ctx);
    let y3 = mirror_top_spec(ctx);
    let y4 = lower_start_spec(ctx);
    (if ctx.rows_processed == 0 {
        y3 - y1
    } else {
        0
    }) + (if y1 > 0 {
        band_count_spec(ctx, y1 + 1)
    } else {
        0
    }) + (if h - 1 >= y4 {
        band_count_spec(ctx, h - y4)
    } else {
        0
    })
}

/// What one frame owes the grid, given a grid whose mirror band is a copy
/// and whose fill flags are disciplined: every processed point survives
/// untouched, and both invariants are re-established.
#[verifier::opaque]
pub open spec fn frame_keeps_grid(c0: Ctx, p0: Seq<Vec<PlotPoint>>, p1: Seq<Vec<PlotPoint>>) -> bool {
    mirror_consistent(c0, p0) && fill_flags_ok(p0, c0.win_width as int, c0.win_height as int)
        ==> {
        &&& preserves_processed(p0, p1, c0.win_width as int, c0.win_height as int)
        &&& mirror_consistent(c0, p1)
        &&& fill_flags_ok(p1, c0.win_width as int, c0.win_height as int)
    }
}

/// Run one frame of the scan: process the next chunk of rows above the
/// real axis, refresh the mirrored band below it by copying the mirror
/// rows, and process the next chunk of the window below the band. Advances
/// the resume point by one chunk and the total row count by what this frame
/// touched, and returns that count.
#[verifier::loop_isolation(false)]
#[verifier::rlimit(100)]
#[verifier::spinoff_prover]
pub fn advance_plot(ctx: &mut Ctx, plot: &mut Vec<Vec<PlotPoint>>) -> (r: usize)
    requires
        old(ctx).wf(),
        old(ctx).max_iters < usize::MAX,
        grid_dims(old(plot)@, old(ctx).win_width as int, old(ctx).win_height as int),
        old(ctx).rows_processed as int + old(ctx).chunk_size as int <= usize::MAX as int,
        old(ctx).total_rows_processed as int + old(ctx).win_height as int <= usize::MAX as int,
    ensures
        grid_dims(final(plot)@, old(ctx).win_width as int, old(ctx).win_height as int),
        final(ctx).wf(),
        *final(ctx) == (Ctx {
            min_value: final(ctx).min_value,
            max_value: final(ctx).max_value,
            rows_processed: final(ctx).rows_processed,
            total_rows_processed: final(ctx).total_rows_processed,
            offset: final(ctx).offset,
            ..*old(ctx)
        }),
        final(ctx).min_value <= old(ctx).min_value,
        final(ctx).max_value >= old(ctx).max_value,
        final(ctx).rows_processed as int == old(ctx).rows_processed as int
            + old(ctx).chunk_size as int,
        final(ctx).total_rows_processed as int == old(ctx).total_rows_processed as int + r as int,
        r as int == rows_advanced_spec(*old(ctx)),
        r <= old(ctx).win_height,
        frame_keeps_grid(*old(ctx), old(plot)@, final(plot)@),

        mirror_top_spec(*old(ctx)) >= upper_rows_spec(*old(ctx)) + 1 ==> forall|rr: int, cc: int|
            upper_rows_spec(*old(ctx)) + 1 <= rr <= mirror_top_spec(*old(ctx)) && 0 <= cc
                < old(ctx).win_width as int ==> (#[trigger] final(plot)@[rr]@[cc])
                == final(plot)@[2 * upper_rows_spec(*old(ctx)) + 1 - axis_shift_spec(*old(ctx)) - rr]@[cc],
        upper_rows_spec(*old(ctx)) > 0 ==> forall|rr: int, cc: int|
            old(ctx).rows_processed as int <= rr
                && rr < band_end_spec(*old(ctx), upper_rows_spec(*old(ctx)) + 1) && 0 <= cc
                < old(ctx).win_width as int ==> (#[trigger] final(plot)@[rr]@[cc]).processed_spec(),
        old(ctx).win_height as int - 1 >= lower_start_spec(*old(ctx)) ==> forall|rr: int, cc: int|
            lower_start_spec(*old(ctx)) + old(ctx).rows_processed as int <= rr && rr
                < lower_start_spec(*old(ctx)) + band_end_spec(
                *old(ctx),
                old(ctx).win_height as int - lower_start_spec(*old(ctx)),
            ) && 0 <= cc < old(ctx).win_width as int ==> (
            #[trigger] final(plot)@[rr]@[cc]).processed_spec(),
{
    proof {
        crate::ctx::lemma_dim_factor_bound(
            old(ctx).win_width as int,
            old(ctx).win_height as int,
        );
    }
    let ghost c0 = *old(ctx);

    let y_max_row = ctx.win_height - 1;
    let mut shift: usize = 0;
    let y0 = if ctx.y_min < ctx.y_max && ctx.y_min <= 0 && 0 <= ctx.y_max {
        let rv = ctx.revert_y(0);
        shift = match rv.1 {
            Symmetry::Exact => 0,
            Symmetry::OverOne => 1,
            Symmetry::OverTwo => 2,
        };
        rv.0
    } else {
        y_max_row
    };
    let y1 = if y0 < y_max_row {
        y0
    } else {
        y_max_row
    };
    let y3 = if y1 > 0 {
        if 2 * y1 + 1 - shift < y_max_row {
            2 * y1 + 1 - shift
        } else {
            y_max_row
        }
    } else {
        0
    };
    let y4 = if y3 > 0 {
        y3 + 1
    } else {
        0
    };
    proof {
        assert(shift as int == axis_shift_spec(c0));
        assert(y1 as int == upper_rows_spec(c0));
        assert(y3 as int == mirror_top_spec(c0));
        assert(y4 as int == lower_start_spec(c0));
        assert(y1 <= y3 <= y_max_row);
    }

    let mut rows_processed: usize = 0;

    if ctx.rows_processed == 0 {
        rows_processed = rows_processed + (y3 - y1);
    }

    let n = scan_frame(ctx, plot, y1, y3, y4, shift);
    rows_processed = rows_processed + n;

    ctx.rows_processed = ctx.rows_processed + ctx.chunk_size;
    ctx.total_rows_processed = ctx.total_rows_processed + rows_processed;

    rows_processed
}

/// The grid half of one frame: the upper chunk scan, the mirror copy of the
/// band, and the lower chunk scan, for a frame geometry already derived
/// from the context. Returns how many rows the two scans touched.
#[verifier::loop_isolation(false)]
#[verifier::rlimit(100)]
#[verifier::spinoff_prover]
fn scan_frame(
    ctx: &mut Ctx,
    plot: &mut Vec<Vec<PlotPoint>>,
    y1: usize,
    y3: usize,
    y4: usize,
    shift: usize,
) -> (r: usize)
    requires
        old(ctx).wf(),
        old(ctx).max_iters < usize::MAX,
        grid_dims(old(plot)@, old(ctx).win_width as int, old(ctx).win_height as int),
        y1 as int == upper_rows_spec(*old(ctx)),
        y3 as int == mirror_top_spec(*old(ctx)),
        y4 as int == lower_start_spec(*old(ctx)),
        shift as int == axis_shift_spec(*old(ctx)),
        y1 as int <= y3 as int <= old(ctx).win_height as int - 1,
        shift <= 2,
    ensures
        grid_dims(final(plot)@, old(ctx).win_width as int, old(ctx).win_height as int),
        final(ctx).wf(),
        *final(ctx) == (Ctx {
            min_value: final(ctx).min_value,
            max_value: final(ctx).max_value,
            offset: final(ctx).offset,
            ..*old(ctx)
        }),
        final(ctx).min_value <= old(ctx).min_value,
        final(ctx).max_value >= old(ctx).max_value,
        r as int == (if upper_rows_spec(*old(ctx)) > 0 {
            band_count_spec(*old(ctx), upper_rows_spec(*old(ctx)) + 1)
        } else {
            0
        }) + (if old(ctx).win_height as int - 1 >= lower_start_spec(*old(ctx)) {
            band_count_spec(
                *old(ctx),
                old(ctx).win_height as int - lower_start_spec(*old(ctx)),
            )
        } else {
            0
        }),
        frame_keeps_grid(*old(ctx), old(plot)@, final(plot)@),
        mirror_top_spec(*old(ctx)) >= upper_rows_spec(*old(ctx)) + 1 ==> forall|rr: int, cc: int|
            upper_rows_spec(*old(ctx)) + 1 <= rr <= mirror_top_spec(*old(ctx)) && 0 <= cc
                < old(ctx).win_width as int ==> (#[trigger] final(plot)@[rr]@[cc])
                == final(plot)@[2 * upper_rows_spec(*old(ctx)) + 1 - axis_shift_spec(*old(ctx)) - rr]@[cc],
        upper_rows_spec(*old(ctx)) > 0 ==> forall|rr: int, cc: int|
            old(ctx).rows_processed as int <= rr
                && rr < band_end_spec(*old(ctx), upper_rows_spec(*old(ctx)) + 1) && 0 <= cc
                < old(ctx).win_width as int ==> (#[trigger] final(plot)@[rr]@[cc]).processed_spec(),
        old(ctx).win_height as int - 1 >= lower_start_spec(*old(ctx)) ==> forall|rr: int, cc: int|
            lower_start_spec(*old(ctx)) + old(ctx).rows_processed as int <= rr && rr
                < lower_start_spec(*old(ctx)) + band_end_spec(
                *old(ctx),
                old(ctx).win_height as int - lower_start_spec(*old(ctx)),
            ) && 0 <= cc < old(ctx).win_width as int ==> (
            #[trigger] final(plot)@[rr]@[cc]).processed_spec(),
{
    proof {
        crate::ctx::lemma_dim_factor_bound(
            old(ctx).win_width as int,
            old(ctx).win_height as int,
        );
    }
    let ghost c0 = *old(ctx);
    let ghost p0 = old(plot)@;
    let ghost w_g = old(ctx).win_width as int;
    let ghost h_g = old(ctx).win_height as int;
    let ghost hyp = mirror_consistent(c0, p0) && fill_flags_ok(p0, w_g, h_g);
    let y_max_row = ctx.win_height - 1;
    let y2 = y1 + 1;

    let mut rows_scanned: usize = 0;

    if y1 > 0 {
        ctx.offset = 0;
        let n = process_plot_cpu(ctx, plot, y1 + 1);
        rows_scanned = rows_scanned + n;
    }

    let ghost p_up = plot@;
    proof {
        if hyp {
            lemma_mirror_survives_upper(c0, p0, p_up);
        }
    }

    if y3 >= y2 {
        copy_mirror_band(plot, ctx.win_width, ctx.win_height, y1, y3, shift, Ghost(hyp));
    }

    let ghost p_cp = plot@;

    if y_max_row >= y4 {
        ctx.offset = y4;
        let n = process_plot_cpu(ctx, plot, ctx.win_height - y4);
        rows_scanned = rows_scanned + n;
    }

    proof {
        lemma_advance_assemble(c0, p0, p_up, p_cp, plot@, hyp);
    }

    rows_scanned
}

/// Copy the mirrored band: each row `r` of `[y1 + 1, y3]` takes its pixels
/// from row `2*y1 + 1 - shift - r`, its reflection across the real axis at
/// the classified offset. When the band's processed points already equalled
/// their reflections, the copy rewrites them with their own values, so
/// computed pixels never change.
#[verifier::loop_isolation(false)]
fn copy_mirror_band(
    plot: &mut Vec<Vec<PlotPoint>>,
    w: usize,
    h: usize,
    y1: usize,
    y3: usize,
    shift: usize,
    hyp: Ghost<bool>,
)
    requires
        grid_dims(old(plot)@, w as int, h as int),
        1 <= y1,
        y1 + 1 <= y3,
        y3 < h,
        shift <= 2,
        2 * (y1 as int) + 1 <= usize::MAX as int,
        y3 as int <= 2 * (y1 as int) + 1 - shift as int,
        hyp@ ==> forall|rr: int, cc: int|
            y1 as int + 1 <= rr <= y3 as int && 0 <= cc < w as int && (
            #[trigger] old(plot)@[rr]@[cc]).processed_spec() ==> old(plot)@[rr]@[cc] == old(
                plot,
            )@[2 * (y1 as int) + 1 - shift as int - rr]@[cc],
    ensures
        grid_dims(final(plot)@, w as int, h as int),
        forall|rr: int, cc: int|
            0 <= rr < h as int && 0 <= cc < w as int && !(y1 as int + 1 <= rr <= y3 as int) ==> (
            #[trigger] final(plot)@[rr]@[cc]) == old(plot)@[rr]@[cc],
        forall|rr: int, cc: int|
            y1 as int + 1 <= rr <= y3 as int && 0 <= cc < w as int ==> (
            #[trigger] final(plot)@[rr]@[cc]) == final(plot)@[2 * (y1 as int) + 1 - shift as int
                - rr]@[cc],
        hyp@ ==> preserves_processed(old(plot)@, final(plot)@, w as int, h as int),
{
    let ghost s_g: int = 2 * (y1 as int) + 1 - shift as int;
    let y2 = y1 + 1;
    let mut yy = y2;
    while yy <= y3
        invariant
            y2 <= yy <= y3 + 1,
            grid_dims(plot@, w as int, h as int),
            // rows outside the band are untouched by the copy
            forall|rr: int, cc: int|
                0 <= rr < h as int && 0 <= cc < w as int && !(y2 as int <= rr < yy as int) ==> (
                #[trigger] plot@[rr]@[cc]) == old(plot)@[rr]@[cc],
            // copied rows mirror their source
            forall|rr: int, cc: int|
                y2 as int <= rr < yy as int && 0 <= cc < w as int ==> (#[trigger] plot@[rr]@[cc])
                    == plot@[s_g - rr]@[cc],
            // under the hypothesis the copy rewrites processed points with
            // their own value
            hyp@ ==> preserves_processed(old(plot)@, plot@, w as int, h as int),
        decreases y3 + 1 - yy,
    {
        let src = 2 * y1 + 1 - shift - yy;
        let mut xx: usize = 0;
        while xx < w
            invariant
                y2 <= yy <= y3,
                xx <= w,
                src as int == s_g - yy as int,
                grid_dims(plot@, w as int, h as int),
                forall|rr: int, cc: int|
                    0 <= rr < h as int && 0 <= cc < w as int && !(y2 as int <= rr < yy as int)
                        && !(rr == yy as int && 0 <= cc < xx as int) ==> (
                    #[trigger] plot@[rr]@[cc]) == old(plot)@[rr]@[cc],
                forall|rr: int, cc: int|
                    y2 as int <= rr < yy as int && 0 <= cc < w as int ==> (
                    #[trigger] plot@[rr]@[cc]) == plot@[s_g - rr]@[cc],
                forall|cc: int|
                    0 <= cc < xx as int ==> (#[trigger] plot@[yy as int]@[cc]) == plot@[
                        src as int
                    ]@[cc],
                hyp@ ==> preserves_processed(old(plot)@, plot@, w as int, h as int),
            decreases w - xx,
        {
            let v = plot[src][xx];
            proof {
                if hyp@ && plot@[yy as int]@[xx as int].processed_spec() {
                    assert(old(plot)@[yy as int]@[xx as int].processed_spec());
                    assert(old(plot)@[yy as int]@[xx as int] == old(plot)@[src as int]@[
                        xx as int
                    ]);
                }
            }
            plot[yy][xx] = v;
            xx = xx + 1;
        }
        yy = yy + 1;
    }
}

/// A scan of the rows above the mirrored band leaves the band's mirror
/// relation standing: band rows are outside the scanned window, and their
/// processed sources in the upper part keep their values.
proof fn lemma_mirror_survives_upper(c0: Ctx, p0: Seq<Vec<PlotPoint>>, p_up: Seq<Vec<PlotPoint>>)
    requires
        grid_dims(p0, c0.win_width as int, c0.win_height as int),
        mirror_consistent(c0, p0),
        preserves_processed(p0, p_up, c0.win_width as int, c0.win_height as int),
        upper_rows_spec(c0) > 0 ==> outside_window_unchanged(
            p0,
            p_up,
            c0.win_width as int,
            c0.win_height as int,
            0,
            upper_rows_spec(c0) + 1,
        ),
        upper_rows_spec(c0) <= 0 ==> p_up == p0,
    ensures
        mirror_consistent(c0, p_up),
{
    let w = c0.win_width as int;
    let y1 = upper_rows_spec(c0);
    let y3 = mirror_top_spec(c0);
    let s = 2 * y1 + 1 - axis_shift_spec(c0);
    assert forall|rr: int, cc: int|
        y1 + 1 <= rr <= y3 && 0 <= cc < w && (#[trigger] p_up[rr]@[cc]).processed_spec()
            implies p_up[rr]@[cc] == p_up[s - rr]@[cc] by {
        assert(p_up[rr]@[cc] == p0[rr]@[cc]);
        assert(p0[rr]@[cc] == p0[s - rr]@[cc]);
        assert(p0[s - rr]@[cc].processed_spec());
        assert(p_up[s - rr]@[cc] == p0[s - rr]@[cc]);
    }
}

/// Put one frame's three phases together: the upper chunk scan, the mirror
/// copy of the band, and the lower chunk scan compose into the frame's
/// overall guarantees — processed points survive, the mirror band stays a
/// copy, fill flags stay disciplined, the copied band mirrors in the final
/// grid, and the upper chunk's rows stay processed.
proof fn lemma_advance_assemble(
    c0: Ctx,
    p0: Seq<Vec<PlotPoint>>,
    p_up: Seq<Vec<PlotPoint>>,
    p_cp: Seq<Vec<PlotPoint>>,
    p_fin: Seq<Vec<PlotPoint>>,
    hyp: bool,
)
    requires
        grid_dims(p0, c0.win_width as int, c0.win_height as int),
        hyp == (mirror_consistent(c0, p0) && fill_flags_ok(
            p0,
            c0.win_width as int,
            c0.win_height as int,
        )),
        preserves_processed(p0, p_up, c0.win_width as int, c0.win_height as int),
        fill_flags_ok(p0, c0.win_width as int, c0.win_height as int) ==> fill_flags_ok(
            p_up,
            c0.win_width as int,
            c0.win_height as int,
        ),
        upper_rows_spec(c0) > 0 ==> outside_window_unchanged(
            p0,
            p_up,
            c0.win_width as int,
            c0.win_height as int,
            0,
            upper_rows_spec(c0) + 1,
        ),
        upper_rows_spec(c0) <= 0 ==> p_up == p0,
        upper_rows_spec(c0) > 0 ==> forall|rr: int, cc: int|
            c0.rows_processed as int <= rr && rr < band_end_spec(c0, upper_rows_spec(c0) + 1)
                && 0 <= cc < c0.win_width as int ==> (#[trigger] p_up[rr]@[cc]).processed_spec(),
        mirror_top_spec(c0) >= upper_rows_spec(c0) + 1 ==> {
            &&& forall|rr: int, cc: int|
                0 <= rr < c0.win_height as int && 0 <= cc < c0.win_width as int && !(
                upper_rows_spec(c0) + 1 <= rr <= mirror_top_spec(c0)) ==> (
                #[trigger] p_cp[rr]@[cc]) == p_up[rr]@[cc]
            &&& forall|rr: int, cc: int|
                upper_rows_spec(c0) + 1 <= rr <= mirror_top_spec(c0) && 0 <= cc
                    < c0.win_width as int ==> (#[trigger] p_cp[rr]@[cc]) == p_cp[2
                    * upper_rows_spec(c0) + 1 - axis_shift_spec(c0) - rr]@[cc]
            &&& (hyp ==> preserves_processed(
                p_up,
                p_cp,
                c0.win_width as int,
                c0.win_height as int,
            ))
        },
        mirror_top_spec(c0) < upper_rows_spec(c0) + 1 ==> p_cp == p_up,
        c0.win_height as int - 1 >= lower_start_spec(c0) ==> {
            &&& preserves_processed(p_cp, p_fin, c0.win_width as int, c0.win_height as int)
            &&& outside_window_unchanged(
                p_cp,
                p_fin,
                c0.win_width as int,
                c0.win_height as int,
                lower_start_spec(c0),
                c0.win_height as int,
            )
            &&& (fill_flags_ok(p_cp, c0.win_width as int, c0.win_height as int)
                ==> fill_flags_ok(p_fin, c0.win_width as int, c0.win_height as int))
        },
        c0.win_height as int - 1 < lower_start_spec(c0) ==> p_fin == p_cp,
    ensures
        frame_keeps_grid(c0, p0, p_fin),
        mirror_top_spec(c0) >= upper_rows_spec(c0) + 1 ==> forall|rr: int, cc: int|
            upper_rows_spec(c0) + 1 <= rr <= mirror_top_spec(c0) && 0 <= cc
                < c0.win_width as int ==> (#[trigger] p_fin[rr]@[cc]) == p_fin[2
                * upper_rows_spec(c0) + 1 - axis_shift_spec(c0) - rr]@[cc],
        upper_rows_spec(c0) > 0 ==> forall|rr: int, cc: int|
            c0.rows_processed as int <= rr && rr < band_end_spec(c0, upper_rows_spec(c0) + 1)
                && 0 <= cc < c0.win_width as int ==> (#[trigger] p_fin[rr]@[cc]).processed_spec(),
{
    reveal(frame_keeps_grid);
    let w = c0.win_width as int;
    let h = c0.win_height as int;
    let y1 = upper_rows_spec(c0);
    let y2 = y1 + 1;
    let y3 = mirror_top_spec(c0);
    let y4 = lower_start_spec(c0);
    let s = 2 * y1 + 1 - axis_shift_spec(c0);

    if hyp {
        assert forall|rr: int, cc: int|
            0 <= rr < h && 0 <= cc < w && (#[trigger] p0[rr]@[cc]).processed_spec()
                implies p_fin[rr]@[cc] == p0[rr]@[cc] by {
            assert(p_up[rr]@[cc] == p0[rr]@[cc]);
            assert(p_cp[rr]@[cc] == p_up[rr]@[cc]);
            assert(p_fin[rr]@[cc] == p_cp[rr]@[cc]);
        }
        assert forall|rr: int, cc: int|
            y1 + 1 <= rr <= y3 && 0 <= cc < w && (#[trigger] p_fin[rr]@[cc]).processed_spec()
                implies p_fin[rr]@[cc] == p_fin[s - rr]@[cc] by {
            assert(p_fin[rr]@[cc] == p_cp[rr]@[cc]);
            assert(p_fin[s - rr]@[cc] == p_cp[s - rr]@[cc]);
            assert(p_cp[rr]@[cc] == p_cp[s - rr]@[cc]);
        }
        assert(mirror_consistent(c0, p_fin));
        assert(fill_flags_ok(p_up, w, h));
        assert forall|rr: int, cc: int|
            0 <= rr < h && 0 <= cc < w && !(#[trigger] p_cp[rr]@[cc]).processed_spec()
                implies !p_cp[rr]@[cc].filled_spec() by {
            if y2 <= rr <= y3 && y3 >= y2 {
                assert(p_cp[rr]@[cc] == p_cp[s - rr]@[cc]);
                assert(p_cp[s - rr]@[cc] == p_up[s - rr]@[cc]);
            } else {
                assert(p_cp[rr]@[cc] == p_up[rr]@[cc]);
            }
        }
        assert(fill_flags_ok(p_cp, w, h));
        assert(fill_flags_ok(p_fin, w, h));
    }
    if y3 >= y2 {
        assert forall|rr: int, cc: int|
            y1 + 1 <= rr <= y3 && 0 <= cc < w implies (#[trigger] p_fin[rr]@[cc]) == p_fin[s
            - rr]@[cc] by {
            assert(p_fin[rr]@[cc] == p_cp[rr]@[cc]);
            assert(p_fin[s - rr]@[cc] == p_cp[s - rr]@[cc]);
        }
    }
    if y1 > 0 {
        assert forall|rr: int, cc: int|
            c0.rows_processed as int <= rr && rr < band_end_spec(c0, y1 + 1) && 0 <= cc
                < w implies (#[trigger] p_fin[rr]@[cc]).processed_spec() by {
            assert(p_up[rr]@[cc].processed_spec());
            assert(p_cp[rr]@[cc] == p_up[rr]@[cc]);
            assert(p_fin[rr]@[cc] == p_cp[rr]@[cc]);
        }
    }
}

} // verus!
