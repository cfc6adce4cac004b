use vstd::prelude::*;
use vstd::arithmetic::div_mod::{
    lemma_div_is_ordered, lemma_div_pos_is_pos, lemma_div_multiples_vanish,
    lemma_fundamental_div_mod,
};
use vstd::arithmetic::mul::{
    lemma_mul_inequality, lemma_mul_nonnegative, lemma_mul_upper_bound,
};
use crate::evaluator::COORD_LIMIT;

verus! {

/// How a complex ordinate falls relative to the centre of the pixel row it
/// maps back to: exactly, or off by one or two rows. The classification is
/// consumed by the scheduler's symmetry shortcut as a row offset.
#[derive(Clone, Copy, Debug, PartialEq, Eq, Structural)]
pub enum Symmetry {
    Exact,
    OverOne,
    OverTwo,
}

/// The viewport and scan parameters: pixel dimensions, the viewed region of
/// the complex plane (fixed-point, scale 2^60), the iteration budget, the
/// observed range of computed values, and the chunked scan's progress.
///
/// The four bounds are always derived from centre and span with an
/// aspect-correct vertical span; they are never set independently.
#[derive(Clone, Copy, Debug)]
pub struct Ctx {
    pub win_height: usize,
    pub win_width: usize,

    pub center_x: i128,
    pub center_y: i128,
    pub horizontal_span: i128,
    pub vertical_span: i128,

    pub x_min: i128,
    pub x_max: i128,
    pub y_min: i128,
    pub y_max: i128,

    pub max_iters: usize,

    pub min_value: i128,
    pub max_value: i128,

    pub chunk_size: usize,
    pub rows_processed: usize,
    pub total_rows_processed: usize,

    pub offset: usize,

    /// Brightness in thousandths, 0 to 1000.
    pub brightness: u32,

    pub needs_recalc: bool,
}

impl Default for Ctx {
    /// A context with no viewport yet: `define_bounds` must run before any
    /// coordinate lookup.
    fn default() -> (r: Self)
        ensures
            r.win_height == 0,
            r.win_width == 0,
            r.center_x == 0,
            r.center_y == 0,
            r.horizontal_span == 0,
            r.vertical_span == 0,
            r.x_min == 0,
            r.x_max == 0,
            r.y_min == 0,
            r.y_max == 0,
            r.max_iters == 500,
            r.min_value == i128::MAX,
            r.max_value == 0,
            r.chunk_size == 128,
            r.rows_processed == 0,
            r.total_rows_processed == 0,
            r.offset == 0,
            r.brightness == 600,
            r.needs_recalc,
    {
        Self {
            win_height: 0,
            win_width: 0,
            center_x: 0,
            center_y: 0,
            horizontal_span: 0,
            vertical_span: 0,
            x_min: 0,
            x_max: 0,
            y_min: 0,
            y_max: 0,
            max_iters: 500,
            min_value: i128::MAX,
            max_value: 0,
            chunk_size: 128,
            rows_processed: 0,
            total_rows_processed: 0,
            offset: 0,
            brightness: 600,
            needs_recalc: true,
        }
    }
}

/// Whether a viewport of centre `(cx, cy)` and horizontal span `hs`, at pixel
/// dimensions `w` by `h`, keeps all four derived bounds within the coordinate
/// range the evaluator accepts.
pub open spec fn bounds_fit(cx: int, cy: int, hs: int, w: int, h: int) -> bool {
    let vs = hs * h / w;
    &&& 0 <= hs
    &&& -(COORD_LIMIT as int) <= cx - hs / 2
    &&& cx - hs / 2 + hs <= COORD_LIMIT as int
    &&& -(COORD_LIMIT as int) <= cy - vs / 2
    &&& cy - vs / 2 + vs <= COORD_LIMIT as int
}

impl Ctx {
    /// Dimensions are plausible and the four bounds are the aspect-correct
    /// derivation from centre and span, within the evaluator's coordinate
    /// range. Established by `define_bounds`; every coordinate lookup needs it.
    pub open spec fn wf(self) -> bool {
        &&& 1 <= self.win_width
        &&& 1 <= self.win_height
        &&& 4 * (self.win_width as int) * (self.win_height as int) <= usize::MAX as int
        &&& 0 <= self.horizontal_span
        &&& self.vertical_span == self.horizontal_span * (self.win_height as int) / (self.win_width as int)
        &&& self.x_min == self.center_x - self.horizontal_span / 2
        &&& self.x_max == self.x_min + self.horizontal_span
        &&& self.y_min == self.center_y - self.vertical_span / 2
        &&& self.y_max == self.y_min + self.vertical_span
        &&& -(COORD_LIMIT as int) <= self.x_min
        &&& self.x_max <= COORD_LIMIT as int
        &&& -(COORD_LIMIT as int) <= self.y_min
        &&& self.y_max <= COORD_LIMIT as int
    }

    /// The abscissa pixel column `x` maps to: linear interpolation of the
    /// column into `[x_min, x_max]`, through a per-ten-thousand fraction.
    pub open spec fn x_coord_of(self, x: int) -> int {
        self.x_min + (self.x_max - self.x_min) * (x * 10000 / (self.win_width as int)) / 10000
    }

    /// The ordinate pixel row `y` maps to; the vertical axis is inverted, so
    /// row 0 maps to `y_max`.
    pub open spec fn y_coord_of(self, y: int) -> int {
        self.y_max - (self.y_max - self.y_min) * (y * 10000 / (self.win_height as int)) / 10000
    }

    /// The pixel row an ordinate maps back to.
    pub open spec fn row_of(self, y: int) -> int {
        (self.y_max - y) * (self.win_height as int - 1) / (self.y_max - self.y_min)
    }

    /// Derive the viewport bounds for a new centre and horizontal span: the
    /// vertical span is the horizontal one corrected by the aspect ratio, and
    /// the four bounds straddle the centre.
    pub fn define_bounds(&mut self, center_x: i64, center_y: i64, horizontal_span: i64)
        requires
            1 <= old(self).win_width,
            1 <= old(self).win_height,
            4 * (old(self).win_width as int) * (old(self).win_height as int) <= usize::MAX as int,
            bounds_fit(
                center_x as int,
                center_y as int,
                horizontal_span as int,
                old(self).win_width as int,
                old(self).win_height as int,
            ),
        ensures
            final(self).wf(),
            final(self).center_x == center_x,
            final(self).center_y == center_y,
            final(self).horizontal_span == horizontal_span,
            *final(self) == (Ctx {
                center_x: final(self).center_x,
                center_y: final(self).center_y,
                horizontal_span: final(self).horizontal_span,
                vertical_span: final(self).vertical_span,
                x_min: final(self).x_min,
                x_max: final(self).x_max,
                y_min: final(self).y_min,
                y_max: final(self).y_max,
                ..*old(self)
            }),
    {
        proof {
            lemma_dim_factor_bound(old(self).win_width as int, old(self).win_height as int);
            lemma_mul_upper_bound(
                horizontal_span as int,
                0x8000_0000_0000_0000,
                old(self).win_height as int,
                0x4000_0000_0000_0000,
            );
            lemma_mul_nonnegative(horizontal_span as int, old(self).win_height as int);
            lemma_div_pos_is_pos(
                horizontal_span as int * old(self).win_height as int,
                old(self).win_width as int,
            );
        }
        self.center_x = center_x as i128;
        self.center_y = center_y as i128;
        self.horizontal_span = horizontal_span as i128;
        self.vertical_span =
            (self.horizontal_span * self.win_height as i128) / self.win_width as i128;

        self.x_min = self.center_x - self.horizontal_span / 2;
        self.x_max = self.x_min + self.horizontal_span;
        self.y_min = self.center_y - self.vertical_span / 2;
        self.y_max = self.y_min + self.vertical_span;
    }

    /// Zoom to the pixel rectangle at `(x, y)` of size `w` by `h`: the new
    /// centre is the rectangle's centre and the new span is the old one
    /// scaled by the rectangle's share of the window width.
    pub fn define_bounds_from(&mut self, x: usize, y: usize, w: usize, h: usize)
        requires
            old(self).wf(),
            x + w / 2 <= old(self).win_width,
            y + h / 2 <= old(self).win_height,
            w <= old(self).win_width,
            bounds_fit(
                old(self).x_coord_of(x as int + w as int / 2),
                old(self).y_coord_of(y as int + h as int / 2),
                old(self).horizontal_span * w as int / old(self).win_width as int,
                old(self).win_width as int,
                old(self).win_height as int,
            ),
        ensures
            final(self).wf(),
            final(self).center_x == old(self).x_coord_of(x as int + w as int / 2),
            final(self).center_y == old(self).y_coord_of(y as int + h as int / 2),
            final(self).horizontal_span
                == old(self).horizontal_span * w as int / old(self).win_width as int,
            *final(self) == (Ctx {
                center_x: final(self).center_x,
                center_y: final(self).center_y,
                horizontal_span: final(self).horizontal_span,
                vertical_span: final(self).vertical_span,
                x_min: final(self).x_min,
                x_max: final(self).x_max,
                y_min: final(self).y_min,
                y_max: final(self).y_max,
                ..*old(self)
            }),
    {
        let cx = self.get_x(x + w / 2);
        let cy = self.get_y(y + h / 2);
        proof {
            lemma_dim_factor_bound(self.win_width as int, self.win_height as int);
            lemma_mul_nonnegative(self.horizontal_span as int, w as int);
            lemma_mul_upper_bound(
                self.horizontal_span as int,
                0x8000_0000_0000_0000,
                w as int,
                0x4000_0000_0000_0000,
            );
            assert(self.horizontal_span * (w as int) <= self.horizontal_span * (self.win_width as int))
                by (nonlinear_arith)
                requires
                    0 <= self.horizontal_span,
                    w <= self.win_width,
            ;
            assert(self.horizontal_span * (self.win_width as int)
                == (self.win_width as int) * (self.horizontal_span as int)) by (nonlinear_arith);
            lemma_div_is_ordered(
                self.horizontal_span * w as int,
                self.horizontal_span * self.win_width as int,
                self.win_width as int,
            );
            lemma_div_multiples_vanish(self.horizontal_span as int, self.win_width as int);
            lemma_div_pos_is_pos(self.horizontal_span * w as int, self.win_width as int);
        }
        let hs = self.horizontal_span * w as i128 / self.win_width as i128;

        self.define_bounds(cx, cy, hs as i64);
    }

    /// Merge back the fields that may have been edited externally while a
    /// scan ran: the observed value range and the brightness.
    pub fn apply_changes(&mut self, other: &Ctx)
        ensures
            final(self).min_value == other.min_value,
            final(self).max_value == other.max_value,
            final(self).brightness == other.brightness,
            *final(self) == (Ctx {
                min_value: other.min_value,
                max_value: other.max_value,
                brightness: other.brightness,
                ..*old(self)
            }),
    {
        self.min_value = other.min_value;
        self.max_value = other.max_value;
        self.brightness = other.brightness;
    }

    /// Forget the observed value range and ask for a full re-evaluation.
    pub fn reset_min_max(&mut self)
        ensures
            final(self).needs_recalc,
            final(self).min_value == i128::MAX,
            final(self).max_value == 0,
            *final(self) == (Ctx {
                needs_recalc: true,
                min_value: i128::MAX,
                max_value: 0,
                ..*old(self)
            }),
    {
        self.needs_recalc = true;
        self.min_value = i128::MAX;
        self.max_value = 0;
    }

    /// The abscissa of pixel column `x`, always within the viewport bounds.
    pub fn get_x(&self, x: usize) -> (r: i64)
        requires
            self.wf(),
            x <= self.win_width,
        ensures
            r as int == self.x_coord_of(x as int),
            self.x_min <= r as int <= self.x_max,
    {
        proof {
            lemma_dim_factor_bound(self.win_width as int, self.win_height as int);
            lemma_interp_bounds(
                x as int,
                self.win_width as int,
                self.x_max - self.x_min,
            );
        }
        let x_percent: i128 = (x as i128) * 10000 / (self.win_width as i128);
        (self.x_min + (self.x_max - self.x_min) * x_percent / 10000) as i64
    }

    /// The ordinate of pixel row `y`, always within the viewport bounds; row
    /// 0 is at the top, so the interpolation runs downward from `y_max`.
    pub fn get_y(&self, y: usize) -> (r: i64)
        requires
            self.wf(),
            y <= self.win_height,
        ensures
            r as int == self.y_coord_of(y as int),
            self.y_min <= r as int <= self.y_max,
    {
        proof {
            lemma_dim_factor_bound(self.win_width as int, self.win_height as int);
            lemma_interp_bounds(
                y as int,
                self.win_height as int,
                self.y_max - self.y_min,
            );
        }
        let y_percent: i128 = (y as i128) * 10000 / (self.win_height as i128);
        (self.y_max - (self.y_max - self.y_min) * y_percent / 10000) as i64
    }

    /// The symmetry classification for the ordinate `y`: the mirror-copy
    /// row offset the scheduler must use so that copied rows pair with
    /// their true reflections. Rows `r` and `r'` reflect across the
    /// ordinate when their pixel centres `(r + 1/2)` and `(r' + 1/2)` are
    /// equidistant from it, so the exact pair sum is `2*dist*h/span - 1`
    /// in rows; the classification is `2*row + 1` minus that sum, rounded
    /// to the nearest of 0, 1 or 2.
    #[verifier::opaque]
    pub open spec fn symmetry_class_of(self, y: int) -> Symmetry {
        let dist = self.y_max - y;
        let den = self.y_max - self.y_min;
        let p = self.row_of(y);
        let a4 = 4 * (dist * (self.win_height as int));
        if a4 > (4 * p + 3) * den {
            Symmetry::Exact
        } else if a4 > (4 * p + 1) * den {
            Symmetry::OverOne
        } else {
            Symmetry::OverTwo
        }
    }

    /// The pixel row an ordinate maps back to, with the symmetry
    /// classification of the residual rounding error, consumed by the
    /// scheduler's symmetry shortcut as a mirror offset of 0, 1 or 2 rows.
    pub fn revert_y(&self, y: i64) -> (r: (usize, Symmetry))
        requires
            self.wf(),
            self.y_min < self.y_max,
            self.y_min <= y as int <= self.y_max,
        ensures
            r.0 as int == self.row_of(y as int),
            r.0 < self.win_height,
            r.1 == self.symmetry_class_of(y as int),
    {
        proof {
            lemma_row_bounds(
                self.y_max - y as int,
                self.y_max - self.y_min,
                self.win_height as int,
            );
            lemma_dim_factor_bound(self.win_width as int, self.win_height as int);
            lemma_mul_nonnegative(self.y_max - y as int, self.win_height as int - 1);
            lemma_mul_upper_bound(
                self.y_max - y as int,
                0x8000_0000_0000_0000,
                self.win_height as int - 1,
                0x4000_0000_0000_0000,
            );
            lemma_mul_nonnegative(self.y_max - y as int, self.win_height as int);
            lemma_mul_upper_bound(
                self.y_max - y as int,
                0x7FFF_FFFF_FFFF_FFF8,
                self.win_height as int,
                0x4000_0000_0000_0000,
            );
        }
        let p = (self.y_max - y as i128) * (self.win_height as i128 - 1)
            / (self.y_max - self.y_min);

        let a4 = 4 * ((self.y_max - y as i128) * (self.win_height as i128));
        proof {
            reveal(Ctx::symmetry_class_of);
            lemma_mul_nonnegative(4 * p as int + 1, self.y_max - self.y_min);
            lemma_mul_upper_bound(
                4 * p as int + 1,
                0xFFFF_FFFF_FFFF_FFFF,
                self.y_max - self.y_min,
                0x7FFF_FFFF_FFFF_FFF8,
            );
            lemma_mul_nonnegative(4 * p as int + 3, self.y_max - self.y_min);
            lemma_mul_upper_bound(
                4 * p as int + 3,
                0xFFFF_FFFF_FFFF_FFFF,
                self.y_max - self.y_min,
                0x7FFF_FFFF_FFFF_FFF8,
            );
        }
        let den = self.y_max - self.y_min;
        let sym = if a4 > (4 * p + 3) * den {
            Symmetry::Exact
        } else if a4 > (4 * p + 1) * den {
            Symmetry::OverOne
        } else {
            Symmetry::OverTwo
        };

        (p as usize, sym)
    }

    /// Both coordinates of a pixel.
    pub fn get_coords(&self, x: usize, y: usize) -> (r: (i64, i64))
        requires
            self.wf(),
            x <= self.win_width,
            y <= self.win_height,
        ensures
            r.0 as int == self.x_coord_of(x as int),
            r.1 as int == self.y_coord_of(y as int),
            self.x_min <= r.0 as int <= self.x_max,
            self.y_min <= r.1 as int <= self.y_max,
    {
        (self.get_x(x), self.get_y(y))
    }
}

/// Mapping a pixel row to its ordinate and back returns the original row
/// within the symmetry tolerance: the recovered row is at most two below the
/// original and never above it. Holds whenever the viewport is at most ten
/// thousand pixels tall and the vertical span leaves adjacent rows at least
/// ten thousand fixed-point units apart, so that rounding cannot collapse
/// them.
pub proof fn lemma_coordinate_round_trip(ctx: Ctx, y: int)
    requires
        ctx.wf(),
        ctx.y_min < ctx.y_max,
        0 <= y < ctx.win_height,
        ctx.win_height <= 10000,
        ctx.y_max - ctx.y_min >= 10000 * (ctx.win_height as int - 1),
    ensures
        y - 2 <= ctx.row_of(ctx.y_coord_of(y)) <= y,
{
    let bigh = 10000int;
    let h = ctx.win_height as int;
    let vs = ctx.y_max - ctx.y_min;
    let pct = y * bigh / h;
    let g = vs * pct / bigh;
    let c = ctx.y_coord_of(y);
    let row = ctx.row_of(c);

    assert(c == ctx.y_max - g);
    assert(row == g * (h - 1) / vs);

    lemma_mul_nonnegative(y, bigh);
    lemma_div_pos_is_pos(y * bigh, h);
    lemma_mul_nonnegative(vs, pct);
    lemma_div_pos_is_pos(vs * pct, bigh);
    lemma_mul_nonnegative(g, h - 1);
    lemma_div_pos_is_pos(g * (h - 1), vs);

    lemma_fundamental_div_mod(y * bigh, h);
    lemma_fundamental_div_mod(vs * pct, bigh);
    lemma_fundamental_div_mod(g * (h - 1), vs);

    let r1 = (y * bigh) % h;
    let r2 = (vs * pct) % bigh;
    let r3 = (g * (h - 1)) % vs;

    // Upper bound: each floor only loses, so the recovered row cannot pass y.
    assert(h * bigh * vs * row <= vs * y * bigh * h) by (nonlinear_arith)
        requires
            y * bigh == h * pct + r1,
            vs * pct == bigh * g + r2,
            g * (h - 1) == vs * row + r3,
            0 <= r1,
            0 <= r2,
            0 <= r3,
            0 <= y,
            0 <= pct,
            0 <= g,
            0 <= row,
            2 <= bigh,
            1 <= h,
            1 <= vs,
    ;
    assert(row <= y) by (nonlinear_arith)
        requires
            h * bigh * vs * row <= vs * y * bigh * h,
            1 <= h,
            2 <= bigh,
            1 <= vs,
    ;

    // Lower bound: the three rounding losses together stay under three rows.
    assert(h * bigh * vs * row >= h * bigh * vs * (y - 3) + 1) by (nonlinear_arith)
        requires
            y * bigh == h * pct + r1,
            vs * pct == bigh * g + r2,
            g * (h - 1) == vs * row + r3,
            r1 <= h - 1,
            r2 <= bigh - 1,
            r3 <= vs - 1,
            0 <= r1,
            0 <= r2,
            0 <= r3,
            0 <= y <= h - 1,
            0 <= pct,
            0 <= g,
            0 <= row,
            1 <= h <= bigh,
            bigh == 10000,
            vs >= bigh * (h - 1),
            1 <= vs,
    ;
    assert(row >= y - 2) by (nonlinear_arith)
        requires
            h * bigh * vs * row >= h * bigh * vs * (y - 3) + 1,
            1 <= h,
            2 <= bigh,
            1 <= vs,
    ;
}

/// The per-ten-thousand fraction of `idx` within `dim` is between 0 and
/// 10000, and scaling a nonnegative `span` by it stays within `[0, span]`.
proof fn lemma_interp_bounds(idx: int, dim: int, span: int)
    requires
        0 <= idx <= dim,
        1 <= dim,
        0 <= span,
    ensures
        0 <= idx * 10000 / dim <= 10000,
        0 <= span * (idx * 10000 / dim) / 10000 <= span,
{
    let pct = idx * 10000 / dim;
    lemma_mul_nonnegative(idx, 10000);
    lemma_div_pos_is_pos(idx * 10000, dim);
    lemma_mul_inequality(idx, dim, 10000);
    lemma_div_is_ordered(idx * 10000, dim * 10000, dim);
    lemma_div_multiples_vanish(10000, dim);
    assert(dim * 10000 == 10000 * dim) by (nonlinear_arith);

    lemma_mul_nonnegative(span, pct);
    lemma_div_pos_is_pos(span * pct, 10000);
    lemma_mul_inequality(pct, 10000, span);
    assert(span * pct == pct * span) by (nonlinear_arith);
    lemma_div_is_ordered(span * pct, 10000 * span, 10000);
    lemma_div_multiples_vanish(span, 10000);
}

/// Interpolating a distance of at most `den` over `h - 1` rows and dividing
/// by `den` lands on a row index below `h`.
proof fn lemma_row_bounds(dist: int, den: int, h: int)
    requires
        0 <= dist <= den,
        0 < den,
        1 <= h,
    ensures
        0 <= dist * (h - 1) / den <= h - 1,
{
    lemma_mul_nonnegative(dist, h - 1);
    lemma_div_pos_is_pos(dist * (h - 1), den);
    lemma_mul_inequality(dist, den, h - 1);
    lemma_div_is_ordered(dist * (h - 1), den * (h - 1), den);
    lemma_div_multiples_vanish(h - 1, den);
}

/// Each pixel dimension is bounded through the bound on the size of the
/// four-byte-per-pixel output buffer.
pub proof fn lemma_dim_factor_bound(w: int, h: int)
    requires
        1 <= w,
        1 <= h,
        4 * w * h <= usize::MAX as int,
    ensures
        w <= 0x4000_0000_0000_0000,
        h <= 0x4000_0000_0000_0000,
        w * h <= 0x4000_0000_0000_0000,
        4 * w <= usize::MAX as int,
        4 * h <= usize::MAX as int,
{
    assert(w <= w * h && h <= w * h && 4 * (w * h) == 4 * w * h) by (nonlinear_arith)
        requires
            1 <= w,
            1 <= h,
    ;
}

} // verus!
