use vstd::prelude::*;
use vstd::arithmetic::div_mod::{
    lemma_fundamental_div_mod, lemma_fundamental_div_mod_converse_div, lemma_div_is_ordered,
    lemma_div_pos_is_pos,
};
use crate::point::PlotPoint;

verus! {

/// One unit of the complex plane in the fixed-point representation: 2^60.
pub const FP_ONE: i128 = 0x1000_0000_0000_0000;

/// Half of `FP_ONE`: 2^59. Dividing a product of two fixed-point numbers by
/// 2^59 both removes the scale and doubles it, as the escape formula's
/// imaginary part `2*re*im` needs.
pub const FP_HALF: i128 = 0x800_0000_0000_0000;

/// The escape threshold 4, at the fixed-point scale: 4 * 2^60.
pub const THRESHOLD: i128 = 0x4000_0000_0000_0000;

/// Largest coordinate magnitude the evaluator accepts: slightly under 4 units
/// (2^62 - 4 at scale 2^60). Larger coordinates could overflow the 64-bit
/// mantissas when the iteration step adds the coordinate back in.
pub const COORD_LIMIT: i64 = 0x3FFF_FFFF_FFFF_FFFC;

/// A complex number as a pair of fixed-point mantissas at scale 2^60.
#[derive(Clone, Copy)]
pub struct Complex {
    pub re: i64,
    pub im: i64,
}

impl Complex {
    pub fn new(re: i64, im: i64) -> (c: Self)
        ensures
            c.re == re,
            c.im == im,
    {
        Self { re, im }
    }
}

/// A square at the fixed-point scale: `a*a / 2^60`, rounded toward minus
/// infinity (always nonnegative).
pub open spec fn fp_sq_scaled(a: int) -> int {
    (a * a) / (FP_ONE as int)
}

/// The squared magnitude of `re + im*i` at the fixed-point scale.
pub open spec fn fp_norm(re: int, im: int) -> int {
    fp_sq_scaled(re) + fp_sq_scaled(im)
}

/// Twice a product at the fixed-point scale: `2*re*im / 2^60`, rounded toward
/// minus infinity.
pub open spec fn fp_mul2_scaled(re: int, im: int) -> int {
    (re * im) / (FP_HALF as int)
}

/// Real part of one escape-formula step `z*z + c`.
pub open spec fn fp_step_re(zre: int, zim: int, cre: int) -> int {
    fp_sq_scaled(zre) - fp_sq_scaled(zim) + cre
}

/// Imaginary part of one escape-formula step `z*z + c`.
pub open spec fn fp_step_im(zre: int, zim: int, cim: int) -> int {
    fp_mul2_scaled(zre, zim) + cim
}

/// The result of iterating `z <- z*z + c` from `z`, with `i` checks already
/// made, until the squared magnitude exceeds the threshold or the budget
/// `max` is exhausted: the pair of the raw escape magnitude (0 for a stable
/// point) and the iteration count.
pub open spec fn escape_result(zre: int, zim: int, cre: int, cim: int, i: nat, max: nat) -> (int, nat)
    decreases max - i,
{
    let n = fp_norm(zre, zim);
    if n > THRESHOLD as int {
        (n, i)
    } else if i >= max {
        (0int, max)
    } else {
        escape_result(
            fp_step_re(zre, zim, cre),
            fp_step_im(zre, zim, cim),
            cre,
            cim,
            i + 1,
            max,
        )
    }
}

/// The value and iteration count the evaluator owes for coordinate `c`:
/// iterate from `z = c`.
pub open spec fn mandel_point(cre: int, cim: int, max: nat) -> (int, nat) {
    escape_result(cre, cim, cre, cim, 0, max)
}

/// `a*a / 2^60` for a 64-bit mantissa, computed on the magnitude so that the
/// division stays unsigned.
fn sq_scaled(a: i64) -> (r: u128)
    ensures
        r as int == fp_sq_scaled(a as int),
        r <= 0x40_0000_0000_0000_0000u128,
{
    let wide: i128 = a as i128;
    let mag: u128 = if wide < 0 {
        (-wide) as u128
    } else {
        wide as u128
    };
    proof {
        assert(mag * mag <= 0x4000_0000_0000_0000_0000_0000_0000_0000u128) by (nonlinear_arith)
            requires
                mag <= 0x8000_0000_0000_0000u128,
        ;
    }
    let prod: u128 = mag * mag;
    proof {
        assert(prod as int == (a as int) * (a as int)) by (nonlinear_arith)
            requires
                wide == a as int,
                mag == if wide < 0 { -(wide as int) } else { wide as int },
                prod == mag * mag,
        ;
        lemma_div_is_ordered(
            prod as int,
            0x4000_0000_0000_0000_0000_0000_0000_0000,
            FP_ONE as int,
        );
        lemma_div_pos_is_pos(prod as int, FP_ONE as int);
    }
    prod / (FP_ONE as u128)
}

/// Floor of `p / 2^59` for a signed product, computed on the magnitude; the
/// rounding direction for negative products matches an arithmetic shift.
fn floor_div_half(p: i128) -> (r: i128)
    requires
        -0x4000_0000_0000_0000_0000_0000_0000_0000 < p as int,
    ensures
        r as int == (p as int) / (FP_HALF as int),
{
    if p >= 0 {
        let q: u128 = (p as u128) / (FP_HALF as u128);
        proof {
            lemma_div_is_ordered(q as int * (FP_HALF as int), p as int, FP_HALF as int);
            lemma_fundamental_div_mod(p as int, FP_HALF as int);
        }
        q as i128
    } else {
        let mag: u128 = (-p) as u128;
        let q: u128 = mag / (FP_HALF as u128);
        let rem: u128 = mag % (FP_HALF as u128);
        proof {
            lemma_fundamental_div_mod(mag as int, FP_HALF as int);
        }
        if rem == 0 {
            proof {
                lemma_fundamental_div_mod_converse_div(
                    p as int,
                    FP_HALF as int,
                    -(q as int),
                    0,
                );
            }
            -(q as i128)
        } else {
            proof {
                lemma_fundamental_div_mod_converse_div(
                    p as int,
                    FP_HALF as int,
                    -(q as int) - 1,
                    FP_HALF as int - rem as int,
                );
            }
            -(q as i128) - 1
        }
    }
}

/// Iterate the escape formula `z <- z*z + c` from `z = c` until the squared
/// magnitude exceeds the threshold or `max_iters` is reached, and return the
/// raw escape magnitude (0 when the point never escapes: a stable point) and
/// the iteration count.
#[verifier::loop_isolation(false)]
pub fn escape_time(cre: i64, cim: i64, max_iters: usize) -> (r: (i128, usize))
    requires
        -COORD_LIMIT <= cre <= COORD_LIMIT,
        -COORD_LIMIT <= cim <= COORD_LIMIT,
        max_iters < usize::MAX,
    ensures
        r.0 as int == mandel_point(cre as int, cim as int, max_iters as nat).0,
        r.1 as nat == mandel_point(cre as int, cim as int, max_iters as nat).1,
{
    let mut zre: i64 = cre;
    let mut zim: i64 = cim;
    let mut i: usize = 0;

    while i <= max_iters
        invariant
            i <= max_iters + 1,
            i <= max_iters ==> mandel_point(cre as int, cim as int, max_iters as nat)
                == escape_result(zre as int, zim as int, cre as int, cim as int, i as nat, max_iters as nat),
            i == max_iters + 1 ==> mandel_point(cre as int, cim as int, max_iters as nat)
                == (0int, max_iters as nat),
        decreases max_iters + 1 - i,
    {
        let re_sq: u128 = sq_scaled(zre);
        let im_sq: u128 = sq_scaled(zim);
        let n: u128 = re_sq + im_sq;
        proof {
            assert(n as int == fp_norm(zre as int, zim as int));
        }

        if n > THRESHOLD as u128 {
            proof {
                assert(escape_result(zre as int, zim as int, cre as int, cim as int, i as nat, max_iters as nat)
                    == (fp_norm(zre as int, zim as int), i as nat));
            }
            return (n as i128, i);
        }

        proof {
            lemma_step_components_fit(zre as int, zim as int, cre as int, cim as int);
            assert(escape_result(zre as int, zim as int, cre as int, cim as int, i as nat, max_iters as nat)
                == if i < max_iters {
                    escape_result(
                        fp_step_re(zre as int, zim as int, cre as int),
                        fp_step_im(zre as int, zim as int, cim as int),
                        cre as int,
                        cim as int,
                        i as nat + 1,
                        max_iters as nat,
                    )
                } else {
                    (0int, max_iters as nat)
                });
        }
        let prod: i128 = (zre as i128) * (zim as i128);
        let two_re_im: i128 = floor_div_half(prod);
        zre = (re_sq as i64) - (im_sq as i64) + cre;
        zim = (two_re_im as i64) + cim;
        i = i + 1;
    }

    (0, max_iters)
}

/// When the squared magnitude of `z` is at or below the escape threshold and
/// the coordinate is within `COORD_LIMIT`, both components of the next
/// iterate fit in a 64-bit mantissa.
proof fn lemma_step_components_fit(zre: int, zim: int, cre: int, cim: int)
    requires
        -COORD_LIMIT <= cre <= COORD_LIMIT,
        -COORD_LIMIT <= cim <= COORD_LIMIT,
        -0x8000_0000_0000_0000 <= zre < 0x8000_0000_0000_0000,
        -0x8000_0000_0000_0000 <= zim < 0x8000_0000_0000_0000,
        fp_norm(zre, zim) <= THRESHOLD as int,
    ensures
        0 <= fp_sq_scaled(zre) <= THRESHOLD as int,
        0 <= fp_sq_scaled(zim) <= THRESHOLD as int,
        i64::MIN <= fp_step_re(zre, zim, cre) <= i64::MAX,
        i64::MIN <= fp_step_im(zre, zim, cim) <= i64::MAX,
        -(THRESHOLD as int) - 2 <= fp_mul2_scaled(zre, zim) <= THRESHOLD as int + 1,
        -0x4000_0000_0000_0000_0000_0000_0000_0000 < zre * zim,
        zre * zim < 0x4000_0000_0000_0000_0000_0000_0000_0000,
{
    let one = FP_ONE as int;
    let half = FP_HALF as int;

    assert(zre * zre >= 0) by (nonlinear_arith);
    assert(zim * zim >= 0) by (nonlinear_arith);
    lemma_div_is_ordered(0, zre * zre, one);
    lemma_div_is_ordered(0, zim * zim, one);

    // Each scaled square is at most their sum, which is at most the threshold.
    assert(fp_sq_scaled(zre) <= THRESHOLD as int);
    assert(fp_sq_scaled(zim) <= THRESHOLD as int);

    // The real step: a difference of two values in [0, THRESHOLD] plus a
    // coordinate within COORD_LIMIT.
    assert(i64::MIN <= fp_step_re(zre, zim, cre) <= i64::MAX);

    // Bound the raw squares from the scaled ones.
    lemma_fundamental_div_mod(zre * zre, one);
    lemma_fundamental_div_mod(zim * zim, one);
    let rq = fp_sq_scaled(zre);
    let iq = fp_sq_scaled(zim);
    assert(zre * zre < (rq + 1) * one) by (nonlinear_arith)
        requires
            zre * zre == one * rq + (zre * zre) % one,
            0 <= (zre * zre) % one < one,
    ;
    assert(zim * zim < (iq + 1) * one) by (nonlinear_arith)
        requires
            zim * zim == one * iq + (zim * zim) % one,
            0 <= (zim * zim) % one < one,
    ;

    // By the arithmetic-geometric-mean inequality, twice the product is
    // bounded by the sum of squares.
    assert(2 * (zre * zim) <= zre * zre + zim * zim && -2 * (zre * zim) <= zre * zre + zim * zim)
        by (nonlinear_arith);

    assert(zre * zre + zim * zim < (rq + iq + 2) * one) by (nonlinear_arith)
        requires
            zre * zre < (rq + 1) * one,
            zim * zim < (iq + 1) * one,
    ;
    assert((rq + iq + 2) * one <= (THRESHOLD as int + 2) * one) by (nonlinear_arith)
        requires
            rq + iq <= THRESHOLD as int,
            one > 0,
    ;

    // So the product fits comfortably in 128 bits...
    assert(2 * (zre * zim) < (THRESHOLD as int + 2) * one);
    assert(-((THRESHOLD as int + 2) * one) < 2 * (zre * zim));

    // ...and its floor division by 2^59 is within 2^62 + 2 of zero.
    let p = zre * zim;
    let bound = (THRESHOLD as int + 2) * half;
    assert(p < bound && -bound < p);
    lemma_div_is_ordered(p, bound - 1, half);
    lemma_div_is_ordered(-(bound as int) + 1, p, half);
    assert((bound - 1) / half == THRESHOLD as int + 1) by {
        lemma_fundamental_div_mod_converse_div(bound - 1, half, THRESHOLD as int + 1, half - 1);
    }
    assert((-(bound as int) + 1) / half == -(THRESHOLD as int) - 2) by {
        lemma_fundamental_div_mod_converse_div(
            -(bound as int) + 1,
            half,
            -(THRESHOLD as int) - 2,
            1,
        );
    }
    assert(i64::MIN <= fp_step_im(zre, zim, cim) <= i64::MAX);
}

/// Evaluate the escape formula for coordinate `c` and record the result in
/// `p`: the raw escape magnitude (0 exactly when the point is stable) and the
/// iteration count, which also serves as the computed value.
pub fn mandelbrot_val_at_point(c: Complex, max_iters: usize, p: &mut PlotPoint)
    requires
        !old(p).processed_spec(),
        -COORD_LIMIT <= c.re <= COORD_LIMIT,
        -COORD_LIMIT <= c.im <= COORD_LIMIT,
        max_iters < usize::MAX,
    ensures
        final(p).processed_spec(),
        final(p).filled_spec() == old(p).filled_spec(),
        final(p).value_spec() as int == mandel_point(c.re as int, c.im as int, max_iters as nat).0,
        final(p).iters_spec() as nat == mandel_point(c.re as int, c.im as int, max_iters as nat).1,
        final(p).calc_spec() == Some(final(p).iters_spec() as i128),
{
    let (val, iters) = escape_time(c.re, c.im, max_iters);
    p.calculate(val, iters);
}

} // verus!
