use vstd::prelude::*;

verus! {

/// Per-pixel memoized state.
///
/// A point starts unprocessed (no computed value). Once a value is set by
/// `calculate` it must never be set again until an explicit `reset`: a second
/// computation of the same pixel is a scheduling bug, which `calculate`
/// excludes by precondition. The `filled` flag distinguishes pixels written
/// by the fast-fill shortcut from pixels that were individually evaluated.
#[derive(Clone, Copy)]
pub struct PlotPoint {
    val: i128,
    i: usize,
    calc_val: Option<i128>,
    pub filled: bool,
}

impl PlotPoint {
    /// The raw escape magnitude recorded for this point (0 means stable).
    pub closed spec fn value_spec(self) -> i128 {
        self.val
    }

    /// The raw iteration count recorded for this point.
    pub closed spec fn iters_spec(self) -> usize {
        self.i
    }

    /// The computed value, if the point has been processed.
    pub closed spec fn calc_spec(self) -> Option<i128> {
        self.calc_val
    }

    /// Whether the point was written by the fast-fill shortcut rather than
    /// individually evaluated.
    pub closed spec fn filled_spec(self) -> bool {
        self.filled
    }

    /// A point is processed once a computed value has been set.
    pub open spec fn processed_spec(self) -> bool {
        self.calc_spec() is Some
    }

    /// A processed point is stable (interior) exactly when its escape
    /// magnitude is the sentinel 0.
    pub open spec fn stable_spec(self) -> bool {
        self.processed_spec() && self.value_spec() == 0
    }

    /// Build a point from an existing one, applying one update step.
    pub fn new_from<F: FnOnce(PlotPoint) -> PlotPoint>(other: &PlotPoint, upd: F) -> (new: PlotPoint)
        requires
            call_requires(upd, (*other,)),
        ensures
            call_ensures(upd, (*other,), new),
    {
        upd(*other)
    }

    /// Record the computed value for this point. Computing a point twice is a
    /// bookkeeping error, so the point must still be unprocessed.
    pub fn calculate(&mut self, val: i128, i: usize)
        requires
            !old(self).processed_spec(),
        ensures
            final(self).value_spec() == val,
            final(self).iters_spec() == i,
            final(self).calc_spec() == Some(i as i128),
            final(self).filled_spec() == old(self).filled_spec(),
    {
        self.val = val;
        self.i = i;
        self.calc_val = Some(i as i128);
    }

    pub fn processed(&self) -> (r: bool)
        ensures
            r == self.processed_spec(),
    {
        self.calc_val.is_some()
    }

    pub fn stable(&self) -> (r: bool)
        ensures
            r == self.stable_spec(),
    {
        self.calc_val.is_some() && self.val == 0
    }

    /// The computed value; the point must have been processed.
    pub fn calculated_value(&self) -> (r: i128)
        requires
            self.processed_spec(),
        ensures
            Some(r) == self.calc_spec(),
    {
        self.calc_val.unwrap()
    }

    /// Flag the point as written by the fast-fill shortcut.
    pub fn mark_filled(&mut self)
        ensures
            final(self).filled_spec(),
            final(self).value_spec() == old(self).value_spec(),
            final(self).iters_spec() == old(self).iters_spec(),
            final(self).calc_spec() == old(self).calc_spec(),
    {
        self.filled = true;
    }

    /// Clear the computed value and the fast-fill flag, making the point
    /// eligible for re-evaluation after a viewport or parameter change.
    pub fn reset(&mut self)
        ensures
            final(self).calc_spec() is None,
            !final(self).filled_spec(),
            final(self).value_spec() == old(self).value_spec(),
            final(self).iters_spec() == old(self).iters_spec(),
    {
        self.calc_val = None;
        self.filled = false;
    }
}

impl Default for PlotPoint {
    /// An unprocessed, unfilled point.
    fn default() -> (r: Self)
        ensures
            r.value_spec() == 0,
            r.iters_spec() == 0,
            r.calc_spec() is None,
            !r.filled_spec(),
    {
        PlotPoint { val: 0, i: 0, calc_val: None, filled: false }
    }
}

} // verus!
