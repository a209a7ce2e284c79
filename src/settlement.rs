//! Settling policy: the threshold and blend factor, and when to apply them.
use vstd::prelude::*;
use crate::sand_kernel::{SandKernel, settle_model, window_lo, window_hi};

verus! {

/// Holds the settling parameters and runs settling passes over a field.
pub struct SettlementEngine {
    settle_threshold: i64,
    blend_factor: i64,
}

impl SettlementEngine {
    /// Smallest difference from the neighbour mean that gets smoothed.
    pub closed spec fn threshold(&self) -> int {
        self.settle_threshold as int
    }

    /// Fraction, in units of `1 / ONE`, of the way to the neighbour mean that
    /// a cell moves.
    pub closed spec fn blend(&self) -> int {
        self.blend_factor as int
    }

    /// Builds an engine with the given parameters.
    pub fn new(settle_threshold: i64, blend_factor: i64) -> (r: SettlementEngine)
        ensures
            r.threshold() == settle_threshold,
            r.blend() == blend_factor,
    {
        SettlementEngine { settle_threshold, blend_factor }
    }

    /// Settles every interior cell of `kernel` once.
    pub fn settle_full(&self, kernel: &mut SandKernel)
        requires
            old(kernel).wf(),
        ensures
            final(kernel).wf(),
            final(kernel).size() == old(kernel).size(),
            final(kernel).start() == old(kernel).start(),
            final(kernel).max() == old(kernel).max(),
            final(kernel).levels() == settle_model(
                old(kernel).levels(),
                old(kernel).size(),
                old(kernel).max(),
                1,
                1,
                old(kernel).size() - 1,
                old(kernel).size() - 1,
                self.threshold(),
                self.blend(),
            ),
    {
        kernel.settle_internal(self.settle_threshold, self.blend_factor);
    }

    /// Settles the cells of `kernel` in `[min_x, max_x) x [min_y, max_y)`,
    /// clamped to the interior, once.
    pub fn settle_region(
        &self,
        kernel: &mut SandKernel,
        min_x: usize,
        min_y: usize,
        max_x: usize,
        max_y: usize,
    )
        requires
            old(kernel).wf(),
        ensures
            final(kernel).wf(),
            final(kernel).size() == old(kernel).size(),
            final(kernel).start() == old(kernel).start(),
            final(kernel).max() == old(kernel).max(),
            final(kernel).levels() == settle_model(
                old(kernel).levels(),
                old(kernel).size(),
                old(kernel).max(),
                window_lo(min_x as int),
                window_lo(min_y as int),
                window_hi(max_x as int, old(kernel).size()),
                window_hi(max_y as int, old(kernel).size()),
                self.threshold(),
                self.blend(),
            ),
    {
        kernel.settle_region_internal(
            min_x,
            min_y,
            max_x,
            max_y,
            self.settle_threshold,
            self.blend_factor,
        );
    }

    /// Replaces the threshold.
    pub fn set_settle_threshold(&mut self, threshold: i64)
        ensures
            final(self).threshold() == threshold,
            final(self).blend() == old(self).blend(),
    {
        self.settle_threshold = threshold;
    }

    /// The threshold.
    pub fn get_settle_threshold(&self) -> (r: i64)
        ensures
            r == self.threshold(),
    {
        self.settle_threshold
    }

    /// Replaces the blend factor.
    pub fn set_blend_factor(&mut self, factor: i64)
        ensures
            final(self).blend() == factor,
            final(self).threshold() == old(self).threshold(),
    {
        self.blend_factor = factor;
    }

    /// The blend factor.
    pub fn get_blend_factor(&self) -> (r: i64)
        ensures
            r == self.blend(),
    {
        self.blend_factor
    }
}

} // verus!
