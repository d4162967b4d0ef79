//! The linear (affine) mapping strategy.
//!
//! A linear scale owns its two bounds and an optional rasterizer, and maps an
//! absolute value a to the relative position (a - min) / (max - min) and a
//! relative position r back to min + r * (max - min).  Nothing restricts the
//! inputs to the nominal ranges: values outside them extrapolate along the
//! same formulas, and a zero-width domain (min == max) propagates an infinity
//! or `Nan` out of the division rather than raising an error.  The clamped
//! variants are derived from the two primitive conversions, never
//! re-implemented by a strategy: the input of `to_clamped_absolute` and the
//! output of `to_clamped_relative` go through the unit-interval clamp.

use vstd::prelude::*;

verus! {

use crate::num::{Num, num_add, num_sub, num_mul, num_div, num_clamp01};

/// A snapping / quantization hook applied to computed absolute values.  An
/// implementation declares its meaning as a specification function and
/// proves that its executable snap matches it.
pub trait Rasterizer<V>: Sized {
    spec fn snap_spec(&self, v: V) -> V;

    fn snap(&self, v: V) -> (r: V)
        ensures
            r == self.snap_spec(v),
    ;
}

/// The rasterizer that leaves every value unchanged.
pub struct IdentityRasterizer {}

impl Rasterizer<Num> for IdentityRasterizer {
    open spec fn snap_spec(&self, v: Num) -> Num {
        v
    }

    fn snap(&self, v: Num) -> (r: Num) {
        v
    }
}

impl Rasterizer<crate::mag::Mag> for IdentityRasterizer {
    open spec fn snap_spec(&self, v: crate::mag::Mag) -> crate::mag::Mag {
        v
    }

    fn snap(&self, v: crate::mag::Mag) -> (r: crate::mag::Mag) {
        v
    }
}

/// The relative position of a against the bounds: (a - min) / (max - min).
pub open spec fn spec_lin_rel(min: Num, max: Num, a: Num) -> Num {
    num_div(num_sub(a, min), num_sub(max, min))
}

/// The absolute value at the relative position r: min + r * (max - min).
pub open spec fn spec_lin_abs(min: Num, max: Num, r: Num) -> Num {
    num_add(min, num_mul(r, num_sub(max, min)))
}

/// The optional snap applied to a computed absolute value.
pub open spec fn snap_applied<R: Rasterizer<Num>>(raster: Option<R>, v: Num) -> Num {
    match raster {
        Option::Some(rz) => rz.snap_spec(v),
        Option::None => v,
    }
}

pub struct LinearScale<R> {
    pub min: Num,
    pub max: Num,
    pub raster: Option<R>,
}

impl<R> LinearScale<R> {
    pub open spec fn wf(self) -> bool {
        self.min.wf() && self.max.wf()
    }
}

impl LinearScale<IdentityRasterizer> {
    /// A linear scale over [min, max] with no rasterization.
    pub fn with_min_max(min: Num, max: Num) -> (s: LinearScale<IdentityRasterizer>)
        requires
            min.wf(),
            max.wf(),
        ensures
            s.min == min,
            s.max == max,
            s.raster is None,
            s.wf(),
    {
        LinearScale { min, max, raster: None }
    }
}

impl<R: Rasterizer<Num>> LinearScale<R> {
    /// A linear scale over [min, max] that snaps every computed absolute
    /// value through the given rasterizer.
    pub fn with_min_max_and_rasterizer(min: Num, max: Num, rasterizer: R) -> (s: LinearScale<R>)
        requires
            min.wf(),
            max.wf(),
        ensures
            s.min == min,
            s.max == max,
            s.raster == Option::Some(rasterizer),
            s.wf(),
    {
        LinearScale { min, max, raster: Some(rasterizer) }
    }

    /// The relative position of an absolute value; extrapolates outside
    /// [min, max], and propagates an infinity or `Nan` when min == max.
    pub fn to_relative(&self, absolute: Num) -> (r: Num)
        requires
            self.wf(),
            absolute.wf(),
        ensures
            r == spec_lin_rel(self.min, self.max, absolute),
            r.wf(),
    {
        let d: Num = absolute.sub(self.min);
        let s: Num = self.max.sub(self.min);
        d.div(s)
    }

    /// The absolute value at a relative position, snapped through the
    /// rasterizer when one is stored; extrapolates outside [0, 1].
    pub fn to_absolute(&self, relative: Num) -> (r: Num)
        requires
            self.wf(),
            relative.wf(),
        ensures
            r == snap_applied(self.raster, spec_lin_abs(self.min, self.max, relative)),
            self.raster is None ==> r.wf(),
    {
        let s: Num = self.max.sub(self.min);
        let t: Num = relative.mul(s);
        let v: Num = self.min.add(t);
        match &self.raster {
            Option::Some(rz) => rz.snap(v),
            Option::None => v,
        }
    }

    /// The lower bound given at construction.
    pub fn get_min(&self) -> (r: Num)
        ensures
            r == self.min,
    {
        self.min
    }

    /// The upper bound given at construction.
    pub fn get_max(&self) -> (r: Num)
        ensures
            r == self.max,
    {
        self.max
    }

    /// As `to_absolute`, with the input first clamped to [0, 1].
    pub fn to_clamped_absolute(&self, relative: Num) -> (r: Num)
        requires
            self.wf(),
            relative.wf(),
        ensures
            r == snap_applied(
                self.raster,
                spec_lin_abs(self.min, self.max, num_clamp01(relative)),
            ),
            self.raster is None ==> r.wf(),
    {
        self.to_absolute(relative.clamp01())
    }

    /// As `to_relative`, with the result clamped to [0, 1].
    pub fn to_clamped_relative(&self, absolute: Num) -> (r: Num)
        requires
            self.wf(),
            absolute.wf(),
        ensures
            r == num_clamp01(spec_lin_rel(self.min, self.max, absolute)),
            r.wf(),
    {
        self.to_relative(absolute).clamp01()
    }
}

} // verus!
