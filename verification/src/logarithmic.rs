//! The base-10 logarithmic mapping strategy.
//!
//! A logarithmic scale keeps the original bounds for reporting, and owns a
//! linear scale over the log10-transformed bounds to which it delegates all
//! interpolation: equal steps of relative position then correspond to equal
//! ratios of absolute value.  `to_relative` takes the exact logarithm of its
//! input and hands it to the delegate; `to_absolute` raises 10 to the
//! delegate's output and then applies the rasterizer, if one was given, so
//! the snap acts on the final absolute value rather than on the log-space
//! value.  The edge semantics are permissive, as in floating-point
//! arithmetic: the logarithm of zero is negative infinity, the logarithm of a
//! negative magnitude is `Nan`, and both flow through the delegate unchanged.

use vstd::prelude::*;

verus! {

use crate::num::{Num, num_clamp01, num_sub, fin_win_sign};
use crate::mag::{Mag, mag_log10, mag_pow10};
use crate::linear::{LinearScale, Rasterizer, IdentityRasterizer, spec_lin_rel, spec_lin_abs};

/// The kernel's bounds on log10(2) decide the sign of the log-span of the
/// two magnitudes.  This is the construction precondition of a logarithmic
/// scale: it is what the fixed-precision representation can serve while
/// keeping the edge semantics exact (an infinite relative position for a
/// zero magnitude, a signed infinity out of a zero-width domain seen from a
/// decided side).  Every pair of magnitudes built from integers or integer
/// ratios satisfies it, as does every zero-width pair.
pub open spec fn span_decided(min: Mag, max: Mag) -> bool {
    fin_win_sign(num_sub(mag_log10(max), mag_log10(min))) != 2
}

/// The relative position of a magnitude: the linear interpolation of its
/// logarithm between the logarithms of the bounds.
pub open spec fn spec_log_rel(min: Mag, max: Mag, a: Mag) -> Num {
    spec_lin_rel(mag_log10(min), mag_log10(max), mag_log10(a))
}

/// The magnitude at a relative position: 10 to the linear interpolation
/// between the logarithms of the bounds.
pub open spec fn spec_log_abs(min: Mag, max: Mag, r: Num) -> Mag {
    mag_pow10(spec_lin_abs(mag_log10(min), mag_log10(max), r))
}

/// The optional snap applied to a computed magnitude.
pub open spec fn mag_snap_applied<R: Rasterizer<Mag>>(raster: Option<R>, v: Mag) -> Mag {
    match raster {
        Option::Some(rz) => rz.snap_spec(v),
        Option::None => v,
    }
}

pub struct LogarithmicScale<R> {
    pub min: Mag,
    pub max: Mag,
    pub linear_delegate: LinearScale<IdentityRasterizer>,
    pub raster: Option<R>,
}

impl<R> LogarithmicScale<R> {
    /// The delegate interpolates between the logarithms of the stored
    /// bounds and carries no rasterizer of its own; the sign of the log-span
    /// is decided at construction.
    pub open spec fn wf(self) -> bool {
        &&& self.min.wf()
        &&& self.max.wf()
        &&& self.linear_delegate.min == mag_log10(self.min)
        &&& self.linear_delegate.max == mag_log10(self.max)
        &&& self.linear_delegate.raster is None
        &&& span_decided(self.min, self.max)
    }
}

/// Whether a pair of magnitudes can bound a logarithmic scale: its log-span's
/// sign is decided by the kernel's bounds on log10(2).  Lets a caller test
/// the construction precondition before building a scale.
pub fn span_sign_decidable(min: &Mag, max: &Mag) -> (r: bool)
    requires
        min.wf(),
        max.wf(),
    ensures
        r == span_decided(*min, *max),
{
    let s: Num = max.log10().sub(min.log10());
    crate::num::fin_sign_exec(&s) != 2
}

impl LogarithmicScale<IdentityRasterizer> {
    /// A logarithmic scale over [min, max] with no rasterization.  The
    /// log-span's sign must be decidable (see `span_decided`); integer and
    /// integer-ratio bounds always are.
    pub fn with_min_max(min: Mag, max: Mag) -> (s: LogarithmicScale<IdentityRasterizer>)
        requires
            min.wf(),
            max.wf(),
            span_decided(min, max),
        ensures
            s.min == min,
            s.max == max,
            s.raster is None,
            s.wf(),
    {
        let lmin: Num = min.log10();
        let lmax: Num = max.log10();
        LogarithmicScale {
            min,
            max,
            linear_delegate: LinearScale::with_min_max(lmin, lmax),
            raster: None,
        }
    }
}

impl<R: Rasterizer<Mag>> LogarithmicScale<R> {
    /// A logarithmic scale over [min, max] that snaps every computed
    /// absolute magnitude through the given rasterizer.  The log-span's sign
    /// must be decidable (see `span_decided`); integer and integer-ratio
    /// bounds always are.
    pub fn with_min_max_and_rasterizer(min: Mag, max: Mag, rasterizer: R) -> (s: LogarithmicScale<
        R,
    >)
        requires
            min.wf(),
            max.wf(),
            span_decided(min, max),
        ensures
            s.min == min,
            s.max == max,
            s.raster == Option::Some(rasterizer),
            s.wf(),
    {
        let lmin: Num = min.log10();
        let lmax: Num = max.log10();
        LogarithmicScale {
            min,
            max,
            linear_delegate: LinearScale::with_min_max(lmin, lmax),
            raster: Some(rasterizer),
        }
    }

    /// The relative position of an absolute magnitude; extrapolates outside
    /// [min, max].  A zero input maps to negative infinity, a negative input
    /// to `Nan`.
    pub fn to_relative(&self, absolute: Mag) -> (r: Num)
        requires
            self.wf(),
            absolute.wf(),
        ensures
            r == spec_log_rel(self.min, self.max, absolute),
            r.wf(),
    {
        let lg: Num = absolute.log10();
        self.linear_delegate.to_relative(lg)
    }

    /// The absolute magnitude at a relative position, snapped through the
    /// rasterizer when one is stored; extrapolates outside [0, 1].
    pub fn to_absolute(&self, relative: Num) -> (r: Mag)
        requires
            self.wf(),
            relative.wf(),
        ensures
            r == mag_snap_applied(self.raster, spec_log_abs(self.min, self.max, relative)),
            self.raster is None ==> r.wf(),
    {
        let lg: Num = self.linear_delegate.to_absolute(relative);
        let v: Mag = Mag::pow10(lg);
        match &self.raster {
            Option::Some(rz) => rz.snap(v),
            Option::None => v,
        }
    }

    /// The lower bound given at construction, in original domain units.
    pub fn get_min(&self) -> (r: Mag)
        ensures
            r == self.min,
    {
        self.min
    }

    /// The upper bound given at construction, in original domain units.
    pub fn get_max(&self) -> (r: Mag)
        ensures
            r == self.max,
    {
        self.max
    }

    /// As `to_absolute`, with the input first clamped to [0, 1].
    pub fn to_clamped_absolute(&self, relative: Num) -> (r: Mag)
        requires
            self.wf(),
            relative.wf(),
        ensures
            r == mag_snap_applied(
                self.raster,
                spec_log_abs(self.min, self.max, num_clamp01(relative)),
            ),
            self.raster is None ==> r.wf(),
    {
        self.to_absolute(relative.clamp01())
    }

    /// As `to_relative`, with the result clamped to [0, 1].
    pub fn to_clamped_relative(&self, absolute: Mag) -> (r: Num)
        requires
            self.wf(),
            absolute.wf(),
        ensures
            r == num_clamp01(spec_log_rel(self.min, self.max, absolute)),
            r.wf(),
    {
        self.to_relative(absolute).clamp01()
    }
}

} // verus!
