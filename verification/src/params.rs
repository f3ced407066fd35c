//! The parameters of one roulette layer, and what follows from them by
//! counting: the ratio of the two circles, the number of revolutions, the
//! length of the trace.

use crate::binary64::{saturate, Binary64};
use crate::error::CurveError;
use crate::resolver::{
    lemma_resolve_closed_form,
    resolve_spec,
    rotations_for_whole,
    rotations_of_whole,
};
use vstd::arithmetic::div_mod::{lemma_div_minus_one, lemma_div_plus_one, lemma_div_pos_is_pos};
use vstd::prelude::*;

verus! {

/// How the two radii combine.
#[derive(Clone, Copy, Debug, PartialEq, Eq, Structural)]
pub enum CombineMode {
    /// The rolling circle runs inside the fixed one: a hypotrochoid.
    Difference,
    /// The rolling circle runs outside the fixed one: an epitrochoid.
    Sum,
}

/// The parameters of a layer as plain data: what a [`CurveParams`] holds.
pub struct ParamsView {
    pub fixed_radius: Binary64,
    pub rolling_radius: Binary64,
    pub pen_offset: Binary64,
    pub phase_angle: Binary64,
    pub samples_per_revolution: u32,
    pub combine_mode: CombineMode,
}

impl ParamsView {
    /// Each parameter lies in its domain: the radii are positive, the pen
    /// offset is not negative, the phase angle is a finite number, and a
    /// revolution has at least one sample.
    pub open spec fn valid(self) -> bool {
        &&& self.fixed_radius.positive()
        &&& self.rolling_radius.positive()
        &&& self.pen_offset.non_negative()
        &&& self.phase_angle.finite()
        &&& self.samples_per_revolution > 0
    }

    /// The numerator of the ratio of the circles: the fixed radius plus or
    /// minus the rolling radius, in units of 2<sup>-1074</sup>.
    pub open spec fn ratio_num(self) -> int {
        match self.combine_mode {
            CombineMode::Sum => (self.fixed_radius.magnitude()
                + self.rolling_radius.magnitude()) as int,
            CombineMode::Difference => self.fixed_radius.magnitude()
                - self.rolling_radius.magnitude(),
        }
    }

    /// The denominator of the ratio of the circles: the rolling radius, in
    /// the same units.
    pub open spec fn ratio_den(self) -> int {
        self.rolling_radius.magnitude() as int
    }

    /// Whether the ratio is greater than zero. In sum mode it always is; in
    /// difference mode the fixed circle has to be the larger one.
    pub open spec fn ratio_positive(self) -> bool {
        self.ratio_num() > 0
    }

    /// The number of revolutions that the curve is drawn for.
    pub open spec fn rotations(self) -> int {
        resolve_spec(self.ratio_num(), self.ratio_den())
    }

    /// The number of samples of a trace of `rotations` revolutions.
    pub open spec fn trace_len(self, rotations: int) -> int {
        self.samples_per_revolution * rotations
    }
}

/// The parameters of one roulette layer. A value of this type is valid: it
/// can only be made by [`CurveParams::new`], and is never changed.
#[derive(Clone, Copy, Debug)]
pub struct CurveParams {
    fixed_radius: Binary64,
    rolling_radius: Binary64,
    pen_offset: Binary64,
    phase_angle: Binary64,
    samples_per_revolution: u32,
    combine_mode: CombineMode,
}

impl View for CurveParams {
    type V = ParamsView;

    closed spec fn view(&self) -> ParamsView {
        ParamsView {
            fixed_radius: self.fixed_radius,
            rolling_radius: self.rolling_radius,
            pen_offset: self.pen_offset,
            phase_angle: self.phase_angle,
            samples_per_revolution: self.samples_per_revolution,
            combine_mode: self.combine_mode,
        }
    }
}

impl CurveParams {
    #[verifier::type_invariant]
    closed spec fn well_formed(self) -> bool {
        self@.valid()
    }

    /// Makes a layer from its parameters, or refuses them if one lies outside
    /// its domain.
    pub fn new(
        fixed_radius: Binary64,
        rolling_radius: Binary64,
        pen_offset: Binary64,
        phase_angle: Binary64,
        samples_per_revolution: u32,
        combine_mode: CombineMode,
    ) -> (made: Result<CurveParams, CurveError>)
        ensures
            match made {
                Ok(params) => {
                    &&& params@.valid()
                    &&& params@ == (ParamsView {
                        fixed_radius,
                        rolling_radius,
                        pen_offset,
                        phase_angle,
                        samples_per_revolution,
                        combine_mode,
                    })
                },
                Err(error) => {
                    &&& error == CurveError::InvalidParameter
                    &&& !(ParamsView {
                        fixed_radius,
                        rolling_radius,
                        pen_offset,
                        phase_angle,
                        samples_per_revolution,
                        combine_mode,
                    }).valid()
                },
            },
    {
        if fixed_radius.is_positive() && rolling_radius.is_positive()
            && pen_offset.is_non_negative() && phase_angle.is_finite() && samples_per_revolution
            > 0 {
            Ok(
                CurveParams {
                    fixed_radius,
                    rolling_radius,
                    pen_offset,
                    phase_angle,
                    samples_per_revolution,
                    combine_mode,
                },
            )
        } else {
            Err(CurveError::InvalidParameter)
        }
    }

    /// The number of revolutions that the curve is drawn for, resolved from
    /// the exact ratio of its circles. A layer in difference mode whose fixed
    /// circle is not the larger one has no positive ratio, and is refused.
    pub fn rotations(&self) -> (resolved: Result<u32, CurveError>)
        ensures
            self@.valid(),
            match resolved {
                Ok(rotations) => {
                    &&& self@.ratio_positive()
                    &&& rotations == self@.rotations()
                    &&& rotations >= 1
                },
                Err(error) => error == CurveError::InvalidParameter && !self@.ratio_positive(),
            },
    {
        proof {
            use_type_invariant(self);
        }
        let ghost fixed = self.fixed_radius.magnitude();
        let ghost rolling = self.rolling_radius.magnitude();
        let times: u64 = self.fixed_radius.whole_quotient(&self.rolling_radius);
        match self.combine_mode {
            CombineMode::Sum => {
                let whole: u64 = if times == u64::MAX {
                    times
                } else {
                    times + 1
                };
                proof {
                    lemma_div_plus_one(fixed as int, rolling as int);
                    lemma_resolve_closed_form(self@.ratio_num(), self@.ratio_den());
                    assert(saturate((self@.ratio_num() / self@.ratio_den()) as nat) == whole);
                }
                Ok(rotations_for_whole(whole))
            },
            CombineMode::Difference => {
                if self.rolling_radius.magnitude_lt(&self.fixed_radius) {
                    proof {
                        lemma_div_minus_one(fixed as int, rolling as int);
                        lemma_div_pos_is_pos(self@.ratio_num(), self@.ratio_den());
                        lemma_resolve_closed_form(self@.ratio_num(), self@.ratio_den());
                    }
                    let whole: u64 = times - 1;
                    proof {
                        let exact = (self@.ratio_num() / self@.ratio_den()) as nat;
                        assert(saturate(exact) == whole || (whole == u64::MAX - 1 && exact
                            >= u64::MAX));
                    }
                    Ok(rotations_for_whole(whole))
                } else {
                    Err(CurveError::InvalidParameter)
                }
            },
        }
    }

    /// The number of samples of the trace of the layer, drawn for the number
    /// of revolutions that [`CurveParams::rotations`] resolves.
    pub fn resolved_trace_len(&self) -> (resolved: Result<u64, CurveError>)
        ensures
            self@.valid(),
            match resolved {
                Ok(len) => {
                    &&& self@.ratio_positive()
                    &&& len == self@.trace_len(self@.rotations())
                    &&& len >= 1
                },
                Err(error) => error == CurveError::InvalidParameter && !self@.ratio_positive(),
            },
    {
        match self.rotations() {
            Ok(rotations) => {
                let len = self.trace_len(rotations);
                assert(self.samples_per_revolution * rotations >= 1) by (nonlinear_arith)
                    requires
                        self.samples_per_revolution >= 1,
                        rotations >= 1,
                ;
                Ok(len)
            },
            Err(error) => Err(error),
        }
    }

    /// The number of samples of a trace of `rotations` revolutions.
    pub fn trace_len(&self, rotations: u32) -> (len: u64)
        ensures
            len == self@.trace_len(rotations as int),
    {
        assert(self.samples_per_revolution * rotations <= 0xffff_ffff * 0xffff_ffff)
            by (nonlinear_arith)
            requires
                self.samples_per_revolution <= 0xffff_ffff,
                rotations <= 0xffff_ffff,
        ;
        let samples: u64 = self.samples_per_revolution as u64;
        let turns: u64 = rotations as u64;
        samples * turns
    }
}

impl CurveParams {
    /// The radius of the fixed circle.
    pub fn fixed_radius(&self) -> (r: Binary64)
        ensures
            r == self@.fixed_radius,
    {
        self.fixed_radius
    }

    /// The radius of the rolling circle.
    pub fn rolling_radius(&self) -> (r: Binary64)
        ensures
            r == self@.rolling_radius,
    {
        self.rolling_radius
    }

    /// The distance of the pen from the centre of the rolling circle.
    pub fn pen_offset(&self) -> (r: Binary64)
        ensures
            r == self@.pen_offset,
    {
        self.pen_offset
    }

    /// The phase angle, in radians.
    pub fn phase_angle(&self) -> (r: Binary64)
        ensures
            r == self@.phase_angle,
    {
        self.phase_angle
    }

    /// The number of samples in one revolution.
    pub fn samples_per_revolution(&self) -> (r: u32)
        ensures
            r == self@.samples_per_revolution,
    {
        self.samples_per_revolution
    }

    /// How the two radii combine.
    pub fn combine_mode(&self) -> (r: CombineMode)
        ensures
            r == self@.combine_mode,
    {
        self.combine_mode
    }
}

} // verus!
