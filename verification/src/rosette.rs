//! The fixed rosette: a closed-form curve of two frequencies, sampled on an
//! even grid of its parameter.
//!
//! The curve is `x = cx + A1 cos(F1 t) + A2 cos(F2 t)`,
//! `y = cy + A1 sin(F1 t) + A2 sin(F2 t)`. What is fixed about it is kept
//! here as whole numbers; evaluating it is the caller's business.

use vstd::prelude::*;

verus! {

/// The centre of the rosette, on both axes.
pub const CENTER: u32 = 250;

/// The amplitude of the first term, `A1`.
pub const PRIMARY_AMPLITUDE: u32 = 100;

/// The frequency of the first term, `F1`.
pub const PRIMARY_FREQUENCY: u32 = 3;

/// The amplitude of the second term, `A2`.
pub const SECONDARY_AMPLITUDE: u32 = 50;

/// The frequency of the second term, `F2`.
pub const SECONDARY_FREQUENCY: u32 = 2;

/// The parameter runs from zero to this value.
pub const T_MAX: u32 = 10;

/// The number of steps in one unit of the parameter: a step is a hundredth.
pub const STEPS_PER_UNIT: u32 = 100;

/// The number of samples on a grid from zero to `t_max`, both ends included,
/// with `steps_per_unit` steps to the unit.
pub open spec fn grid_len(t_max: u32, steps_per_unit: u32) -> int {
    t_max * steps_per_unit + 1
}

/// The number of samples on a grid from zero to `t_max`, both ends included,
/// with `steps_per_unit` steps to the unit.
pub fn sample_count(t_max: u32, steps_per_unit: u32) -> (count: u64)
    ensures
        count == grid_len(t_max, steps_per_unit),
{
    assert(t_max * steps_per_unit <= 0xffff_ffff * 0xffff_ffff) by (nonlinear_arith)
        requires
            t_max <= 0xffff_ffff,
            steps_per_unit <= 0xffff_ffff,
    ;
    let span: u64 = t_max as u64;
    let density: u64 = steps_per_unit as u64;
    span * density + 1
}

/// The number of samples of the rosette.
pub fn rosette_sample_count() -> (count: u64)
    ensures
        count == 1001,
{
    sample_count(T_MAX, STEPS_PER_UNIT)
}

} // verus!
