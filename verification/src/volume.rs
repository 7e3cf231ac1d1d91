//! Fixed-point volume arithmetic.
//!
//! A volume is a `u32` between `0` and [`VOLUME_UNIT`] thousandths of full
//! scale. Out-of-range requests are clamped, never rejected. The gain of an
//! active voice is the product of two volumes, so it ranges from `0` to
//! `VOLUME_UNIT * VOLUME_UNIT` millionths of full scale.

use vstd::prelude::*;

verus! {

/// Full volume, in thousandths of full scale.
pub const VOLUME_UNIT: u32 = 1000;

/// What any requested volume is reduced to before it is stored: the nearest
/// value inside `[0, VOLUME_UNIT]`.
pub open spec fn clamped(value: int) -> u32 {
    if value < 0 {
        0u32
    } else if value > VOLUME_UNIT {
        VOLUME_UNIT
    } else {
        value as u32
    }
}

/// Clamps a requested volume into `[0, VOLUME_UNIT]`.
pub fn clamp_volume(value: i64) -> (v: u32)
    ensures
        v == clamped(value as int),
{
    if value < 0 {
        0
    } else if value > VOLUME_UNIT as i64 {
        VOLUME_UNIT
    } else {
        value as u32
    }
}

/// The gain applied to a voice: instance volume times global volume, in
/// millionths of full scale.
pub fn gain_of(own: u32, global: u32) -> (g: u32)
    requires
        own <= VOLUME_UNIT,
        global <= VOLUME_UNIT,
    ensures
        g == own * global,
{
    proof {
        assert(own * global <= 1000 * 1000) by (nonlinear_arith)
            requires
                own <= 1000,
                global <= 1000,
        ;
    }
    own * global
}

} // verus!
