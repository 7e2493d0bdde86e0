//! Fixed-point plane geometry.
//!
//! One game unit is `UNIT` (1000) milli-units; every coordinate, speed and
//! radius in the core is an `i64` count of milli-units. Integer arithmetic
//! makes the simulation bit-identical on every peer, which floating point
//! cannot guarantee.
use vstd::arithmetic::div_mod::{
    lemma_div_is_ordered, lemma_div_multiples_vanish, lemma_div_pos_is_pos,
};
use vstd::arithmetic::mul::{lemma_mul_inequality, lemma_mul_nonnegative};
use vstd::prelude::*;

verus! {

/// Milli-units per game unit: the fixed-point scale.
pub const UNIT: i64 = 1000;

/// Milli-component of a unit vector on a diagonal: `UNIT / sqrt(2)`,
/// rounded once and for all so that every peer agrees.
pub const DIAG: i64 = 707;

/// A point or direction in the plane, in milli-units.
#[derive(Clone, Copy, PartialEq, Eq, Structural, Debug)]
pub struct Vec2Fx {
    pub x: i64,
    pub y: i64,
}

/// `v` clamped to the symmetric interval `[-bound, bound]`.
pub open spec fn clamp_spec(v: int, bound: int) -> int {
    if v < -bound {
        -bound
    } else if v > bound {
        bound
    } else {
        v
    }
}

/// How far one axis moves in a frame: the milli-direction component `dc`
/// (at most `UNIT` in magnitude) scaled by a per-frame speed. Magnitude
/// and sign are separated so that the rounding of opposite directions is
/// symmetric.
pub open spec fn scaled_spec(dc: int, speed: int) -> int {
    if dc >= 0 {
        dc * speed / (UNIT as int)
    } else {
        -((-dc) * speed / (UNIT as int))
    }
}

/// A scaled axis component never exceeds the speed it scales.
pub proof fn lemma_scaled_bound(dc: int, speed: int)
    requires
        -(UNIT as int) <= dc <= (UNIT as int),
        0 <= speed,
    ensures
        -speed <= scaled_spec(dc, speed) <= speed,
{
    let u = UNIT as int;
    if dc >= 0 {
        lemma_mul_nonnegative(dc, speed);
        lemma_mul_inequality(dc, u, speed);
        lemma_div_is_ordered(dc * speed, u * speed, u);
        lemma_div_multiples_vanish(speed, u);
        lemma_div_pos_is_pos(dc * speed, u);
    } else {
        lemma_mul_nonnegative(-dc, speed);
        lemma_mul_inequality(-dc, u, speed);
        lemma_div_is_ordered((-dc) * speed, u * speed, u);
        lemma_div_multiples_vanish(speed, u);
        lemma_div_pos_is_pos((-dc) * speed, u);
    }
}

/// Scale a non-negative milli-magnitude by a speed: `mag * speed / UNIT`.
pub fn scaled_mag(mag: i64, speed: i64) -> (r: i64)
    requires
        0 <= mag <= UNIT,
        0 <= speed <= 0x10_0000,
    ensures
        r == scaled_spec(mag as int, speed as int),
        0 <= r <= speed,
{
    proof {
        lemma_scaled_bound(mag as int, speed as int);
    }
    (((mag as u64) * (speed as u64)) / (UNIT as u64)) as i64
}

/// The signed axis delta for a milli-direction component and a speed.
pub fn scaled(dc: i64, speed: i64) -> (r: i64)
    requires
        -UNIT <= dc <= UNIT,
        0 <= speed <= 0x10_0000,
    ensures
        r == scaled_spec(dc as int, speed as int),
        -speed <= r <= speed,
{
    if dc >= 0 {
        scaled_mag(dc, speed)
    } else {
        let m = scaled_mag(-dc, speed);
        -m
    }
}

/// `v` clamped to `[-bound, bound]`.
pub fn clamp(v: i64, bound: i64) -> (r: i64)
    requires
        0 <= bound,
    ensures
        r == clamp_spec(v as int, bound as int),
{
    if v < -bound {
        -bound
    } else if v > bound {
        bound
    } else {
        v
    }
}

} // verus!
