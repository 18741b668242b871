//! Primitive axis types and the scalar capability kernel.
//!
//! Every composite value shape is built from a handful of scalar axis
//! types: a color, a length, an angle, a unitless factor and an opaque URL
//! reference.  All scalars are held as bounded integers so that every
//! capability operation is exact: lengths in hundredths of a pixel, factors
//! in thousandths, angles in thousandths of a degree.  Interpolation and
//! the squared-distance metric on composites reduce to the scalar
//! operations defined here, and the shape-level laws reduce to the scalar
//! lemmas proved here.

use vstd::prelude::*;
use vstd::arithmetic::div_mod::*;
use vstd::arithmetic::mul::*;

verus! {

/// Length axis values count hundredths of a CSS pixel.
pub const AU_PER_PX: i32 = 100;

/// Magnitude bound on every scalar axis value (units, thousandths,
/// millidegrees).  Keeping all scalars within this bound keeps every
/// product taken by interpolation, distance and percentage resolution
/// comfortably inside 64-bit arithmetic.
pub const AXIS_MAX: i32 = 0x100_0000;

/// Animation progress is a fraction of this denominator: `PROGRESS_END`
/// thousandths is progress `1.0`.
pub const PROGRESS_END: u16 = 1000;

/// True when a scalar lies within the axis magnitude bound.
pub open spec fn axis_in_range(x: int) -> bool {
    -(AXIS_MAX as int) <= x <= AXIS_MAX as int
}

/// An animation progress fraction in thousandths of the range [0, 1].
#[derive(Clone, Copy, Debug, PartialEq, Eq, Structural)]
pub struct Progress {
    /// Thousandths of full progress; at most [`PROGRESS_END`].
    pub milli: u16,
}

impl Progress {
    /// Well-formedness: the fraction lies in [0, 1].
    pub open spec fn wf(self) -> bool {
        self.milli <= PROGRESS_END
    }

    /// Builds a progress fraction, clamping to the end of the range.
    pub fn new(milli: u16) -> (r: Progress)
        ensures
            r.wf(),
            r.milli == if milli <= PROGRESS_END { milli as int } else { PROGRESS_END as int },
    {
        if milli <= PROGRESS_END {
            Progress { milli }
        } else {
            Progress { milli: PROGRESS_END }
        }
    }
}

/// A color with 8-bit red, green, blue and alpha components.  Animation
/// interpolates the four components independently, in this 8-bit sRGB
/// space (the interpolation space is fixed here, deliberately).
#[derive(Clone, Copy, Debug, PartialEq, Eq, Structural)]
pub struct Rgba {
    /// Red component.
    pub red: u8,
    /// Green component.
    pub green: u8,
    /// Blue component.
    pub blue: u8,
    /// Alpha component; 255 is fully opaque.
    pub alpha: u8,
}

/// An absolute length in hundredths of a CSS pixel.
#[derive(Clone, Copy, Debug, PartialEq, Eq, Structural)]
pub struct Length {
    /// Hundredths of a pixel.
    pub au: i32,
}

/// A unitless factor in thousandths: `1500` is the factor 1.5 (150%).
#[derive(Clone, Copy, Debug, PartialEq, Eq, Structural)]
pub struct Factor {
    /// Thousandths of the unit factor.
    pub milli: i32,
}

/// An angle in thousandths of a degree.
#[derive(Clone, Copy, Debug, PartialEq, Eq, Structural)]
pub struct Angle {
    /// Thousandths of a degree.
    pub millideg: i32,
}

/// An opaque reference to an externally defined filter resource.  The
/// (external) parser interns the reference text and hands this core a
/// plain handle, which keeps every stage representation pointer-free.
/// A URL reference is never interpolated.
#[derive(Clone, Copy, Debug, PartialEq, Eq, Structural)]
pub struct UrlRef {
    /// Interned resource handle.
    pub handle: u64,
}

/// The distance a scalar moves from its start after `t` thousandths of a
/// linear sweep of magnitude `d`.
pub open spec fn scaled_step(d: int, t: int) -> int {
    (d * t) / (PROGRESS_END as int)
}

/// Linear interpolation from `a` to `b` at `t` thousandths, rounding the
/// travelled magnitude down.
pub open spec fn lerp_int(a: int, b: int, t: int) -> int {
    if b >= a {
        a + scaled_step(b - a, t)
    } else {
        a - scaled_step(a - b, t)
    }
}

/// Squared distance between two scalars.
pub open spec fn dist2_int(a: int, b: int) -> int {
    (a - b) * (a - b)
}

/// Clamps a scalar into the axis magnitude bound.
pub open spec fn clamp_axis(x: int) -> int {
    if x < -(AXIS_MAX as int) {
        -(AXIS_MAX as int)
    } else if x > AXIS_MAX as int {
        AXIS_MAX as int
    } else {
        x
    }
}

/// A scaled step never goes backwards and never overshoots the sweep.
pub proof fn lemma_scaled_step_bounds(d: int, t: int)
    requires
        0 <= d,
        0 <= t <= PROGRESS_END as int,
    ensures
        0 <= scaled_step(d, t) <= d,
{
    lemma_mul_nonnegative(d, t);
    lemma_div_pos_is_pos(d * t, PROGRESS_END as int);
    lemma_mul_inequality(t, PROGRESS_END as int, d);
    lemma_mul_is_commutative(t, d);
    lemma_mul_is_commutative(PROGRESS_END as int, d);
    lemma_div_is_ordered(d * t, d * (PROGRESS_END as int), PROGRESS_END as int);
    lemma_div_by_multiple(d, PROGRESS_END as int);
}

/// A scaled step is monotone in the progress fraction.
pub proof fn lemma_scaled_step_monotone(d: int, t1: int, t2: int)
    requires
        0 <= d,
        0 <= t1 <= t2,
    ensures
        scaled_step(d, t1) <= scaled_step(d, t2),
{
    lemma_mul_inequality(t1, t2, d);
    lemma_mul_is_commutative(t1, d);
    lemma_mul_is_commutative(t2, d);
    lemma_div_is_ordered(d * t1, d * t2, PROGRESS_END as int);
}

/// A sweep travels nothing at progress 0 and its whole magnitude at
/// progress 1.
pub proof fn lemma_scaled_step_ends(d: int)
    requires
        0 <= d,
    ensures
        scaled_step(d, 0) == 0,
        scaled_step(d, PROGRESS_END as int) == d,
{
    lemma_div_by_multiple(d, PROGRESS_END as int);
    lemma_scaled_step_bounds(d, 0);
}

/// Interpolation starts exactly at `a` and ends exactly at `b`.
pub proof fn lemma_lerp_ends(a: int, b: int)
    ensures
        lerp_int(a, b, 0) == a,
        lerp_int(a, b, PROGRESS_END as int) == b,
{
    if b >= a {
        lemma_scaled_step_ends(b - a);
    } else {
        lemma_scaled_step_ends(a - b);
    }
}

/// Interpolation stays between its endpoints.
pub proof fn lemma_lerp_bounds(a: int, b: int, t: int)
    requires
        0 <= t <= PROGRESS_END as int,
    ensures
        b >= a ==> a <= lerp_int(a, b, t) <= b,
        b < a ==> b <= lerp_int(a, b, t) <= a,
{
    if b >= a {
        lemma_scaled_step_bounds(b - a, t);
    } else {
        lemma_scaled_step_bounds(a - b, t);
    }
}

/// The squared distance of the interpolant from the start point grows
/// monotonically with the progress fraction.
pub proof fn lemma_lerp_dist2_monotone(a: int, b: int, t1: int, t2: int)
    requires
        0 <= t1 <= t2 <= PROGRESS_END as int,
    ensures
        dist2_int(lerp_int(a, b, t1), a) <= dist2_int(lerp_int(a, b, t2), a),
{
    let d = if b >= a { b - a } else { a - b };
    lemma_scaled_step_bounds(d, t1);
    lemma_scaled_step_bounds(d, t2);
    lemma_scaled_step_monotone(d, t1, t2);
    let x = scaled_step(d, t1);
    let y = scaled_step(d, t2);
    assert(dist2_int(lerp_int(a, b, t1), a) == x * x) by (nonlinear_arith)
        requires
            lerp_int(a, b, t1) - a == x || lerp_int(a, b, t1) - a == -x,
    ;
    assert(dist2_int(lerp_int(a, b, t2), a) == y * y) by (nonlinear_arith)
        requires
            lerp_int(a, b, t2) - a == y || lerp_int(a, b, t2) - a == -y,
    ;
    assert(x * x <= y * y) by (nonlinear_arith)
        requires
            0 <= x <= y,
    ;
}

/// The squared distance between scalars is symmetric.
pub proof fn lemma_dist2_symmetric(a: int, b: int)
    ensures
        dist2_int(a, b) == dist2_int(b, a),
{
    assert((a - b) * (a - b) == (b - a) * (b - a)) by (nonlinear_arith);
}

/// The squared distance between scalars is non-negative, and zero exactly
/// on equal scalars.
pub proof fn lemma_dist2_zero_iff(a: int, b: int)
    ensures
        dist2_int(a, b) >= 0,
        dist2_int(a, b) == 0 <==> a == b,
{
    assert((a - b) * (a - b) >= 0) by (nonlinear_arith);
    assert((a - b) * (a - b) == 0 ==> a == b) by (nonlinear_arith);
    assert(a == b ==> (a - b) * (a - b) == 0) by (nonlinear_arith);
}

/// Interpolates one scalar axis value.
pub fn lerp_axis(a: i32, b: i32, t: u16) -> (r: i32)
    requires
        axis_in_range(a as int),
        axis_in_range(b as int),
        t <= PROGRESS_END,
    ensures
        r as int == lerp_int(a as int, b as int, t as int),
        axis_in_range(r as int),
{
    proof {
        lemma_lerp_bounds(a as int, b as int, t as int);
    }
    if b >= a {
        let d: u64 = (b - a) as u64;
        proof {
            lemma_scaled_step_bounds(d as int, t as int);
        }
        let step: u64 = (d * (t as u64)) / (PROGRESS_END as u64);
        a + (step as i32)
    } else {
        let d: u64 = (a - b) as u64;
        proof {
            lemma_scaled_step_bounds(d as int, t as int);
        }
        let step: u64 = (d * (t as u64)) / (PROGRESS_END as u64);
        a - (step as i32)
    }
}

/// Interpolates one 8-bit color component.
pub fn lerp_channel(a: u8, b: u8, t: u16) -> (r: u8)
    requires
        t <= PROGRESS_END,
    ensures
        r as int == lerp_int(a as int, b as int, t as int),
{
    proof {
        lemma_lerp_bounds(a as int, b as int, t as int);
    }
    lerp_axis(a as i32, b as i32, t) as u8
}

/// Squared distance between two scalar axis values.
pub fn dist2_axis(a: i32, b: i32) -> (r: u64)
    requires
        axis_in_range(a as int),
        axis_in_range(b as int),
    ensures
        r as int == dist2_int(a as int, b as int),
        r <= 0x10_0000_0000_0000,
{
    let d: u64 = if a >= b {
        (a - b) as u64
    } else {
        (b - a) as u64
    };
    proof {
        lemma_dist2_symmetric(a as int, b as int);
        assert(d * d == dist2_int(a as int, b as int) || d * d == dist2_int(b as int, a as int))
            by (nonlinear_arith)
            requires
                a as int - b as int == d as int || b as int - a as int == d as int,
        ;
        assert(d * d <= 0x10_0000_0000_0000) by (nonlinear_arith)
            requires
                d <= 0x200_0000,
        ;
    }
    d * d
}

/// Squared distance between two 8-bit color components.
pub fn dist2_channel(a: u8, b: u8) -> (r: u64)
    ensures
        r as int == dist2_int(a as int, b as int),
        r <= 0x10_0000,
{
    let r = dist2_axis(a as i32, b as i32);
    proof {
        assert(r as int <= 255 * 255) by (nonlinear_arith)
            requires
                r as int == dist2_int(a as int, b as int),
                0 <= a as int <= 255,
                0 <= b as int <= 255,
        ;
    }
    r
}

} // verus!
