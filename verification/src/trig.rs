//! Trigonometric functions on fixed-point angles.
//!
//! The transcendental kernels come from the `cordic` crate, evaluated on
//! `fixed::types::I32F32` values that share this library's bit layout; each
//! kernel's result is a pure function of its argument's bit pattern and is
//! given a name here.  The verified layer reduces the angle, pins the four
//! cardinal angles to their exact values, and clamps where a caller needs a
//! range.

use vstd::prelude::*;
use crate::fx::Fx;
use crate::fx::SCALE;
use crate::fx::clamp_bits;

verus! {

/// The bit pattern of pi, rounded down.
pub const PI_BITS: i64 = 13493037704;

/// The bit pattern of pi / 2; exactly half of `PI_BITS`.
pub const HALF_PI_BITS: i64 = 6746518852;

/// The bit pattern of a full turn; exactly twice `PI_BITS`.
pub const TAU_BITS: i64 = 26986075408;

/// The bit pattern of pi / 180, the degree-to-radian factor, rounded down.
pub const DEG_TO_RAD_BITS: i64 = 74961320;

/// What `cordic::sin` returns on the fixed-point number with this bit pattern.
pub uninterp spec fn cordic_sin(bits: int) -> int;

/// What `cordic::cos` returns on the fixed-point number with this bit pattern.
pub uninterp spec fn cordic_cos(bits: int) -> int;

/// What `cordic::atan` returns on the fixed-point number with this bit pattern.
pub uninterp spec fn cordic_atan(bits: int) -> int;

/// What `cordic::acos` returns on the fixed-point number with this bit pattern.
pub uninterp spec fn cordic_acos(bits: int) -> int;

/// Relies on `cordic::sin` over `fixed::types::I32F32`: a pure function of the
/// argument's bit pattern.  Arguments are confined to one turn, where the
/// crate's own range reduction stays within the type's range.
#[verifier::external_body]
pub(crate) fn sin_raw(b: i64) -> (r: i64)
    requires
        0 <= b < TAU_BITS,
    ensures
        r as int == cordic_sin(b as int),
{
    cordic::sin(fixed::types::I32F32::from_bits(b)).to_bits()
}

/// Relies on `cordic::cos` over `fixed::types::I32F32`: a pure function of the
/// argument's bit pattern.  Arguments are confined to one turn, where the
/// crate's own range reduction stays within the type's range.
#[verifier::external_body]
pub(crate) fn cos_raw(b: i64) -> (r: i64)
    requires
        0 <= b < TAU_BITS,
    ensures
        r as int == cordic_cos(b as int),
{
    cordic::cos(fixed::types::I32F32::from_bits(b)).to_bits()
}

/// Relies on `cordic::atan` over `fixed::types::I32F32`: a pure function of
/// the argument's bit pattern.  Arguments are kept small enough that the
/// rotation state stays within the type's range.
#[verifier::external_body]
pub(crate) fn atan_raw(b: i64) -> (r: i64)
    requires
        -0x10_0000_0000_0000 <= b <= 0x10_0000_0000_0000,
    ensures
        r as int == cordic_atan(b as int),
{
    cordic::atan(fixed::types::I32F32::from_bits(b)).to_bits()
}

/// Relies on `cordic::acos` over `fixed::types::I32F32`: a pure function of
/// the argument's bit pattern.  Arguments are confined to `[-1, 1]`, where the
/// double-rotation state stays within the type's range.
#[verifier::external_body]
pub(crate) fn acos_raw(b: i64) -> (r: i64)
    requires
        -SCALE <= b <= SCALE,
    ensures
        r as int == cordic_acos(b as int),
{
    cordic::acos(fixed::types::I32F32::from_bits(b)).to_bits()
}

/// An angle in degrees converted to radians, at fixed-point granularity.
pub open spec fn rad_of_deg(d: int) -> int {
    crate::fx::mul_bits(DEG_TO_RAD_BITS as int, d)
}

/// Clamp into `[-1, 1]`.
pub open spec fn clamp_one(x: int) -> int {
    clamp_bits(x, -SCALE as int, SCALE as int)
}

/// The sine of an angle already reduced to `[0, TAU_BITS)`: exact at the four
/// cardinal angles, otherwise the clamped kernel value.
pub open spec fn sin_bits(r: int) -> int {
    if r == 0 {
        0
    } else if r == HALF_PI_BITS {
        SCALE as int
    } else if r == PI_BITS {
        0
    } else if r == PI_BITS + HALF_PI_BITS {
        -SCALE
    } else {
        clamp_one(cordic_sin(r))
    }
}

/// The cosine of an angle already reduced to `[0, TAU_BITS)`: exact at the
/// four cardinal angles, otherwise the clamped kernel value.
pub open spec fn cos_bits(r: int) -> int {
    if r == 0 {
        SCALE as int
    } else if r == HALF_PI_BITS {
        0
    } else if r == PI_BITS {
        -SCALE
    } else if r == PI_BITS + HALF_PI_BITS {
        0
    } else {
        clamp_one(cordic_cos(r))
    }
}

/// Sine and cosine of an arbitrary fixed-point angle in radians.
pub fn sin_cos(a: Fx) -> (r: (Fx, Fx))
    ensures
        r.0.bits == sin_bits((a.bits as int) % (TAU_BITS as int)),
        r.1.bits == cos_bits((a.bits as int) % (TAU_BITS as int)),
        -SCALE <= r.0.bits <= SCALE,
        -SCALE <= r.1.bits <= SCALE,
{
    let red = a.rem_euclid(Fx { bits: TAU_BITS });
    let rb = red.bits;
    if rb == 0 {
        (Fx { bits: 0 }, Fx { bits: SCALE })
    } else if rb == HALF_PI_BITS {
        (Fx { bits: SCALE }, Fx { bits: 0 })
    } else if rb == PI_BITS {
        (Fx { bits: 0 }, Fx { bits: -SCALE })
    } else if rb == PI_BITS + HALF_PI_BITS {
        (Fx { bits: -SCALE }, Fx { bits: 0 })
    } else {
        let s = sin_raw(rb);
        let c = cos_raw(rb);
        let sc = Fx { bits: s }.clamp(Fx { bits: -SCALE }, Fx { bits: SCALE });
        let cc = Fx { bits: c }.clamp(Fx { bits: -SCALE }, Fx { bits: SCALE });
        (sc, cc)
    }
}

/// The arc tangent as computed here: the kernel value clamped into
/// `[-pi, pi]`, with large arguments folded to the quarter-turn limit.
pub open spec fn atan_bits(x: int) -> int {
    if x > 0x10_0000_0000_0000 {
        HALF_PI_BITS as int
    } else if x < -0x10_0000_0000_0000 {
        -HALF_PI_BITS
    } else {
        clamp_bits(cordic_atan(x), -PI_BITS as int, PI_BITS as int)
    }
}

/// Arc tangent of an arbitrary fixed-point value.
pub fn atan(a: Fx) -> (r: Fx)
    ensures
        r.bits == atan_bits(a.bits as int),
        -PI_BITS <= r.bits <= PI_BITS,
{
    if a.bits > 0x10_0000_0000_0000 {
        Fx { bits: HALF_PI_BITS }
    } else if a.bits < -0x10_0000_0000_0000 {
        Fx { bits: -HALF_PI_BITS }
    } else {
        let t = atan_raw(a.bits);
        Fx { bits: t }.clamp(Fx { bits: -PI_BITS }, Fx { bits: PI_BITS })
    }
}

/// The arc cosine of a value already clamped into `[-1, 1]`: exact at the
/// endpoints and at zero, otherwise the kernel value clamped into the
/// half-turn range `[0, pi]`.
pub open spec fn acos_bits(c: int) -> int {
    if c == SCALE {
        0
    } else if c == -SCALE {
        PI_BITS as int
    } else if c == 0 {
        HALF_PI_BITS as int
    } else {
        clamp_bits(cordic_acos(c), 0, PI_BITS as int)
    }
}

/// Arc cosine; the argument is clamped into `[-1, 1]` first, mirroring the
/// domain guard a caller computing an angle between vectors needs.  The
/// result always lies within `[0, pi]`.
pub fn acos_clamped(a: Fx) -> (r: Fx)
    ensures
        r.bits == acos_bits(clamp_one(a.bits as int)),
        0 <= r.bits <= PI_BITS,
{
    let c = a.clamp(Fx { bits: -SCALE }, Fx { bits: SCALE });
    if c.bits == SCALE {
        Fx { bits: 0 }
    } else if c.bits == -SCALE {
        Fx { bits: PI_BITS }
    } else if c.bits == 0 {
        Fx { bits: HALF_PI_BITS }
    } else {
        Fx { bits: acos_raw(c.bits) }.clamp(Fx { bits: 0 }, Fx { bits: PI_BITS })
    }
}

} // verus!
