//! Three-component vectors: dot product, magnitude, angle between vectors and
//! the right-handed axis rotations, all over the fixed-point scalar.

use vstd::prelude::*;
use crate::fx::Fx;
use crate::fx::SCALE;
use crate::fx::tdiv;
use crate::fx::mul_bits;
use crate::fx::abs_int;
use crate::fx::i64_fits;
use crate::fx::isqrt_int;
use crate::fx::tdiv_by_scale;
use crate::trig;
use crate::trig::sin_bits;
use crate::trig::cos_bits;
use crate::trig::acos_bits;
use crate::trig::clamp_one;
use crate::trig::TAU_BITS;
use crate::trig::PI_BITS;

verus! {

/// Componentwise bit bound under which dot products and magnitudes cannot
/// overflow their wide intermediates: 2^62.
pub const COMP_BOUND: i64 = 0x4000_0000_0000_0000;

#[derive(Clone, Copy, Debug, PartialEq, Eq, Structural)]
pub struct Vector3 {
    pub x: Fx,
    pub y: Fx,
    pub z: Fx,
}

/// Every component's bit pattern is within `[-b, b]`.
pub open spec fn bounded(v: Vector3, b: int) -> bool {
    &&& -b <= v.x.bits <= b
    &&& -b <= v.y.bits <= b
    &&& -b <= v.z.bits <= b
}

/// The squared magnitude, exactly, in units of bits squared.
pub open spec fn norm2(v: Vector3) -> int {
    v.x.bits * v.x.bits + v.y.bits * v.y.bits + v.z.bits * v.z.bits
}

/// The magnitude's bit pattern: the integer square root of the exact
/// squared magnitude.
pub open spec fn mag_bits(v: Vector3) -> int {
    isqrt_int(norm2(v))
}

/// The dot product's bit pattern: the exact sum of products, truncated once.
pub open spec fn dot_bits(a: Vector3, b: Vector3) -> int {
    tdiv(a.x.bits * b.x.bits + a.y.bits * b.y.bits + a.z.bits * b.z.bits, SCALE as int)
}

/// The clamped cosine of the angle between two vectors, as a fraction of the
/// dot product `d` over the magnitude product `m`.
pub open spec fn inner_frac(d: int, m: int) -> int
    recommends
        m > 0,
{
    if d >= m {
        SCALE as int
    } else if d <= -m {
        -SCALE
    } else {
        tdiv(d * (SCALE as int), m)
    }
}

/// Rotation about the x axis by an angle given as a bit pattern in radians.
pub open spec fn rot_x_spec(v: Vector3, a: int) -> Vector3 {
    let s = sin_bits(a % (TAU_BITS as int));
    let c = cos_bits(a % (TAU_BITS as int));
    Vector3 {
        x: v.x,
        y: Fx { bits: (mul_bits(c, v.y.bits as int) - mul_bits(s, v.z.bits as int)) as i64 },
        z: Fx { bits: (mul_bits(s, v.y.bits as int) + mul_bits(c, v.z.bits as int)) as i64 },
    }
}

/// Rotation about the y axis by an angle given as a bit pattern in radians.
pub open spec fn rot_y_spec(v: Vector3, a: int) -> Vector3 {
    let s = sin_bits(a % (TAU_BITS as int));
    let c = cos_bits(a % (TAU_BITS as int));
    Vector3 {
        x: Fx { bits: (mul_bits(c, v.x.bits as int) + mul_bits(s, v.z.bits as int)) as i64 },
        y: v.y,
        z: Fx { bits: (mul_bits(c, v.z.bits as int) - mul_bits(s, v.x.bits as int)) as i64 },
    }
}

/// Rotation about the z axis by an angle given as a bit pattern in radians.
pub open spec fn rot_z_spec(v: Vector3, a: int) -> Vector3 {
    let s = sin_bits(a % (TAU_BITS as int));
    let c = cos_bits(a % (TAU_BITS as int));
    Vector3 {
        x: Fx { bits: (mul_bits(c, v.x.bits as int) - mul_bits(s, v.y.bits as int)) as i64 },
        y: Fx { bits: (mul_bits(s, v.x.bits as int) + mul_bits(c, v.y.bits as int)) as i64 },
        z: v.z,
    }
}

/// The componentwise negation.
pub open spec fn neg_spec(v: Vector3) -> Vector3 {
    Vector3 {
        x: Fx { bits: (-v.x.bits) as i64 },
        y: Fx { bits: (-v.y.bits) as i64 },
        z: Fx { bits: (-v.z.bits) as i64 },
    }
}

impl Vector3 {
    pub fn origin() -> (r: Vector3)
        ensures
            r.x.bits == 0,
            r.y.bits == 0,
            r.z.bits == 0,
    {
        Vector3 { x: Fx { bits: 0 }, y: Fx { bits: 0 }, z: Fx { bits: 0 } }
    }

    pub fn new(x: Fx, y: Fx, z: Fx) -> (r: Vector3)
        ensures
            r == (Vector3 { x, y, z }),
    {
        Vector3 { x, y, z }
    }

    /// The dot product, truncated once at the representation's granularity.
    pub fn dot(&self, other: &Vector3) -> (r: Fx)
        requires
            bounded(*self, COMP_BOUND as int),
            bounded(*other, COMP_BOUND as int),
            i64_fits(dot_bits(*self, *other)),
        ensures
            r.bits == dot_bits(*self, *other),
    {
        proof {
            lemma_comp_product_bound(self.x.bits as int, other.x.bits as int);
            lemma_comp_product_bound(self.y.bits as int, other.y.bits as int);
            lemma_comp_product_bound(self.z.bits as int, other.z.bits as int);
        }
        let px: i128 = (self.x.bits as i128) * (other.x.bits as i128);
        let py: i128 = (self.y.bits as i128) * (other.y.bits as i128);
        let pz: i128 = (self.z.bits as i128) * (other.z.bits as i128);
        let q = tdiv_by_scale(px + py + pz);
        Fx { bits: q as i64 }
    }

    /// The magnitude: the square root of the exact sum of squared components,
    /// rounded down to the representation's granularity.
    pub fn abs(&self) -> (r: Fx)
        requires
            bounded(*self, COMP_BOUND as int),
        ensures
            r.bits == mag_bits(*self),
            r.bits >= 0,
            (r.bits as int) * (r.bits as int) <= norm2(*self),
            norm2(*self) < (r.bits as int + 1) * (r.bits as int + 1),
    {
        proof {
            lemma_comp_product_bound(self.x.bits as int, self.x.bits as int);
            lemma_comp_product_bound(self.y.bits as int, self.y.bits as int);
            lemma_comp_product_bound(self.z.bits as int, self.z.bits as int);
        }
        let ux: u128 = comp_abs(self.x.bits);
        let uy: u128 = comp_abs(self.y.bits);
        let uz: u128 = comp_abs(self.z.bits);
        proof {
            assert(ux * ux <= 0x1000_0000_0000_0000_0000_0000_0000_0000 && uy * uy
                <= 0x1000_0000_0000_0000_0000_0000_0000_0000 && uz * uz
                <= 0x1000_0000_0000_0000_0000_0000_0000_0000) by (nonlinear_arith)
                requires
                    ux <= 0x4000_0000_0000_0000u128,
                    uy <= 0x4000_0000_0000_0000u128,
                    uz <= 0x4000_0000_0000_0000u128,
            ;
        }
        let s: u128 = ux * ux + uy * uy + uz * uz;
        proof {
            assert(ux * ux == self.x.bits as int * self.x.bits as int) by (nonlinear_arith)
                requires
                    ux == abs_int(self.x.bits as int),
            ;
            assert(uy * uy == self.y.bits as int * self.y.bits as int) by (nonlinear_arith)
                requires
                    uy == abs_int(self.y.bits as int),
            ;
            assert(uz * uz == self.z.bits as int * self.z.bits as int) by (nonlinear_arith)
                requires
                    uz == abs_int(self.z.bits as int),
            ;
        }
        let root = crate::fx::isqrt_u128(s);
        proof {
            assert(root < 0x8000_0000_0000_0000u64) by (nonlinear_arith)
                requires
                    (root as int) * (root as int) <= s as int,
                    s <= 0x3000_0000_0000_0000_0000_0000_0000_0000u128,
            ;
        }
        Fx { bits: root as i64 }
    }

    /// The angle to another vector: the arc cosine of the clamped cosine
    /// fraction; `None` when either magnitude vanishes at this granularity,
    /// the degenerate case.
    pub fn angle_to(&self, other: &Vector3) -> (r: Option<Fx>)
        requires
            bounded(*self, COMP_BOUND as int),
            bounded(*other, COMP_BOUND as int),
            i64_fits(dot_bits(*self, *other)),
            i64_fits(mul_bits(mag_bits(*self), mag_bits(*other))),
        ensures
            ({
                let m = mul_bits(mag_bits(*self), mag_bits(*other));
                if m == 0 {
                    r is None
                } else {
                    r == Some(
                        Fx { bits: acos_bits(inner_frac(dot_bits(*self, *other), m)) as i64 },
                    )
                }
            }),
            r is Some ==> 0 <= r->Some_0.bits <= PI_BITS,
    {
        let ma = self.abs();
        let mb = other.abs();
        let m = ma.mul(mb);
        if m.bits == 0 {
            return None;
        }
        let d = self.dot(other);
        let inner: Fx = if d.bits >= m.bits {
            Fx { bits: SCALE }
        } else if d.bits <= -m.bits {
            Fx { bits: -SCALE }
        } else {
            proof {
                lemma_small_quotient(d.bits as int, m.bits as int);
            }
            d.div(m)
        };
        proof {
            assert(clamp_one(inner_frac(dot_bits(*self, *other), m.bits as int)) == inner_frac(
                dot_bits(*self, *other),
                m.bits as int,
            )) by {
                if -m.bits < d.bits < m.bits {
                    lemma_small_quotient(d.bits as int, m.bits as int);
                }
            }
        }
        Some(trig::acos_clamped(inner))
    }

    /// Rotation about the x axis; the angle is in radians.
    pub fn rot_x(self, radians: Fx) -> (r: Vector3)
        requires
            abs_int(self.y.bits as int) + abs_int(self.z.bits as int) <= i64::MAX,
        ensures
            r == rot_x_spec(self, radians.bits as int),
            abs_int(r.y.bits as int) <= abs_int(self.y.bits as int) + abs_int(self.z.bits as int),
            abs_int(r.z.bits as int) <= abs_int(self.y.bits as int) + abs_int(self.z.bits as int),
            r.x == self.x,
    {
        let (s, c) = trig::sin_cos(radians);
        proof {
            lemma_mul_unit(c.bits as int, self.y.bits as int);
            lemma_mul_unit(s.bits as int, self.z.bits as int);
            lemma_mul_unit(s.bits as int, self.y.bits as int);
            lemma_mul_unit(c.bits as int, self.z.bits as int);
        }
        let ny = c.mul(self.y).sub(s.mul(self.z));
        let nz = s.mul(self.y).add(c.mul(self.z));
        Vector3 { x: self.x, y: ny, z: nz }
    }

    /// Rotation about the y axis; the angle is in radians.
    pub fn rot_y(self, radians: Fx) -> (r: Vector3)
        requires
            abs_int(self.x.bits as int) + abs_int(self.z.bits as int) <= i64::MAX,
        ensures
            r == rot_y_spec(self, radians.bits as int),
            abs_int(r.x.bits as int) <= abs_int(self.x.bits as int) + abs_int(self.z.bits as int),
            abs_int(r.z.bits as int) <= abs_int(self.x.bits as int) + abs_int(self.z.bits as int),
            r.y == self.y,
    {
        let (s, c) = trig::sin_cos(radians);
        proof {
            lemma_mul_unit(c.bits as int, self.x.bits as int);
            lemma_mul_unit(s.bits as int, self.z.bits as int);
            lemma_mul_unit(s.bits as int, self.x.bits as int);
            lemma_mul_unit(c.bits as int, self.z.bits as int);
        }
        let nx = c.mul(self.x).add(s.mul(self.z));
        let nz = c.mul(self.z).sub(s.mul(self.x));
        Vector3 { x: nx, y: self.y, z: nz }
    }

    /// Rotation about the z axis; the angle is in radians.
    pub fn rot_z(self, radians: Fx) -> (r: Vector3)
        requires
            abs_int(self.x.bits as int) + abs_int(self.y.bits as int) <= i64::MAX,
        ensures
            r == rot_z_spec(self, radians.bits as int),
            abs_int(r.x.bits as int) <= abs_int(self.x.bits as int) + abs_int(self.y.bits as int),
            abs_int(r.y.bits as int) <= abs_int(self.x.bits as int) + abs_int(self.y.bits as int),
            r.z == self.z,
    {
        let (s, c) = trig::sin_cos(radians);
        proof {
            lemma_mul_unit(c.bits as int, self.x.bits as int);
            lemma_mul_unit(s.bits as int, self.y.bits as int);
            lemma_mul_unit(s.bits as int, self.x.bits as int);
            lemma_mul_unit(c.bits as int, self.y.bits as int);
        }
        let nx = c.mul(self.x).sub(s.mul(self.y));
        let ny = s.mul(self.x).add(c.mul(self.y));
        Vector3 { x: nx, y: ny, z: self.z }
    }

    /// Whether every component's bit pattern is within `[-bound, bound]`.
    pub fn within(&self, bound: i64) -> (r: bool)
        requires
            bound >= 0,
        ensures
            r == bounded(*self, bound as int),
    {
        -bound <= self.x.bits && self.x.bits <= bound && -bound <= self.y.bits && self.y.bits
            <= bound && -bound <= self.z.bits && self.z.bits <= bound
    }

    /// The componentwise negation.
    pub fn negative(&self) -> (r: Vector3)
        requires
            self.x.bits != i64::MIN,
            self.y.bits != i64::MIN,
            self.z.bits != i64::MIN,
        ensures
            r == neg_spec(*self),
    {
        Vector3 {
            x: Fx { bits: -self.x.bits },
            y: Fx { bits: -self.y.bits },
            z: Fx { bits: -self.z.bits },
        }
    }
}

/// Multiplying by a factor within `[0, 1]` keeps a value between zero and
/// itself.
pub proof fn lemma_mul_unit_signed(b: int, y: int)
    requires
        0 <= b <= SCALE as int,
    ensures
        y >= 0 ==> 0 <= mul_bits(b, y) <= y,
        y < 0 ==> y <= mul_bits(b, y) <= 0,
{
    let p = b * y;
    if y >= 0 {
        assert(0 <= p <= (SCALE as int) * y) by (nonlinear_arith)
            requires
                0 <= b <= SCALE as int,
                y >= 0,
                p == b * y,
        ;
        vstd::arithmetic::div_mod::lemma_multiply_divide_le(p, SCALE as int, y);
        vstd::arithmetic::div_mod::lemma_div_pos_is_pos(p, SCALE as int);
    } else {
        assert(0 <= -p <= (SCALE as int) * (-y)) by (nonlinear_arith)
            requires
                0 <= b <= SCALE as int,
                y < 0,
                p == b * y,
        ;
        vstd::arithmetic::div_mod::lemma_multiply_divide_le(-p, SCALE as int, -y);
        vstd::arithmetic::div_mod::lemma_div_pos_is_pos(-p, SCALE as int);
        if p >= 0 {
            assert(p == 0);
        }
    }
}

/// A dot product of componentwise-bounded vectors fits, and is bounded by the
/// scaled-down product of the bounds.
pub proof fn lemma_dot_fits(a: Vector3, b: Vector3, ba: int, bb: int)
    requires
        bounded(a, ba),
        bounded(b, bb),
        0 <= ba,
        0 <= bb,
        3 * ba * bb <= 0x7fff_ffff_ffff_ffff * 0x1_0000_0000,
    ensures
        i64_fits(dot_bits(a, b)),
        abs_int(dot_bits(a, b)) <= (3 * ba * bb) / (SCALE as int),
{
    let s = a.x.bits * b.x.bits + a.y.bits * b.y.bits + a.z.bits * b.z.bits;
    assert(-(3 * ba * bb) <= s <= 3 * ba * bb) by (nonlinear_arith)
        requires
            bounded(a, ba),
            bounded(b, bb),
            0 <= ba,
            0 <= bb,
            s == a.x.bits * b.x.bits + a.y.bits * b.y.bits + a.z.bits * b.z.bits,
    ;
    if s >= 0 {
        vstd::arithmetic::div_mod::lemma_div_is_ordered(s, 3 * ba * bb, SCALE as int);
        vstd::arithmetic::div_mod::lemma_div_pos_is_pos(s, SCALE as int);
    } else {
        vstd::arithmetic::div_mod::lemma_div_is_ordered(-s, 3 * ba * bb, SCALE as int);
        vstd::arithmetic::div_mod::lemma_div_pos_is_pos(-s, SCALE as int);
    }
    vstd::arithmetic::div_mod::lemma_div_pos_is_pos(3 * ba * bb, SCALE as int);
    assert((3 * ba * bb) / (SCALE as int) <= 0x7fff_ffff_ffff_ffff) by {
        vstd::arithmetic::div_mod::lemma_multiply_divide_le(
            3 * ba * bb,
            SCALE as int,
            0x7fff_ffff_ffff_ffff,
        );
    }
}

/// The magnitude of a componentwise-bounded vector is at most twice the bound.
pub proof fn lemma_mag_bound(v: Vector3, bv: int)
    requires
        bounded(v, bv),
        0 <= bv,
    ensures
        0 <= mag_bits(v) <= 2 * bv,
{
    lemma_norm2_nonneg(v);
    crate::fx::lemma_isqrt_bounds(norm2(v));
    let r = mag_bits(v);
    assert(norm2(v) <= 3 * bv * bv) by (nonlinear_arith)
        requires
            bounded(v, bv),
            0 <= bv,
    ;
    assert(r <= 2 * bv) by (nonlinear_arith)
        requires
            r >= 0,
            r * r <= 3 * bv * bv,
            0 <= bv,
    ;
}

/// Law: rotating any vector by the zero angle, about any of the three axes,
/// returns it unchanged.
pub proof fn lemma_rotation_by_zero_identity(v: Vector3)
    ensures
        rot_x_spec(v, 0) == v,
        rot_y_spec(v, 0) == v,
        rot_z_spec(v, 0) == v,
{
    lemma_scale_cancel(v.x.bits as int);
    lemma_scale_cancel(v.y.bits as int);
    lemma_scale_cancel(v.z.bits as int);
}

/// Multiplying by the fixed-point one is the identity, and by zero gives zero.
pub proof fn lemma_scale_cancel(y: int)
    ensures
        mul_bits(SCALE as int, y) == y,
        mul_bits(0, y) == 0,
{
    if y >= 0 {
        vstd::arithmetic::div_mod::lemma_div_multiples_vanish(y, SCALE as int);
    } else {
        vstd::arithmetic::div_mod::lemma_div_multiples_vanish(-y, SCALE as int);
        assert(-((SCALE as int) * y) == (SCALE as int) * (-y)) by (nonlinear_arith);
    }
}

/// Law: the angle from any vector to itself is zero, whenever the magnitude
/// product does not vanish at this granularity.
pub proof fn lemma_angle_to_self_is_zero(v: Vector3)
    requires
        bounded(v, COMP_BOUND as int),
        mul_bits(mag_bits(v), mag_bits(v)) > 0,
    ensures
        acos_bits(inner_frac(dot_bits(v, v), mul_bits(mag_bits(v), mag_bits(v)))) == 0,
{
    lemma_norm2_nonneg(v);
    crate::fx::lemma_isqrt_bounds(norm2(v));
    let ma = mag_bits(v);
    let n = norm2(v);
    assert(ma * ma <= n);
    assert(n >= 0);
    vstd::arithmetic::div_mod::lemma_div_is_ordered(ma * ma, n, SCALE as int);
    assert(dot_bits(v, v) == n / (SCALE as int));
    assert(mul_bits(ma, ma) == (ma * ma) / (SCALE as int)) by {
        vstd::arithmetic::div_mod::lemma_div_pos_is_pos(ma * ma, SCALE as int);
    }
    assert(inner_frac(dot_bits(v, v), mul_bits(ma, ma)) == SCALE as int);
}

/// Law: the angle from any vector to its negation is pi, whenever the
/// magnitude product does not vanish at this granularity.
pub proof fn lemma_angle_to_negation_is_pi(v: Vector3)
    requires
        bounded(v, COMP_BOUND as int),
        mul_bits(mag_bits(v), mag_bits(v)) > 0,
    ensures
        acos_bits(
            inner_frac(
                dot_bits(v, neg_spec(v)),
                mul_bits(mag_bits(v), mag_bits(neg_spec(v))),
            ),
        ) == PI_BITS,
{
    lemma_norm2_nonneg(v);
    crate::fx::lemma_isqrt_bounds(norm2(v));
    let w = neg_spec(v);
    assert(norm2(w) == norm2(v)) by (nonlinear_arith)
        requires
            bounded(v, COMP_BOUND as int),
            w == neg_spec(v),
    ;
    let ma = mag_bits(v);
    let n = norm2(v);
    assert(v.x.bits * w.x.bits + v.y.bits * w.y.bits + v.z.bits * w.z.bits == -n)
        by (nonlinear_arith)
        requires
            bounded(v, COMP_BOUND as int),
            w == neg_spec(v),
            n == norm2(v),
    ;
    assert(dot_bits(v, w) == tdiv(-n, SCALE as int));
    let m = mul_bits(ma, ma);
    assert(m <= n / (SCALE as int)) by {
        vstd::arithmetic::div_mod::lemma_div_is_ordered(ma * ma, n, SCALE as int);
        vstd::arithmetic::div_mod::lemma_div_pos_is_pos(ma * ma, SCALE as int);
    }
    if n == 0 {
        assert(ma * ma <= 0);
        assert(m <= 0) by {
            vstd::arithmetic::div_mod::lemma_div_is_ordered(ma * ma, 0, SCALE as int);
        }
    }
    assert(tdiv(-n, SCALE as int) == -(n / (SCALE as int)));
    assert(dot_bits(v, w) <= -m);
    assert(inner_frac(dot_bits(v, w), m) == -(SCALE as int));
}

/// A sum of squares is never negative.
proof fn lemma_norm2_nonneg(v: Vector3)
    by (nonlinear_arith)
    ensures
        norm2(v) >= 0,
{
}

fn comp_abs(b: i64) -> (r: u128)
    requires
        b != i64::MIN,
    ensures
        r == abs_int(b as int),
{
    if b >= 0 {
        b as u128
    } else {
        (-b) as u128
    }
}

proof fn lemma_comp_product_bound(a: int, b: int)
    by (nonlinear_arith)
    requires
        -(COMP_BOUND as int) <= a <= COMP_BOUND as int,
        -(COMP_BOUND as int) <= b <= COMP_BOUND as int,
    ensures
        -0x1000_0000_0000_0000_0000_0000_0000_0000 <= a * b
            <= 0x1000_0000_0000_0000_0000_0000_0000_0000,
{
}

/// Multiplying by a factor within `[-1, 1]` cannot grow a value.
pub proof fn lemma_mul_unit(b: int, y: int)
    requires
        -(SCALE as int) <= b <= SCALE as int,
    ensures
        -abs_int(y) <= mul_bits(b, y) <= abs_int(y),
{
    let p = b * y;
    assert(-(SCALE as int) * abs_int(y) <= p <= (SCALE as int) * abs_int(y)) by (nonlinear_arith)
        requires
            -(SCALE as int) <= b <= SCALE as int,
            p == b * y,
    ;
    if p >= 0 {
        assert(p <= (SCALE as int) * abs_int(y)) by (nonlinear_arith)
            requires
                -(SCALE as int) * abs_int(y) <= p <= (SCALE as int) * abs_int(y),
        ;
        vstd::arithmetic::div_mod::lemma_multiply_divide_le(p, SCALE as int, abs_int(y));
        vstd::arithmetic::div_mod::lemma_div_pos_is_pos(p, SCALE as int);
    } else {
        assert(-p <= (SCALE as int) * abs_int(y)) by (nonlinear_arith)
            requires
                -(SCALE as int) * abs_int(y) <= p <= (SCALE as int) * abs_int(y),
        ;
        vstd::arithmetic::div_mod::lemma_multiply_divide_le(-p, SCALE as int, abs_int(y));
        vstd::arithmetic::div_mod::lemma_div_pos_is_pos(-p, SCALE as int);
    }
}

/// When the dot product is strictly inside the magnitude product, the cosine
/// fraction is strictly inside one.
pub proof fn lemma_small_quotient(d: int, m: int)
    requires
        m > 0,
        -m < d < m,
    ensures
        -(SCALE as int) < tdiv(d * (SCALE as int), m) < SCALE as int,
        i64_fits(tdiv(d * (SCALE as int), m)),
{
    if d >= 0 {
        assert(d * (SCALE as int) < m * (SCALE as int)) by (nonlinear_arith)
            requires
                d < m,
        ;
        vstd::arithmetic::div_mod::lemma_multiply_divide_lt(d * (SCALE as int), m, SCALE as int);
        vstd::arithmetic::div_mod::lemma_div_pos_is_pos(d * (SCALE as int), m);
        assert(d * (SCALE as int) >= 0) by (nonlinear_arith)
            requires
                d >= 0,
        ;
    } else {
        assert((-d) * (SCALE as int) < m * (SCALE as int)) by (nonlinear_arith)
            requires
                -d < m,
        ;
        vstd::arithmetic::div_mod::lemma_multiply_divide_lt((-d) * (SCALE as int), m, SCALE as int);
        vstd::arithmetic::div_mod::lemma_div_pos_is_pos((-d) * (SCALE as int), m);
        assert((-d) * (SCALE as int) >= 0) by (nonlinear_arith)
            requires
                -d > 0,
        ;
        assert(tdiv(d * (SCALE as int), m) == -((-(d * (SCALE as int))) / m));
        assert(-(d * (SCALE as int)) == (-d) * (SCALE as int)) by (nonlinear_arith);
    }
}

} // verus!
