//! Orbit models: the orbit kind, its parameter set, the physical context of
//! the primary body, and the two propagators.

use vstd::prelude::*;
use crate::fx::Fx;
use crate::fx::SCALE;
use crate::fx::i64_fits;
use crate::fx::mul_bits;
use crate::fx::div_bits;
use crate::fx::isqrt_int;
use crate::fx::abs_int;
use crate::fx::lemma_mul_bits_comm;
use crate::trig::TAU_BITS;
use crate::trig::DEG_TO_RAD_BITS;
use crate::trig::sin_bits;
use crate::trig::cos_bits;
use crate::trig::rad_of_deg;
use crate::vector::Vector3;
use crate::vector::rot_y_spec;
use crate::vector::rot_z_spec;
use crate::vector::lemma_mul_unit;
use crate::vector::lemma_mul_unit_signed;
use crate::fx::lemma_mul_bits_range;
use crate::trig::HALF_PI_BITS;
use crate::trig::atan_bits;
use crate::error::Field;
use crate::error::SimError;
use crate::cubesat::CubeSat;

verus! {

/// Upper bit bound accepted for lengths and speeds inside the propagators:
/// 2^57, about 3.3e7 in value, comfortably past any orbit this models.
pub const LIN_MAX_BITS: i64 = 0x200_0000_0000_0000;

/// The gravitational parameter of Earth, in whole cubic meters per squared
/// second: the product of the gravitational constant and Earth's mass.
pub const MU_EARTH: u64 = 398602634183000;

/// Earth's mean radius as a fixed-point bit pattern (6.3781e6 meters).
pub const RADIUS_EARTH_BITS: i64 = 27393730910617600;

#[derive(Clone, Copy, Debug, PartialEq, Eq, Structural)]
pub enum OrbitType {
    CircularCosine,
    Parametric,
}

/// The superset of orbit parameters; which fields are required depends on
/// the selected orbit kind.  Angles are degrees, lengths are meters.
#[derive(Clone, Copy, Debug, PartialEq, Eq, Structural)]
pub struct OrbitParameters {
    pub semi_major_axis: Option<Fx>,
    pub inclination: Option<Fx>,
    pub argument_of_periapsis: Option<Fx>,
    pub longitude_of_ascending_node: Option<Fx>,
    pub eccentricity: Option<Fx>,
}

impl OrbitParameters {
    pub fn new() -> (r: OrbitParameters)
        ensures
            r.semi_major_axis is None,
            r.inclination is None,
            r.argument_of_periapsis is None,
            r.longitude_of_ascending_node is None,
            r.eccentricity is None,
    {
        OrbitParameters {
            semi_major_axis: None,
            inclination: None,
            argument_of_periapsis: None,
            longitude_of_ascending_node: None,
            eccentricity: None,
        }
    }

    pub fn set_inclination(&mut self, inclination: Fx)
        ensures
            *final(self) == (OrbitParameters { inclination: Some(inclination), ..*old(self) }),
    {
        self.inclination = Some(inclination);
    }

    pub fn set_argument_of_periapsis(&mut self, argument_of_periapsis: Fx)
        ensures
            *final(self) == (OrbitParameters {
                argument_of_periapsis: Some(argument_of_periapsis),
                ..*old(self)
            }),
    {
        self.argument_of_periapsis = Some(argument_of_periapsis);
    }

    pub fn set_longitude_of_ascending_node(&mut self, longitude_of_ascending_node: Fx)
        ensures
            *final(self) == (OrbitParameters {
                longitude_of_ascending_node: Some(longitude_of_ascending_node),
                ..*old(self)
            }),
    {
        self.longitude_of_ascending_node = Some(longitude_of_ascending_node);
    }

    pub fn set_semi_major_axis(&mut self, semi_major_axis: Fx)
        ensures
            *final(self) == (OrbitParameters {
                semi_major_axis: Some(semi_major_axis),
                ..*old(self)
            }),
    {
        self.semi_major_axis = Some(semi_major_axis);
    }

    pub fn set_eccentricity(&mut self, eccentricity: Fx)
        ensures
            *final(self) == (OrbitParameters { eccentricity: Some(eccentricity), ..*old(self) }),
    {
        self.eccentricity = Some(eccentricity);
    }
}

/// The physical context of the primary body, passed to the propagators and
/// the eclipse test rather than read from globals.
#[derive(Clone, Copy, Debug, PartialEq, Eq, Structural)]
pub struct Physics {
    /// Gravitational parameter, in whole cubic meters per squared second.
    pub mu: u64,
    /// Mean radius of the body.
    pub radius: Fx,
}

impl Physics {
    /// A context within the bounds the propagators accept.
    pub open spec fn wf(self) -> bool {
        &&& 1 <= self.mu <= 0x4000_0000_0000_0000
        &&& 0 <= self.radius.bits
    }

    /// The Earth, with the constants this library is calibrated to.
    pub fn earth() -> (r: Physics)
        ensures
            r.mu == MU_EARTH,
            r.radius.bits == RADIUS_EARTH_BITS,
            r.wf(),
    {
        Physics { mu: MU_EARTH, radius: Fx { bits: RADIUS_EARTH_BITS } }
    }
}

/// The circular-cosine outcome reads only the kinematic fields, the
/// parameter set and the clock.
pub proof fn lemma_circular_spec_same_fields(a: CubeSat, b: CubeSat, mu: int)
    requires
        a.pos == b.pos,
        a.vel == b.vel,
        a.acc == b.acc,
        a.orbit_parameters == b.orbit_parameters,
        a.time == b.time,
    ensures
        circular_cosine_spec(a, mu) == circular_cosine_spec(b, mu),
{
}

/// The parametric outcome reads only position, velocity, the parameter set
/// and the clock.
pub proof fn lemma_parametric_spec_same_fields(a: CubeSat, b: CubeSat, mu: int)
    requires
        a.pos == b.pos,
        a.vel == b.vel,
        a.orbit_parameters == b.orbit_parameters,
        a.time == b.time,
    ensures
        parametric_spec(a, mu) == parametric_spec(b, mu),
{
}

/// The scaled-down gravitational quotient `mu / r`, at bit granularity.
pub open spec fn mu_over_r_bits(mu: int, r: int) -> int
    recommends
        r > 0,
{
    (mu * (SCALE as int) * (SCALE as int)) / r
}

/// The bit pattern of the square root of a nonnegative fixed-point value.
pub open spec fn sqrt_bits(m: int) -> int
    recommends
        m >= 0,
{
    isqrt_int(m * (SCALE as int))
}

/// The circular model's angular rate: `sqrt(mu / r) / r`.
pub open spec fn omega_bits(mu: int, r: int) -> int
    recommends
        r > 0,
{
    div_bits(sqrt_bits(mu_over_r_bits(mu, r)), r)
}

/// What the circular-cosine propagation produces from the satellite's state:
/// either the new position, velocity and acceleration, or the error that
/// stops it.  Angles are converted from degrees; the position is rotated
/// about y (inclination) then z (argument of periapsis), while velocity and
/// acceleration are rotated about z, then y (inclination), then z again
/// (longitude of ascending node); the asymmetry between the two orders is
/// deliberate and kept for compatibility.
pub open spec fn circular_cosine_spec(sat: CubeSat, mu: int) -> Result<
    (Vector3, Vector3, Vector3),
    SimError,
> {
    if sat.pos is None {
        Err(SimError::MissingField(Field::Position))
    } else if sat.vel is None {
        Err(SimError::MissingField(Field::Velocity))
    } else if sat.acc is None {
        Err(SimError::MissingField(Field::Acceleration))
    } else if sat.orbit_parameters is None {
        Err(SimError::MissingField(Field::OrbitParameters))
    } else if sat.orbit_parameters->Some_0.semi_major_axis is None {
        Err(SimError::MissingField(Field::SemiMajorAxis))
    } else if sat.orbit_parameters->Some_0.inclination is None {
        Err(SimError::MissingField(Field::Inclination))
    } else if sat.orbit_parameters->Some_0.argument_of_periapsis is None {
        Err(SimError::MissingField(Field::ArgumentOfPeriapsis))
    } else if sat.orbit_parameters->Some_0.longitude_of_ascending_node is None {
        Err(SimError::MissingField(Field::LongitudeOfAscendingNode))
    } else if sat.time is None {
        Err(SimError::MissingField(Field::Time))
    } else {
        let p = sat.orbit_parameters->Some_0;
        let rb = p.semi_major_axis->Some_0.bits as int;
        let nowb = sat.time->Some_0.now.bits as int;
        if rb < SCALE {
            Err(SimError::InvalidField(Field::SemiMajorAxis))
        } else if rb > LIN_MAX_BITS {
            Err(SimError::OutOfRange)
        } else if !i64_fits(mu_over_r_bits(mu, rb)) {
            Err(SimError::OutOfRange)
        } else {
            let om = omega_bits(mu, rb);
            let vrb = mul_bits(om, rb);
            if !i64_fits(mul_bits(om, nowb)) {
                Err(SimError::OutOfRange)
            } else if !i64_fits(vrb) || abs_int(vrb) > LIN_MAX_BITS {
                Err(SimError::OutOfRange)
            } else if abs_int(mul_bits(om, vrb)) > LIN_MAX_BITS {
                Err(SimError::OutOfRange)
            } else {
                let red = mul_bits(om, nowb) % (TAU_BITS as int);
                let s = sin_bits(red);
                let c = cos_bits(red);
                let inc_r = rad_of_deg(p.inclination->Some_0.bits as int);
                let ap_r = rad_of_deg(p.argument_of_periapsis->Some_0.bits as int);
                let lan_r = rad_of_deg(p.longitude_of_ascending_node->Some_0.bits as int);
                let arb = mul_bits(om, vrb);
                let pos0 = Vector3 {
                    x: Fx { bits: mul_bits(rb, c) as i64 },
                    y: Fx { bits: mul_bits(rb, s) as i64 },
                    z: Fx { bits: 0 },
                };
                let vel0 = Vector3 {
                    x: Fx { bits: (-mul_bits(vrb, s)) as i64 },
                    y: Fx { bits: mul_bits(vrb, c) as i64 },
                    z: Fx { bits: 0 },
                };
                let acc0 = Vector3 {
                    x: Fx { bits: (-mul_bits(arb, c)) as i64 },
                    y: Fx { bits: (-mul_bits(arb, s)) as i64 },
                    z: Fx { bits: 0 },
                };
                Ok(
                    (
                        rot_z_spec(rot_y_spec(pos0, inc_r), ap_r),
                        rot_z_spec(rot_y_spec(rot_z_spec(vel0, ap_r), inc_r), lan_r),
                        rot_z_spec(rot_y_spec(rot_z_spec(acc0, ap_r), inc_r), lan_r),
                    ),
                )
            }
        }
    }
}

/// The scaled-down gravitational quotient, reported as absent when it leaves
/// the representable range.
fn mu_over_r(mu: u64, r: Fx) -> (res: Option<Fx>)
    requires
        r.bits >= SCALE,
        mu <= 0x4000_0000_0000_0000,
    ensures
        i64_fits(mu_over_r_bits(mu as int, r.bits as int)) ==> res == Some(
            Fx { bits: mu_over_r_bits(mu as int, r.bits as int) as i64 },
        ),
        !i64_fits(mu_over_r_bits(mu as int, r.bits as int)) ==> res is None,
        res is Some ==> res->Some_0.bits >= 0,
{
    proof {
        assert((mu as int) * (SCALE as int) <= 0x4000_0000_0000_0000_0000_0000
            * 0x1_0000_0000) by (nonlinear_arith)
            requires
                mu <= 0x4000_0000_0000_0000u64,
        ;
        assert((mu as int) * (SCALE as int) * (SCALE as int) >= 0) by (nonlinear_arith)
            requires
                mu >= 0,
        ;
        vstd::arithmetic::div_mod::lemma_div_pos_is_pos(
            (mu as int) * (SCALE as int) * (SCALE as int),
            r.bits as int,
        );
    }
    let n: u128 = (mu as u128) * (SCALE as u128) * (SCALE as u128);
    let q: u128 = n / (r.bits as u128);
    if q <= 0x7fff_ffff_ffff_ffff {
        Some(Fx { bits: q as i64 })
    } else {
        proof {
            assert(mu_over_r_bits(mu as int, r.bits as int) == q);
        }
        None
    }
}

/// Propagate a circular orbit: in the orbital plane the position traces
/// `r (cos wt, sin wt, 0)` with `w = sqrt(mu / r^3)`, the velocity and
/// acceleration its first and second derivatives, each then rotated into the
/// inertial frame.  On any error the satellite is left untouched.
pub fn orbit_circular_cosine(cubesat: &mut CubeSat, env: &Physics) -> (r: Result<(), SimError>)
    requires
        env.wf(),
    ensures
        ({
            let pre = *old(cubesat);
            match circular_cosine_spec(pre, env.mu as int) {
                Ok(t) => r == Ok::<(), SimError>(()) && *final(cubesat) == (CubeSat {
                    pos: Some(t.0),
                    vel: Some(t.1),
                    acc: Some(t.2),
                    ..pre
                }),
                Err(e) => r == Err::<(), SimError>(e) && *final(cubesat) == pre,
            }
        }),
{
    if cubesat.pos.is_none() {
        return Err(SimError::MissingField(Field::Position));
    }
    if cubesat.vel.is_none() {
        return Err(SimError::MissingField(Field::Velocity));
    }
    if cubesat.acc.is_none() {
        return Err(SimError::MissingField(Field::Acceleration));
    }
    let params = match cubesat.orbit_parameters {
        Some(p) => p,
        None => {
            return Err(SimError::MissingField(Field::OrbitParameters));
        },
    };
    let radius = match params.semi_major_axis {
        Some(v) => v,
        None => {
            return Err(SimError::MissingField(Field::SemiMajorAxis));
        },
    };
    let inc = match params.inclination {
        Some(v) => v,
        None => {
            return Err(SimError::MissingField(Field::Inclination));
        },
    };
    let ap = match params.argument_of_periapsis {
        Some(v) => v,
        None => {
            return Err(SimError::MissingField(Field::ArgumentOfPeriapsis));
        },
    };
    let lan = match params.longitude_of_ascending_node {
        Some(v) => v,
        None => {
            return Err(SimError::MissingField(Field::LongitudeOfAscendingNode));
        },
    };
    let now = match cubesat.time {
        Some(t) => t.now,
        None => {
            return Err(SimError::MissingField(Field::Time));
        },
    };
    if radius.bits < SCALE {
        return Err(SimError::InvalidField(Field::SemiMajorAxis));
    }
    if radius.bits > LIN_MAX_BITS {
        return Err(SimError::OutOfRange);
    }
    let m = match mu_over_r(env.mu, radius) {
        Some(m) => m,
        None => {
            return Err(SimError::OutOfRange);
        },
    };
    let sq = m.sqrt();
    proof {
        lemma_omega_fits(sq.bits as int, radius.bits as int);
    }
    let om = sq.div(radius);
    let ang = match om.checked_mul(now) {
        Some(a) => a,
        None => {
            return Err(SimError::OutOfRange);
        },
    };
    let vr = match om.checked_mul(radius) {
        Some(v) => v,
        None => {
            return Err(SimError::OutOfRange);
        },
    };
    if vr.bits > LIN_MAX_BITS || vr.bits < -LIN_MAX_BITS {
        return Err(SimError::OutOfRange);
    }
    let ar = match om.checked_mul(vr) {
        Some(v) => v,
        None => {
            return Err(SimError::OutOfRange);
        },
    };
    if ar.bits > LIN_MAX_BITS || ar.bits < -LIN_MAX_BITS {
        return Err(SimError::OutOfRange);
    }
    let (s, c) = crate::trig::sin_cos(ang);
    proof {
        lemma_mul_unit(c.bits as int, radius.bits as int);
        lemma_mul_unit(s.bits as int, radius.bits as int);
        lemma_mul_unit(s.bits as int, vr.bits as int);
        lemma_mul_unit(c.bits as int, vr.bits as int);
        lemma_mul_unit(c.bits as int, ar.bits as int);
        lemma_mul_unit(s.bits as int, ar.bits as int);
        lemma_mul_unit(DEG_TO_RAD_BITS as int, inc.bits as int);
        lemma_mul_unit(DEG_TO_RAD_BITS as int, ap.bits as int);
        lemma_mul_unit(DEG_TO_RAD_BITS as int, lan.bits as int);
        assert(mul_bits(radius.bits as int, cos_bits(ang.bits as int % (TAU_BITS as int)))
            == mul_bits(cos_bits(ang.bits as int % (TAU_BITS as int)), radius.bits as int)) by {
            lemma_mul_bits_comm(radius.bits as int, cos_bits(ang.bits as int % (TAU_BITS as int)));
        }
        assert(mul_bits(radius.bits as int, sin_bits(ang.bits as int % (TAU_BITS as int)))
            == mul_bits(sin_bits(ang.bits as int % (TAU_BITS as int)), radius.bits as int)) by {
            lemma_mul_bits_comm(radius.bits as int, sin_bits(ang.bits as int % (TAU_BITS as int)));
        }
        lemma_mul_bits_comm(vr.bits as int, sin_bits(ang.bits as int % (TAU_BITS as int)));
        lemma_mul_bits_comm(vr.bits as int, cos_bits(ang.bits as int % (TAU_BITS as int)));
        lemma_mul_bits_comm(ar.bits as int, cos_bits(ang.bits as int % (TAU_BITS as int)));
        lemma_mul_bits_comm(ar.bits as int, sin_bits(ang.bits as int % (TAU_BITS as int)));
    }
    let deg = Fx { bits: DEG_TO_RAD_BITS };
    let inc_r = deg.mul(inc);
    let ap_r = deg.mul(ap);
    let lan_r = deg.mul(lan);
    let pos0 = Vector3 { x: radius.mul(c), y: radius.mul(s), z: Fx { bits: 0 } };
    let vel0 = Vector3 { x: vr.mul(s).neg(), y: vr.mul(c), z: Fx { bits: 0 } };
    let acc0 = Vector3 { x: ar.mul(c).neg(), y: ar.mul(s).neg(), z: Fx { bits: 0 } };
    let new_pos = pos0.rot_y(inc_r).rot_z(ap_r);
    let new_vel = vel0.rot_z(ap_r).rot_y(inc_r).rot_z(lan_r);
    let new_acc = acc0.rot_z(ap_r).rot_y(inc_r).rot_z(lan_r);
    cubesat.pos = Some(new_pos);
    cubesat.vel = Some(new_vel);
    cubesat.acc = Some(new_acc);
    Ok(())
}

/// The angular rate fits: dividing the root by a radius of at least one
/// cannot grow it.
proof fn lemma_omega_fits(s: int, r: int)
    requires
        0 <= s <= 0x7fff_ffff_ffff_ffff,
        r >= SCALE,
    ensures
        i64_fits(div_bits(s, r)),
        0 <= div_bits(s, r) <= s,
{
    assert(s * (SCALE as int) >= 0) by (nonlinear_arith)
        requires
            s >= 0,
    ;
    assert(s * (SCALE as int) <= r * s) by (nonlinear_arith)
        requires
            0 <= s,
            r >= SCALE as int,
    ;
    vstd::arithmetic::div_mod::lemma_div_pos_is_pos(s * (SCALE as int), r);
    vstd::arithmetic::div_mod::lemma_multiply_divide_le(s * (SCALE as int), r, s);
}


/// The bit pattern of one tenth, rounded down: the pad the Kepler bracket
/// extends past `[0, 2 pi]` on each side.
pub const TENTH_BITS: i64 = 429496729;

/// The Kepler residual `E - e sin E - n t` at bit granularity.
pub open spec fn kepler_f_bits(x: int, e: int, nt: int) -> int {
    x - mul_bits(sin_bits(x % (TAU_BITS as int)), e) - nt
}

/// The midpoint of a bracket, truncated toward zero.
pub open spec fn half_point_bits(lo: int, hi: int) -> int {
    crate::fx::tdiv(lo + hi, 2)
}

/// The bounded-effort bisection for the eccentric anomaly: at most `k` more
/// midpoints; stops early when the residual is within tolerance, and
/// otherwise keeps the half-bracket whose ends have strictly opposite
/// residual signs on the left test.  Returns the last midpoint taken, even
/// if the tolerance was never met.
pub open spec fn kepler_iter(lo: int, hi: int, last: int, e: int, nt: int, tol: int, k: nat) -> int
    decreases k,
{
    if k == 0 {
        last
    } else {
        let c = half_point_bits(lo, hi);
        let fc = kepler_f_bits(c, e, nt);
        if abs_int(fc) <= tol {
            c
        } else {
            let fa = kepler_f_bits(lo, e, nt);
            if (fa < 0 && fc > 0) || (fa > 0 && fc < 0) {
                kepler_iter(lo, c, c, e, nt, tol, (k - 1) as nat)
            } else {
                kepler_iter(c, hi, c, e, nt, tol, (k - 1) as nat)
            }
        }
    }
}

/// What the parametric (elliptical) propagation produces from the
/// satellite's state: the new position and velocity, or the error that stops
/// it.  The model produces no acceleration.
pub open spec fn parametric_spec(sat: CubeSat, mu: int) -> Result<(Vector3, Vector3), SimError> {
    if sat.orbit_parameters is None {
        Err(SimError::MissingField(Field::OrbitParameters))
    } else if sat.orbit_parameters->Some_0.eccentricity is None {
        Err(SimError::MissingField(Field::Eccentricity))
    } else if sat.orbit_parameters->Some_0.eccentricity->Some_0.bits == 0 {
        Err(SimError::InvalidField(Field::Eccentricity))
    } else if sat.time is None {
        Err(SimError::MissingField(Field::Time))
    } else if sat.pos is None {
        Err(SimError::MissingField(Field::Position))
    } else if sat.vel is None {
        Err(SimError::MissingField(Field::Velocity))
    } else if sat.orbit_parameters->Some_0.semi_major_axis is None {
        Err(SimError::MissingField(Field::SemiMajorAxis))
    } else if sat.orbit_parameters->Some_0.inclination is None {
        Err(SimError::MissingField(Field::Inclination))
    } else if sat.orbit_parameters->Some_0.argument_of_periapsis is None {
        Err(SimError::MissingField(Field::ArgumentOfPeriapsis))
    } else {
        let p = sat.orbit_parameters->Some_0;
        let e = p.eccentricity->Some_0.bits as int;
        let rb = p.semi_major_axis->Some_0.bits as int;
        let nowb = sat.time->Some_0.now.bits as int;
        if rb < SCALE {
            Err(SimError::InvalidField(Field::SemiMajorAxis))
        } else if rb > LIN_MAX_BITS {
            Err(SimError::OutOfRange)
        } else if mul_bits(e, e) >= SCALE {
            Err(SimError::InvalidField(Field::Eccentricity))
        } else if !i64_fits(mu_over_r_bits(mu, rb)) {
            Err(SimError::OutOfRange)
        } else {
            let n = omega_bits(mu, rb);
            if n == 0 {
                Err(SimError::OutOfRange)
            } else if !i64_fits(div_bits(TAU_BITS as int, n)) || div_bits(TAU_BITS as int, n)
                <= 0 {
                Err(SimError::OutOfRange)
            } else {
                let tp = div_bits(TAU_BITS as int, n);
                if !i64_fits(100 * tp) {
                    Err(SimError::OutOfRange)
                } else if !i64_fits(div_bits(TAU_BITS as int, 100 * tp)) {
                    Err(SimError::OutOfRange)
                } else {
                    let tol = div_bits(TAU_BITS as int, 100 * tp);
                    let t = nowb % tp;
                    let nt = mul_bits(n, t);
                    let ea = kepler_iter(
                        -TENTH_BITS as int,
                        TAU_BITS + TENTH_BITS,
                        0,
                        e,
                        nt,
                        tol,
                        20,
                    );
                    let se = sin_bits(ea % (TAU_BITS as int));
                    let ce = cos_bits(ea % (TAU_BITS as int));
                    let e2 = mul_bits(e, e);
                    let s2 = sqrt_bits(SCALE - e2);
                    let beta = div_bits(e, SCALE + s2);
                    let num = mul_bits(beta, se);
                    let den = e - mul_bits(beta, ce);
                    if den == 0 && num == 0 {
                        Err(SimError::Degenerate)
                    } else {
                        let at = if den == 0 {
                            if num > 0 {
                                HALF_PI_BITS as int
                            } else {
                                -HALF_PI_BITS
                            }
                        } else if !i64_fits(div_bits(num, den)) {
                            if (num >= 0) == (den >= 0) {
                                HALF_PI_BITS as int
                            } else {
                                -HALF_PI_BITS
                            }
                        } else {
                            atan_bits(div_bits(num, den))
                        };
                        let v = ea + 2 * at;
                        let sv = sin_bits(v % (TAU_BITS as int));
                        let cv = cos_bits(v % (TAU_BITS as int));
                        let pl = mul_bits(rb, SCALE - e2);
                        if !i64_fits(mu_over_r_bits(mu, pl)) {
                            Err(SimError::OutOfRange)
                        } else {
                            let sq = sqrt_bits(mu_over_r_bits(mu, pl));
                            let den2 = SCALE + mul_bits(e, cv);
                            if !i64_fits(div_bits(mul_bits(pl, cv), den2)) || !i64_fits(
                                div_bits(mul_bits(pl, sv), den2),
                            ) {
                                Err(SimError::OutOfRange)
                            } else {
                                let px = div_bits(mul_bits(pl, cv), den2);
                                let py = div_bits(mul_bits(pl, sv), den2);
                                if abs_int(px) > LIN_MAX_BITS || abs_int(py) > LIN_MAX_BITS {
                                    Err(SimError::OutOfRange)
                                } else {
                                    let inc_r = rad_of_deg(p.inclination->Some_0.bits as int);
                                    let ap_r = rad_of_deg(
                                        p.argument_of_periapsis->Some_0.bits as int,
                                    );
                                    let pos0 = Vector3 {
                                        x: Fx { bits: px as i64 },
                                        y: Fx { bits: py as i64 },
                                        z: Fx { bits: 0 },
                                    };
                                    let vel0 = Vector3 {
                                        x: Fx { bits: (-mul_bits(sq, sv)) as i64 },
                                        y: Fx { bits: mul_bits(sq, e + cv) as i64 },
                                        z: Fx { bits: 0 },
                                    };
                                    let pos1 = rot_y_spec(rot_z_spec(pos0, ap_r), inc_r);
                                    let vel1 = rot_y_spec(rot_z_spec(vel0, ap_r), inc_r);
                                    if p.longitude_of_ascending_node is Some {
                                        let lan_r = rad_of_deg(
                                            p.longitude_of_ascending_node->Some_0.bits as int,
                                        );
                                        Ok((rot_z_spec(pos1, lan_r), rot_z_spec(vel1, lan_r)))
                                    } else {
                                        Ok((pos1, vel1))
                                    }
                                }
                            }
                        }
                    }
                }
            }
        }
    }
}

/// The Kepler residual `E - e sin E - n t`.
fn kepler_f(x: Fx, ecc: Fx, nt: Fx) -> (r: Fx)
    requires
        abs_int(x.bits as int) <= 0x100_0000_0000,
        abs_int(ecc.bits as int) <= SCALE,
        0 <= nt.bits <= TAU_BITS,
    ensures
        r.bits == kepler_f_bits(x.bits as int, ecc.bits as int, nt.bits as int),
        abs_int(r.bits as int) <= 0x200_0000_0000,
{
    let (s, _c) = crate::trig::sin_cos(x);
    proof {
        lemma_mul_unit(s.bits as int, ecc.bits as int);
    }
    x.sub(s.mul(ecc)).sub(nt)
}

/// The truncated midpoint of a bracket.
fn half_point(lo: Fx, hi: Fx) -> (r: Fx)
    requires
        abs_int(lo.bits as int) <= 0x100_0000_0000,
        abs_int(hi.bits as int) <= 0x100_0000_0000,
    ensures
        r.bits == half_point_bits(lo.bits as int, hi.bits as int),
{
    let s: i64 = lo.bits + hi.bits;
    if s >= 0 {
        Fx { bits: ((s as u64) / 2) as i64 }
    } else {
        Fx { bits: -((((-s) as u64) / 2) as i64) }
    }
}

/// The product `n t` stays within one turn: `t` is the time already reduced
/// modulo the period, and the period times the rate is at most a turn.
proof fn lemma_nt_bound(n: int, t: int, tp: int)
    requires
        0 < n <= 0x7fff_ffff_ffff_ffff,
        tp == (TAU_BITS * (SCALE as int)) / n,
        0 <= t < tp,
    ensures
        0 <= mul_bits(n, t) <= TAU_BITS,
{
    assert(n * t >= 0) by (nonlinear_arith)
        requires
            n > 0,
            t >= 0,
    ;
    vstd::arithmetic::div_mod::lemma_fundamental_div_mod(TAU_BITS * (SCALE as int), n);
    vstd::arithmetic::div_mod::lemma_mod_division_less_than_divisor(TAU_BITS * (SCALE as int), n);
    assert(n * tp <= TAU_BITS * (SCALE as int));
    assert(n * t <= n * tp) by (nonlinear_arith)
        requires
            n > 0,
            t < tp,
    ;
    vstd::arithmetic::div_mod::lemma_div_is_ordered(n * t, TAU_BITS * (SCALE as int), SCALE as int);
    vstd::arithmetic::div_mod::lemma_div_multiples_vanish(TAU_BITS as int, SCALE as int);
    assert(TAU_BITS * (SCALE as int) == (SCALE as int) * TAU_BITS) by (nonlinear_arith);
    vstd::arithmetic::div_mod::lemma_div_pos_is_pos(n * t, SCALE as int);
}

/// A square root of a fitting value stays under 2^48 bits.
proof fn lemma_sqrt_bits_small(m: int)
    requires
        0 <= m <= 0x7fff_ffff_ffff_ffff,
    ensures
        0 <= sqrt_bits(m) < 0x1_0000_0000_0000,
{
    assert(m * (SCALE as int) >= 0) by (nonlinear_arith)
        requires
            m >= 0,
    ;
    crate::fx::lemma_isqrt_bounds(m * (SCALE as int));
    let r = isqrt_int(m * (SCALE as int));
    assert(m * (SCALE as int) < 0x1_0000_0000_0000_0000_0000_0000) by (nonlinear_arith)
        requires
            m <= 0x7fff_ffff_ffff_ffff,
    ;
    assert(r < 0x1_0000_0000_0000) by (nonlinear_arith)
        requires
            r >= 0,
            r * r <= m * (SCALE as int),
            m * (SCALE as int) < 0x1_0000_0000_0000_0000_0000_0000,
    ;
}

/// After the eccentricity-squared check, the eccentricity itself is strictly
/// inside one.
proof fn lemma_ecc_inside_one(e: int)
    requires
        i64_fits(e),
        mul_bits(e, e) < SCALE,
    ensures
        -(SCALE as int) < e < SCALE as int,
{
    if e >= SCALE || e <= -(SCALE as int) {
        assert(e * e >= (SCALE as int) * (SCALE as int)) by (nonlinear_arith)
            requires
                e >= SCALE as int || e <= -(SCALE as int),
        ;
        vstd::arithmetic::div_mod::lemma_div_is_ordered(
            (SCALE as int) * (SCALE as int),
            e * e,
            SCALE as int,
        );
        vstd::arithmetic::div_mod::lemma_div_multiples_vanish(SCALE as int, SCALE as int);
        assert(false);
    }
}

/// Propagate an elliptical orbit: solve Kepler's equation for the eccentric
/// anomaly by bounded bisection, derive the true anomaly, place the
/// satellite on the conic section, and rotate position and velocity into the
/// inertial frame.  No acceleration is produced.  On any error the satellite
/// is left untouched.
#[verifier::rlimit(60)]
pub fn orbit_parametric(cubesat: &mut CubeSat, env: &Physics) -> (r: Result<(), SimError>)
    requires
        env.wf(),
    ensures
        ({
            let pre = *old(cubesat);
            match parametric_spec(pre, env.mu as int) {
                Ok(t) => r == Ok::<(), SimError>(()) && *final(cubesat) == (CubeSat {
                    pos: Some(t.0),
                    vel: Some(t.1),
                    ..pre
                }),
                Err(e) => r == Err::<(), SimError>(e) && *final(cubesat) == pre,
            }
        }),
{
    let params = match cubesat.orbit_parameters {
        Some(p) => p,
        None => {
            return Err(SimError::MissingField(Field::OrbitParameters));
        },
    };
    let ecc = match params.eccentricity {
        Some(v) => v,
        None => {
            return Err(SimError::MissingField(Field::Eccentricity));
        },
    };
    if ecc.bits == 0 {
        return Err(SimError::InvalidField(Field::Eccentricity));
    }
    let now = match cubesat.time {
        Some(t) => t.now,
        None => {
            return Err(SimError::MissingField(Field::Time));
        },
    };
    if cubesat.pos.is_none() {
        return Err(SimError::MissingField(Field::Position));
    }
    if cubesat.vel.is_none() {
        return Err(SimError::MissingField(Field::Velocity));
    }
    let semi = match params.semi_major_axis {
        Some(v) => v,
        None => {
            return Err(SimError::MissingField(Field::SemiMajorAxis));
        },
    };
    let inc = match params.inclination {
        Some(v) => v,
        None => {
            return Err(SimError::MissingField(Field::Inclination));
        },
    };
    let ap = match params.argument_of_periapsis {
        Some(v) => v,
        None => {
            return Err(SimError::MissingField(Field::ArgumentOfPeriapsis));
        },
    };
    let lan_opt = params.longitude_of_ascending_node;
    if semi.bits < SCALE {
        return Err(SimError::InvalidField(Field::SemiMajorAxis));
    }
    if semi.bits > LIN_MAX_BITS {
        return Err(SimError::OutOfRange);
    }
    proof {
        assert(ecc.bits as int * ecc.bits as int >= 0) by (nonlinear_arith);
        vstd::arithmetic::div_mod::lemma_div_pos_is_pos(
            ecc.bits as int * ecc.bits as int,
            SCALE as int,
        );
    }
    let e2 = match ecc.checked_mul(ecc) {
        Some(v) => v,
        None => {
            return Err(SimError::InvalidField(Field::Eccentricity));
        },
    };
    if e2.bits >= SCALE {
        return Err(SimError::InvalidField(Field::Eccentricity));
    }
    proof {
        lemma_ecc_inside_one(ecc.bits as int);
    }
    let m = match mu_over_r(env.mu, semi) {
        Some(m) => m,
        None => {
            return Err(SimError::OutOfRange);
        },
    };
    let sq0 = m.sqrt();
    proof {
        lemma_omega_fits(sq0.bits as int, semi.bits as int);
    }
    let n = sq0.div(semi);
    if n.bits == 0 {
        return Err(SimError::OutOfRange);
    }
    let tau = Fx { bits: TAU_BITS };
    let tp = match tau.checked_div(n) {
        Some(t) => t,
        None => {
            return Err(SimError::OutOfRange);
        },
    };
    if tp.bits <= 0 {
        return Err(SimError::OutOfRange);
    }
    let hundred = Fx::from_int(100);
    let t100 = match tp.checked_mul(hundred) {
        Some(t) => t,
        None => {
            proof {
                lemma_times_hundred(tp.bits as int);
            }
            return Err(SimError::OutOfRange);
        },
    };
    proof {
        lemma_times_hundred(tp.bits as int);
    }
    let tol = match tau.checked_div(t100) {
        Some(t) => t,
        None => {
            return Err(SimError::OutOfRange);
        },
    };
    let t = now.rem_euclid(tp);
    proof {
        lemma_nt_bound(n.bits as int, t.bits as int, tp.bits as int);
    }
    let nt = n.mul(t);
    let ghost goal = kepler_iter(
        -TENTH_BITS as int,
        TAU_BITS + TENTH_BITS,
        0,
        ecc.bits as int,
        nt.bits as int,
        tol.bits as int,
        20,
    );
    let mut lo = Fx { bits: -TENTH_BITS };
    let mut hi = Fx { bits: TAU_BITS + TENTH_BITS };
    let mut ecc_anom = Fx { bits: 0 };
    let mut i: u64 = 0;
    loop
        invariant_except_break
            i <= 20,
            abs_int(lo.bits as int) <= 0x10_0000_0000,
            abs_int(hi.bits as int) <= 0x10_0000_0000,
            abs_int(ecc_anom.bits as int) <= 0x10_0000_0000,
            -(SCALE as int) < ecc.bits < SCALE as int,
            0 <= nt.bits <= TAU_BITS,
            kepler_iter(
                lo.bits as int,
                hi.bits as int,
                ecc_anom.bits as int,
                ecc.bits as int,
                nt.bits as int,
                tol.bits as int,
                (20 - i) as nat,
            ) == goal,
        ensures
            ecc_anom.bits == goal,
            abs_int(ecc_anom.bits as int) <= 0x10_0000_0000,
        decreases 21 - i,
    {
        if i >= 20 {
            break ;
        }
        let c = half_point(lo, hi);
        ecc_anom = c;
        let fc = kepler_f(c, ecc, nt);
        let fcabs = if fc.bits >= 0 {
            fc.bits
        } else {
            -fc.bits
        };
        if fcabs <= tol.bits {
            break ;
        }
        let fa = kepler_f(lo, ecc, nt);
        if (fa.bits < 0 && fc.bits > 0) || (fa.bits > 0 && fc.bits < 0) {
            hi = c;
        } else {
            lo = c;
        }
        i = i + 1;
    }
    let (se, ce) = crate::trig::sin_cos(ecc_anom);
    let one = Fx { bits: SCALE };
    let pe = one.sub(e2);
    let s2 = pe.sqrt();
    proof {
        lemma_sqrt_bits_small(pe.bits as int);
        lemma_div_shrink_denominator(ecc.bits as int, (SCALE + s2.bits) as int);
    }
    let beta = ecc.div(one.add(s2));
    proof {
        lemma_mul_unit(se.bits as int, beta.bits as int);
        lemma_mul_unit(ce.bits as int, beta.bits as int);
        lemma_mul_bits_comm(beta.bits as int, se.bits as int);
        lemma_mul_bits_comm(beta.bits as int, ce.bits as int);
    }
    let num = beta.mul(se);
    let den = ecc.sub(beta.mul(ce));
    if den.bits == 0 && num.bits == 0 {
        return Err(SimError::Degenerate);
    }
    let at: Fx = if den.bits == 0 {
        if num.bits > 0 {
            Fx { bits: HALF_PI_BITS }
        } else {
            Fx { bits: -HALF_PI_BITS }
        }
    } else {
        match num.checked_div(den) {
            Some(q) => crate::trig::atan(q),
            None => {
                if (num.bits >= 0) == (den.bits >= 0) {
                    Fx { bits: HALF_PI_BITS }
                } else {
                    Fx { bits: -HALF_PI_BITS }
                }
            },
        }
    };
    let v = ecc_anom.add(at.add(at));
    proof {
        assert(ecc_anom.bits + (at.bits + at.bits) == ecc_anom.bits + 2 * at.bits);
    }
    let (sv, cv) = crate::trig::sin_cos(v);
    proof {
        lemma_mul_unit_signed(pe.bits as int, semi.bits as int);
        lemma_mul_bits_comm(semi.bits as int, pe.bits as int);
    }
    let pl = semi.mul(pe);
    proof {
        assert(semi.bits as int * pe.bits as int >= SCALE as int) by (nonlinear_arith)
            requires
                semi.bits >= SCALE,
                pe.bits >= 1,
        ;
        vstd::arithmetic::div_mod::lemma_div_is_ordered(
            SCALE as int,
            semi.bits as int * pe.bits as int,
            SCALE as int,
        );
        vstd::arithmetic::div_mod::lemma_div_by_self(SCALE as int);
    }
    let mp = match mu_over_r_checked(env.mu, pl) {
        Some(m) => m,
        None => {
            return Err(SimError::OutOfRange);
        },
    };
    let sq = mp.sqrt();
    proof {
        lemma_ecc_inside_one(ecc.bits as int);
        lemma_mul_unit(cv.bits as int, ecc.bits as int);
        lemma_mul_bits_comm(ecc.bits as int, cv.bits as int);
        lemma_mul_unit(cv.bits as int, pl.bits as int);
        lemma_mul_unit(sv.bits as int, pl.bits as int);
        lemma_mul_bits_comm(pl.bits as int, cv.bits as int);
        lemma_mul_bits_comm(pl.bits as int, sv.bits as int);
    }
    let den2 = one.add(ecc.mul(cv));
    let pxn = pl.mul(cv);
    let pyn = pl.mul(sv);
    proof {
        assert(den2.bits >= 1);
    }
    let px = match pxn.checked_div(den2) {
        Some(q) => q,
        None => {
            return Err(SimError::OutOfRange);
        },
    };
    let py = match pyn.checked_div(den2) {
        Some(q) => q,
        None => {
            return Err(SimError::OutOfRange);
        },
    };
    if px.bits > LIN_MAX_BITS || px.bits < -LIN_MAX_BITS || py.bits > LIN_MAX_BITS || py.bits
        < -LIN_MAX_BITS {
        return Err(SimError::OutOfRange);
    }
    proof {
        lemma_sqrt_bits_small(mp.bits as int);
        lemma_mul_unit(sv.bits as int, sq.bits as int);
        lemma_mul_bits_comm(sq.bits as int, sv.bits as int);
        lemma_mul_bits_range(
            sq.bits as int,
            (ecc.bits + cv.bits) as int,
            0x1_0000_0000_0000,
            0x2_0000_0000,
        );
        vstd::arithmetic::div_mod::lemma_div_multiples_vanish(0x2_0000_0000_0000, SCALE as int);
        assert(0x1_0000_0000_0000 * 0x2_0000_0000 == (SCALE as int) * 0x2_0000_0000_0000);
        lemma_mul_unit(DEG_TO_RAD_BITS as int, inc.bits as int);
        lemma_mul_unit(DEG_TO_RAD_BITS as int, ap.bits as int);
    }
    let vx = sq.mul(sv).neg();
    let vy = sq.mul(ecc.add(cv));
    let deg = Fx { bits: DEG_TO_RAD_BITS };
    let inc_r = deg.mul(inc);
    let ap_r = deg.mul(ap);
    let pos0 = Vector3 { x: px, y: py, z: Fx { bits: 0 } };
    let vel0 = Vector3 { x: vx, y: vy, z: Fx { bits: 0 } };
    let pos1 = pos0.rot_z(ap_r).rot_y(inc_r);
    let vel1 = vel0.rot_z(ap_r).rot_y(inc_r);
    let (new_pos, new_vel) = match lan_opt {
        Some(lan) => {
            proof {
                lemma_mul_unit(DEG_TO_RAD_BITS as int, lan.bits as int);
            }
            let lan_r = deg.mul(lan);
            (pos1.rot_z(lan_r), vel1.rot_z(lan_r))
        },
        None => (pos1, vel1),
    };
    cubesat.pos = Some(new_pos);
    cubesat.vel = Some(new_vel);
    Ok(())
}

/// Law: when the circular model succeeds at time zero with zero inclination,
/// argument of periapsis and longitude of ascending node, it places the
/// satellite on the positive x axis at exactly the orbit radius, gives it a
/// purely tangential velocity of `omega * r` along the y axis, and a purely
/// centripetal acceleration of `omega^2 r` against the x axis; the speed is
/// strictly positive whenever the rate is nonzero at this granularity.
pub proof fn lemma_circular_cosine_start(sat: CubeSat, mu: int)
    requires
        mu >= 0,
        circular_cosine_spec(sat, mu) is Ok,
        sat.time->Some_0.now.bits == 0,
        sat.orbit_parameters->Some_0.inclination->Some_0.bits == 0,
        sat.orbit_parameters->Some_0.argument_of_periapsis->Some_0.bits == 0,
        sat.orbit_parameters->Some_0.longitude_of_ascending_node->Some_0.bits == 0,
    ensures
        ({
            let rb = sat.orbit_parameters->Some_0.semi_major_axis->Some_0.bits as int;
            let om = omega_bits(mu, rb);
            let vrb = mul_bits(om, rb);
            let arb = mul_bits(om, vrb);
            circular_cosine_spec(sat, mu) == Ok::<(Vector3, Vector3, Vector3), SimError>(
                (
                    Vector3 {
                        x: Fx { bits: rb as i64 },
                        y: Fx { bits: 0 },
                        z: Fx { bits: 0 },
                    },
                    Vector3 {
                        x: Fx { bits: 0 },
                        y: Fx { bits: vrb as i64 },
                        z: Fx { bits: 0 },
                    },
                    Vector3 {
                        x: Fx { bits: (-arb) as i64 },
                        y: Fx { bits: 0 },
                        z: Fx { bits: 0 },
                    },
                ),
            ) && (om >= 1 ==> vrb >= 1) && arb >= 0
        }),
{
    let rb = sat.orbit_parameters->Some_0.semi_major_axis->Some_0.bits as int;
    let om = omega_bits(mu, rb);
    let vrb = mul_bits(om, rb);
    let arb = mul_bits(om, vrb);
    assert(om * 0 == 0) by (nonlinear_arith);
    assert(mul_bits(om, 0) == 0);
    assert((0int) % (TAU_BITS as int) == 0) by {
        vstd::arithmetic::div_mod::lemma_mod_self_0(TAU_BITS as int);
        vstd::arithmetic::div_mod::lemma_small_mod(0nat, TAU_BITS as nat);
    }
    assert(sin_bits(0) == 0);
    assert(cos_bits(0) == SCALE as int);
    assert(mul_bits(rb, SCALE as int) == rb) by {
        crate::vector::lemma_scale_cancel(rb);
        lemma_mul_bits_comm(rb, SCALE as int);
    }
    assert(rb * 0 == 0) by (nonlinear_arith);
    assert(mul_bits(rb, 0) == 0);
    assert(mul_bits(vrb, SCALE as int) == vrb) by {
        crate::vector::lemma_scale_cancel(vrb);
        lemma_mul_bits_comm(vrb, SCALE as int);
    }
    assert(vrb * 0 == 0) by (nonlinear_arith);
    assert(mul_bits(vrb, 0) == 0);
    assert(mul_bits(arb, SCALE as int) == arb) by {
        crate::vector::lemma_scale_cancel(arb);
        lemma_mul_bits_comm(arb, SCALE as int);
    }
    assert(arb * 0 == 0) by (nonlinear_arith);
    assert(mul_bits(arb, 0) == 0);
    assert(rad_of_deg(0) == 0) by {
        assert((DEG_TO_RAD_BITS as int) * 0 == 0) by (nonlinear_arith);
    }
    let pos0 = Vector3 { x: Fx { bits: rb as i64 }, y: Fx { bits: 0 }, z: Fx { bits: 0 } };
    let vel0 = Vector3 { x: Fx { bits: 0 }, y: Fx { bits: vrb as i64 }, z: Fx { bits: 0 } };
    let acc0 = Vector3 { x: Fx { bits: (-arb) as i64 }, y: Fx { bits: 0 }, z: Fx { bits: 0 } };
    crate::vector::lemma_rotation_by_zero_identity(pos0);
    crate::vector::lemma_rotation_by_zero_identity(vel0);
    crate::vector::lemma_rotation_by_zero_identity(acc0);
    if om >= 1 {
        assert(om * rb >= SCALE as int) by (nonlinear_arith)
            requires
                om >= 1,
                rb >= SCALE as int,
        ;
        assert(vrb >= 1) by {
            vstd::arithmetic::div_mod::lemma_div_is_ordered(SCALE as int, om * rb, SCALE as int);
            vstd::arithmetic::div_mod::lemma_div_by_self(SCALE as int);
        }
    }
    assert(arb >= 0) by {
        assert(om >= 0) by {
            lemma_omega_nonneg(mu, rb);
        }
        assert(vrb >= 0) by {
            assert(om * rb >= 0) by (nonlinear_arith)
                requires
                    om >= 0,
                    rb >= 0,
            ;
            vstd::arithmetic::div_mod::lemma_div_pos_is_pos(om * rb, SCALE as int);
        }
        assert(om * vrb >= 0) by (nonlinear_arith)
            requires
                om >= 0,
                vrb >= 0,
        ;
        vstd::arithmetic::div_mod::lemma_div_pos_is_pos(om * vrb, SCALE as int);
    }
}

/// The circular model's angular rate is never negative for a positive
/// radius.
proof fn lemma_omega_nonneg(mu: int, r: int)
    requires
        r >= 1,
        mu >= 0,
    ensures
        omega_bits(mu, r) >= 0,
{
    assert(mu * (SCALE as int) * (SCALE as int) >= 0) by (nonlinear_arith)
        requires
            mu >= 0,
    ;
    vstd::arithmetic::div_mod::lemma_div_pos_is_pos(mu * (SCALE as int) * (SCALE as int), r);
    assert(mu_over_r_bits(mu, r) * (SCALE as int) >= 0) by (nonlinear_arith)
        requires
            mu_over_r_bits(mu, r) >= 0,
    ;
    crate::fx::lemma_isqrt_bounds(mu_over_r_bits(mu, r) * (SCALE as int));
    let s = sqrt_bits(mu_over_r_bits(mu, r));
    assert(s * (SCALE as int) >= 0) by (nonlinear_arith)
        requires
            s >= 0,
    ;
    vstd::arithmetic::div_mod::lemma_div_pos_is_pos(s * (SCALE as int), r);
}

/// Multiplying a positive period by the fixed-point hundred is the plain
/// product by a hundred.
proof fn lemma_times_hundred(tp: int)
    requires
        tp >= 0,
    ensures
        mul_bits(tp, 100 * (SCALE as int)) == 100 * tp,
{
    assert(tp * (100 * (SCALE as int)) == (SCALE as int) * (100 * tp)) by (nonlinear_arith);
    vstd::arithmetic::div_mod::lemma_div_multiples_vanish(100 * tp, SCALE as int);
}

/// Dividing by a denominator of at least one cannot grow a value.
pub proof fn lemma_div_shrink_denominator(x: int, d: int)
    requires
        i64_fits(x),
        d >= SCALE,
    ensures
        i64_fits(div_bits(x, d)),
        abs_int(div_bits(x, d)) <= abs_int(x),
{
    if x >= 0 {
        lemma_omega_fits_general(x, d);
    } else {
        lemma_omega_fits_general(-x, d);
        assert(div_bits(x, d) == -div_bits(-x, d)) by {
            assert(x * (SCALE as int) == -((-x) * (SCALE as int))) by (nonlinear_arith);
        }
    }
}

/// The nonnegative case of denominator shrinking.
proof fn lemma_omega_fits_general(s: int, r: int)
    requires
        0 <= s,
        r >= SCALE,
    ensures
        0 <= div_bits(s, r) <= s,
{
    assert(s * (SCALE as int) >= 0) by (nonlinear_arith)
        requires
            s >= 0,
    ;
    assert(s * (SCALE as int) <= r * s) by (nonlinear_arith)
        requires
            0 <= s,
            r >= SCALE as int,
    ;
    vstd::arithmetic::div_mod::lemma_div_pos_is_pos(s * (SCALE as int), r);
    vstd::arithmetic::div_mod::lemma_multiply_divide_le(s * (SCALE as int), r, s);
}

/// The scaled-down gravitational quotient over any positive fixed-point
/// denominator.
fn mu_over_r_checked(mu: u64, r: Fx) -> (res: Option<Fx>)
    requires
        r.bits >= 1,
        mu <= 0x4000_0000_0000_0000,
    ensures
        i64_fits(mu_over_r_bits(mu as int, r.bits as int)) ==> res == Some(
            Fx { bits: mu_over_r_bits(mu as int, r.bits as int) as i64 },
        ),
        !i64_fits(mu_over_r_bits(mu as int, r.bits as int)) ==> res is None,
        res is Some ==> res->Some_0.bits >= 0,
{
    proof {
        assert((mu as int) * (SCALE as int) <= 0x4000_0000_0000_0000_0000_0000
            * 0x1_0000_0000) by (nonlinear_arith)
            requires
                mu <= 0x4000_0000_0000_0000u64,
        ;
        assert((mu as int) * (SCALE as int) * (SCALE as int) >= 0) by (nonlinear_arith)
            requires
                mu >= 0,
        ;
        vstd::arithmetic::div_mod::lemma_div_pos_is_pos(
            (mu as int) * (SCALE as int) * (SCALE as int),
            r.bits as int,
        );
    }
    let n: u128 = (mu as u128) * (SCALE as u128) * (SCALE as u128);
    let q: u128 = n / (r.bits as u128);
    if q <= 0x7fff_ffff_ffff_ffff {
        Some(Fx { bits: q as i64 })
    } else {
        proof {
            assert(mu_over_r_bits(mu as int, r.bits as int) == q);
        }
        None
    }
}

} // verus!
