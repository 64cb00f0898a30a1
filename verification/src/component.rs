//! Hardware of the satellite: solar panels, the electrical power system's
//! battery, and duty-cycled components.

use vstd::prelude::*;
use crate::fx::Fx;
use crate::fx::SCALE;
use crate::fx::tdiv;
use crate::fx::mul_bits;
use crate::fx::i64_fits;
use crate::fx::clamp_bits;
use crate::fx::tdiv_by_scale;
use crate::fx::lemma_mul_bits_range;
use crate::trig::DEG_TO_RAD_BITS;
use crate::trig::rad_of_deg;
use crate::vector::Vector3;
use crate::vector::bounded;
use crate::vector::mag_bits;
use crate::vector::dot_bits;
use crate::vector::inner_frac;
use crate::vector::neg_spec;
use crate::vector::rot_x_spec;
use crate::vector::rot_y_spec;
use crate::vector::rot_z_spec;
use crate::vector::lemma_dot_fits;
use crate::vector::lemma_mag_bound;
use crate::vector::lemma_mul_unit;
use crate::vector::lemma_small_quotient;
use crate::error::SimError;

verus! {

/// Componentwise bit bound on a panel's body-fixed normal: 2^45.
pub const ORI_BOUND: i64 = 0x2000_0000_0000;

/// Componentwise bit bound on the sun direction vector: 2^33.
pub const SUN_BOUND: i64 = 0x2_0000_0000;

/// Seconds per hour, as a plain integer.
pub const HOUR_SECONDS: i64 = 3600;

/// A panel's outward normal after the satellite's attitude rotation has been
/// applied (x, then y, then z axis, angles in degrees), negated: power comes
/// from the direction opposing the face.
pub open spec fn attitude_normal(orientation: Vector3, rotation: Vector3) -> Vector3 {
    neg_spec(
        rot_z_spec(
            rot_y_spec(
                rot_x_spec(orientation, rad_of_deg(rotation.x.bits as int)),
                rad_of_deg(rotation.y.bits as int),
            ),
            rad_of_deg(rotation.z.bits as int),
        ),
    )
}

#[derive(Clone, Copy, Debug, PartialEq, Eq, Structural)]
pub struct SolarPanel {
    pub orientation: Vector3,
    pub power_generation: Fx,
}

/// One panel's contribution: its rated power scaled by the cosine of the
/// angle between the lit face and the sun; zero when the sun is behind the
/// face; errors for an out-of-bounds normal or degenerate geometry.
#[verifier::opaque]
pub open spec fn panel_gain_spec(p: SolarPanel, rot: Vector3, sun: Vector3) -> Result<
    int,
    SimError,
> {
    if !bounded(p.orientation, ORI_BOUND as int) {
        Err(SimError::OutOfRange)
    } else {
        let n = attitude_normal(p.orientation, rot);
        let m = mul_bits(mag_bits(n), mag_bits(sun));
        if m == 0 {
            Err(SimError::Degenerate)
        } else {
            let inner = inner_frac(dot_bits(n, sun), m);
            Ok(
                if inner <= 0 {
                    0int
                } else {
                    mul_bits(inner, p.power_generation.bits as int)
                },
            )
        }
    }
}

impl SolarPanel {
    pub fn new(power_generation: Fx, x: Fx, y: Fx, z: Fx) -> (r: SolarPanel)
        ensures
            r.orientation == (Vector3 { x, y, z }),
            r.power_generation == power_generation,
    {
        SolarPanel { orientation: Vector3 { x, y, z }, power_generation }
    }

    /// The panel's instantaneous generation: its rated power scaled by the
    /// cosine of the angle between the lit face and the sun, zero when the
    /// sun is behind the face, and a degenerate-geometry error when either
    /// the rotated normal or the sun vanishes at this granularity.
    pub fn power_generation(&self, rotation: &Vector3, sun: &Vector3) -> (r: Result<Fx, SimError>)
        requires
            bounded(self.orientation, ORI_BOUND as int),
            bounded(*sun, SUN_BOUND as int),
        ensures
            match panel_gain_spec(*self, *rotation, *sun) {
                Ok(v) => i64_fits(v) && r == Ok::<Fx, SimError>(Fx { bits: v as i64 }),
                Err(e) => r == Err::<Fx, SimError>(e),
            },
    {
        proof {
            reveal(panel_gain_spec);
        }
        let deg = Fx { bits: DEG_TO_RAD_BITS };
        proof {
            lemma_mul_unit(DEG_TO_RAD_BITS as int, rotation.x.bits as int);
            lemma_mul_unit(DEG_TO_RAD_BITS as int, rotation.y.bits as int);
            lemma_mul_unit(DEG_TO_RAD_BITS as int, rotation.z.bits as int);
        }
        let rx = deg.mul(rotation.x);
        let ry = deg.mul(rotation.y);
        let rz = deg.mul(rotation.z);
        let v1 = self.orientation.rot_x(rx);
        let v2 = v1.rot_y(ry);
        let v3 = v2.rot_z(rz);
        let n = v3.negative();
        proof {
            assert(bounded(n, 8 * ORI_BOUND));
            lemma_mag_bound(n, 8 * ORI_BOUND as int);
            lemma_mag_bound(*sun, SUN_BOUND as int);
            lemma_mul_bits_range(
                mag_bits(n),
                mag_bits(*sun),
                16 * ORI_BOUND as int,
                2 * SUN_BOUND as int,
            );
            assert((16 * ORI_BOUND as int) * (2 * SUN_BOUND as int) == 0x8_0000_0000_0000
                * (SCALE as int)) by (nonlinear_arith);
            vstd::arithmetic::div_mod::lemma_div_multiples_vanish(
                0x8_0000_0000_0000,
                SCALE as int,
            );
            lemma_dot_fits(n, *sun, 8 * ORI_BOUND as int, SUN_BOUND as int);
        }
        let mn = n.abs();
        let ms = sun.abs();
        let m = mn.mul(ms);
        if m.bits == 0 {
            return Err(SimError::Degenerate);
        }
        proof {
            assert(mag_bits(n) * mag_bits(*sun) >= 0) by (nonlinear_arith)
                requires
                    mag_bits(n) >= 0,
                    mag_bits(*sun) >= 0,
            ;
            vstd::arithmetic::div_mod::lemma_div_pos_is_pos(
                mag_bits(n) * mag_bits(*sun),
                SCALE as int,
            );
        }
        let d = n.dot(sun);
        let inner: Fx = if d.bits >= m.bits {
            Fx { bits: SCALE }
        } else if d.bits <= -m.bits {
            Fx { bits: -SCALE }
        } else {
            proof {
                lemma_small_quotient(d.bits as int, m.bits as int);
            }
            d.div(m)
        };
        if inner.bits <= 0 {
            Ok(Fx { bits: 0 })
        } else {
            proof {
                crate::vector::lemma_mul_unit_signed(
                    inner.bits as int,
                    self.power_generation.bits as int,
                );
            }
            Ok(inner.mul(self.power_generation))
        }
    }
}

/// The battery's new charge after integrating net power over one step:
/// the charge in joules plus the step's energy, back to watt-hours, clamped
/// into `[0, capacity]`.
pub open spec fn updated_charge_bits(charge: int, max_charge: int, power: int, step: int) -> int {
    clamp_bits(
        tdiv(charge * (HOUR_SECONDS as int) + mul_bits(power, step), HOUR_SECONDS as int),
        0,
        max_charge,
    )
}

/// The electrical power system: a baseline consumption and a battery.
#[derive(Clone, Copy, Debug, PartialEq, Eq, Structural)]
pub struct Eps {
    pub consumption: Fx,
    pub charge: Fx,
    pub max_charge: Fx,
}

impl Eps {
    /// A full battery with the given baseline consumption and capacity.
    pub fn new(power_consumption: Fx, max_charge: Fx) -> (r: Eps)
        requires
            max_charge.bits >= 0,
        ensures
            r.consumption == power_consumption,
            r.charge == max_charge,
            r.max_charge == max_charge,
    {
        Eps { consumption: power_consumption, charge: max_charge, max_charge }
    }

    /// Integrate net power over one step and clamp: whatever the magnitude
    /// or sign of the net power, the charge stays within `[0, capacity]` —
    /// saturation, not an error.
    pub fn update_capacity(&mut self, power: Fx, timestep: Fx)
        requires
            old(self).max_charge.bits >= 0,
        ensures
            final(self).charge.bits == updated_charge_bits(
                old(self).charge.bits as int,
                old(self).max_charge.bits as int,
                power.bits as int,
                timestep.bits as int,
            ),
            0 <= final(self).charge.bits <= old(self).max_charge.bits,
            final(self).consumption == old(self).consumption,
            final(self).max_charge == old(self).max_charge,
    {
        let cj: i128 = (self.charge.bits as i128) * 3600;
        proof {
            assert(-0x4000_0000_0000_0000_0000_0000_0000_0000 <= (power.bits as int)
                * (timestep.bits as int) <= 0x4000_0000_0000_0000_0000_0000_0000_0000)
                by (nonlinear_arith)
                requires
                    -0x8000_0000_0000_0000 <= power.bits as int <= 0x7fff_ffff_ffff_ffff,
                    -0x8000_0000_0000_0000 <= timestep.bits as int <= 0x7fff_ffff_ffff_ffff,
            ;
        }
        let pj: i128 = (power.bits as i128) * (timestep.bits as i128);
        let j: i128 = tdiv_by_scale(pj);
        proof {
            if pj >= 0 {
                vstd::arithmetic::div_mod::lemma_div_nonincreasing(pj as int, SCALE as int);
                vstd::arithmetic::div_mod::lemma_div_pos_is_pos(pj as int, SCALE as int);
            } else {
                vstd::arithmetic::div_mod::lemma_div_nonincreasing(-(pj as int), SCALE as int);
                vstd::arithmetic::div_mod::lemma_div_pos_is_pos(-(pj as int), SCALE as int);
            }
            assert(-0x4000_0000_0000_0000_0000_0000_0000_0000 <= j
                <= 0x4000_0000_0000_0000_0000_0000_0000_0000);
            assert(cj == self.charge.bits * (HOUR_SECONDS as int));
        }
        let total: i128 = cj + j;
        let nc: i128 = if total >= 0 {
            ((total as u128) / (HOUR_SECONDS as u128)) as i128
        } else {
            -((((-total) as u128) / (HOUR_SECONDS as u128)) as i128)
        };
        proof {
            assert(nc == tdiv(total as int, HOUR_SECONDS as int));
        }
        let clamped: i64 = if nc < 0 {
            0
        } else if nc > self.max_charge.bits as i128 {
            self.max_charge.bits
        } else {
            nc as i64
        };
        self.charge = Fx { bits: clamped };
    }
}

/// A named component with a passive draw, an optional active draw, and an
/// optional duty cycle.
#[derive(Debug)]
pub struct Component {
    pub name: String,
    pub active: bool,
    pub consumption_passive: Fx,
    pub consumption_active: Option<Fx>,
    pub activation_interval: Option<Fx>,
    pub activation_duration: Option<Fx>,
}

impl Component {
    /// A new component, initially inactive.
    pub fn new(
        name: &str,
        consumption_passive: Fx,
        consumption_active: Option<Fx>,
        activation_interval: Option<Fx>,
        activation_duration: Option<Fx>,
    ) -> (r: Component)
        ensures
            r.name@ == name@,
            r.active == false,
            r.consumption_passive == consumption_passive,
            r.consumption_active == consumption_active,
            r.activation_interval == activation_interval,
            r.activation_duration == activation_duration,
    {
        Component {
            name: name.to_owned(),
            active: false,
            consumption_passive,
            consumption_active,
            activation_interval,
            activation_duration,
        }
    }
}

} // verus!
