//! The satellite's aggregate state, its per-tick update steps, and the
//! recorded history of a run.

use vstd::prelude::*;
use vstd::string::StrSliceExecFns;
use crate::fx::Fx;
use crate::time::Time;
use crate::vector::Vector3;
use crate::component::SolarPanel;
use crate::component::Eps;
use crate::component::Component;
use crate::orbit::OrbitType;
use crate::orbit::OrbitParameters;
use crate::fx::SCALE;
use crate::fx::mul_bits;
use crate::fx::div_bits;
use crate::fx::i64_fits;
use crate::fx::lemma_mul_bits_range;
use crate::vector::bounded;
use crate::vector::mag_bits;
use crate::vector::dot_bits;
use crate::vector::inner_frac;
use crate::vector::norm2;
use crate::vector::lemma_dot_fits;
use crate::vector::lemma_mag_bound;
use crate::vector::lemma_mul_unit;
use crate::vector::lemma_small_quotient;
use crate::component::ORI_BOUND;
use crate::component::SUN_BOUND;
use crate::component::panel_gain_spec;
use crate::component::updated_charge_bits;
use crate::orbit::Physics;
use crate::orbit::sqrt_bits;
use crate::orbit::orbit_circular_cosine;
use crate::orbit::orbit_parametric;
use crate::orbit::circular_cosine_spec;
use crate::orbit::parametric_spec;
use crate::vector::rot_z_spec;
use crate::trig::TAU_BITS;
use crate::error::Field;
use crate::error::SimError;

verus! {

/// Character-for-character string equality.
fn str_eq(a: &str, b: &str) -> (r: bool)
    ensures
        r == (a@ == b@),
{
    let la = a.unicode_len();
    let lb = b.unicode_len();
    if la != lb {
        return false;
    }
    let mut i: usize = 0;
    while i < la
        invariant
            i <= la,
            la as nat == a@.len(),
            la as nat == b@.len(),
            forall|j: int| 0 <= j < i ==> a@[j] == b@[j],
        decreases la - i,
    {
        if a.get_char(i) != b.get_char(i) {
            return false;
        }
        i = i + 1;
    }
    proof {
        assert(a@ =~= b@);
    }
    true
}

/// One column per recorded quantity, one entry per tick, append-only.
#[derive(Debug)]
pub struct History {
    pub time: Vec<Fx>,
    pub pos: Vec<(Fx, Fx, Fx)>,
    pub vel: Vec<(Fx, Fx, Fx)>,
    pub acc: Vec<(Fx, Fx, Fx)>,
    pub rot: Vec<(Fx, Fx, Fx)>,
    pub rot_vel: Vec<(Fx, Fx, Fx)>,
    pub rot_acc: Vec<(Fx, Fx, Fx)>,
    pub sun: Vec<(Fx, Fx, Fx)>,
    pub charge: Vec<Fx>,
}

/// The triple of a vector's components.
pub open spec fn triple(v: Vector3) -> (Fx, Fx, Fx) {
    (v.x, v.y, v.z)
}

impl History {
    pub fn new() -> (r: History)
        ensures
            r.time@.len() == 0,
            r.pos@.len() == 0,
            r.vel@.len() == 0,
            r.acc@.len() == 0,
            r.rot@.len() == 0,
            r.rot_vel@.len() == 0,
            r.rot_acc@.len() == 0,
            r.sun@.len() == 0,
            r.charge@.len() == 0,
    {
        History {
            time: Vec::new(),
            pos: Vec::new(),
            vel: Vec::new(),
            acc: Vec::new(),
            rot: Vec::new(),
            rot_vel: Vec::new(),
            rot_acc: Vec::new(),
            sun: Vec::new(),
            charge: Vec::new(),
        }
    }

    /// Append one sample: each quantity that is present gains a row, each
    /// absent one is skipped.
    pub fn save(
        &mut self,
        time: Option<Time>,
        pos: Option<Vector3>,
        vel: Option<Vector3>,
        acc: Option<Vector3>,
        rot: Option<Vector3>,
        rot_vel: Option<Vector3>,
        rot_acc: Option<Vector3>,
        sun: Option<Vector3>,
        eps: Option<Eps>,
    )
        ensures
            final(self).time@ == if time is Some {
                old(self).time@.push(time->Some_0.now)
            } else {
                old(self).time@
            },
            final(self).pos@ == if pos is Some {
                old(self).pos@.push(triple(pos->Some_0))
            } else {
                old(self).pos@
            },
            final(self).vel@ == if vel is Some {
                old(self).vel@.push(triple(vel->Some_0))
            } else {
                old(self).vel@
            },
            final(self).acc@ == if acc is Some {
                old(self).acc@.push(triple(acc->Some_0))
            } else {
                old(self).acc@
            },
            final(self).rot@ == if rot is Some {
                old(self).rot@.push(triple(rot->Some_0))
            } else {
                old(self).rot@
            },
            final(self).rot_vel@ == if rot_vel is Some {
                old(self).rot_vel@.push(triple(rot_vel->Some_0))
            } else {
                old(self).rot_vel@
            },
            final(self).rot_acc@ == if rot_acc is Some {
                old(self).rot_acc@.push(triple(rot_acc->Some_0))
            } else {
                old(self).rot_acc@
            },
            final(self).sun@ == if sun is Some {
                old(self).sun@.push(triple(sun->Some_0))
            } else {
                old(self).sun@
            },
            final(self).charge@ == if eps is Some {
                old(self).charge@.push(eps->Some_0.charge)
            } else {
                old(self).charge@
            },
    {
        if let Some(t) = time {
            self.time.push(t.now);
        }
        if let Some(p) = pos {
            self.pos.push((p.x, p.y, p.z));
        }
        if let Some(v) = vel {
            self.vel.push((v.x, v.y, v.z));
        }
        if let Some(a) = acc {
            self.acc.push((a.x, a.y, a.z));
        }
        if let Some(r) = rot {
            self.rot.push((r.x, r.y, r.z));
        }
        if let Some(rv) = rot_vel {
            self.rot_vel.push((rv.x, rv.y, rv.z));
        }
        if let Some(ra) = rot_acc {
            self.rot_acc.push((ra.x, ra.y, ra.z));
        }
        if let Some(s) = sun {
            self.sun.push((s.x, s.y, s.z));
        }
        if let Some(e) = eps {
            self.charge.push(e.charge);
        }
    }
}

/// The whole satellite: configuration, kinematic state, hardware, energy
/// state and run history.
#[derive(Debug)]
pub struct CubeSat {
    pub name: Option<String>,
    pub active: bool,
    pub history: History,
    pub safe_mode: bool,
    pub safe_limit: Option<Fx>,
    pub orbit_type: Option<OrbitType>,
    pub orbit_parameters: Option<OrbitParameters>,
    pub time: Option<Time>,
    pub pos: Option<Vector3>,
    pub vel: Option<Vector3>,
    pub acc: Option<Vector3>,
    pub rot: Option<Vector3>,
    pub rot_vel: Option<Vector3>,
    pub rot_acc: Option<Vector3>,
    pub sun: Option<Vector3>,
    pub solar_panels: Option<Vec<SolarPanel>>,
    pub eps: Option<Eps>,
    pub components: Option<Vec<Component>>,
}

impl CubeSat {
    /// An empty satellite: active, with an empty history and nothing else.
    pub fn new() -> (r: CubeSat)
        ensures
            r.name is None,
            r.active == true,
            r.history.time@.len() == 0,
            r.history.pos@.len() == 0,
            r.history.vel@.len() == 0,
            r.history.acc@.len() == 0,
            r.history.rot@.len() == 0,
            r.history.rot_vel@.len() == 0,
            r.history.rot_acc@.len() == 0,
            r.history.sun@.len() == 0,
            r.history.charge@.len() == 0,
            r.safe_mode == false,
            r.safe_limit is None,
            r.orbit_type is None,
            r.orbit_parameters is None,
            r.time is None,
            r.pos is None,
            r.vel is None,
            r.acc is None,
            r.rot is None,
            r.rot_vel is None,
            r.rot_acc is None,
            r.sun is None,
            r.solar_panels is None,
            r.eps is None,
            r.components is None,
    {
        CubeSat {
            name: None,
            active: true,
            history: History::new(),
            safe_mode: false,
            safe_limit: None,
            orbit_type: None,
            orbit_parameters: None,
            time: None,
            pos: None,
            vel: None,
            acc: None,
            rot: None,
            rot_vel: None,
            rot_acc: None,
            sun: None,
            solar_panels: None,
            eps: None,
            components: None,
        }
    }

    pub fn with_name(self, name: &str) -> (r: CubeSat)
        ensures
            r == (CubeSat { name: r.name, ..self }),
            r.name is Some,
            r.name->Some_0@ == name@,
    {
        CubeSat { name: Some(name.to_owned()), ..self }
    }

    pub fn with_time(self, start: Fx, end: Fx, step: Fx) -> (r: CubeSat)
        ensures
            r == (CubeSat {
                time: Some(Time { now: start, step, start, end }),
                ..self
            }),
    {
        CubeSat { time: Some(Time::new(start, end, step)), ..self }
    }

    /// Select the orbit model by name; an unrecognised name clears it.
    pub fn with_orbit_type(self, orbit_type: &str) -> (r: CubeSat)
        ensures
            orbit_type@ == "circular cosine"@ ==> r == (CubeSat {
                orbit_type: Some(OrbitType::CircularCosine),
                ..self
            }),
            orbit_type@ == "parametric"@ ==> r == (CubeSat {
                orbit_type: Some(OrbitType::Parametric),
                ..self
            }),
            orbit_type@ != "circular cosine"@ && orbit_type@ != "parametric"@ ==> r == (CubeSat {
                orbit_type: None::<OrbitType>,
                ..self
            }),
    {
        proof {
            reveal_strlit("circular cosine");
            reveal_strlit("parametric");
            assert("circular cosine"@.len() == 15);
            assert("parametric"@.len() == 10);
            assert("circular cosine"@ != "parametric"@);
        }
        if str_eq(orbit_type, "circular cosine") {
            CubeSat { orbit_type: Some(OrbitType::CircularCosine), ..self }
        } else if str_eq(orbit_type, "parametric") {
            CubeSat { orbit_type: Some(OrbitType::Parametric), ..self }
        } else {
            CubeSat { orbit_type: None, ..self }
        }
    }

    /// Collect named orbit parameters into a fresh parameter set; entries
    /// with unrecognised names are ignored.
    pub fn with_orbit_parameters(self, orbit_parameters: Vec<(&str, Fx)>) -> (r: CubeSat)
        ensures
            r == (CubeSat {
                orbit_parameters: Some(
                    apply_orbit_entries(
                        OrbitParameters {
                            semi_major_axis: None,
                            inclination: None,
                            argument_of_periapsis: None,
                            longitude_of_ascending_node: None,
                            eccentricity: None,
                        },
                        orbit_parameters@,
                    ),
                ),
                ..self
            }),
    {
        let ghost entries = orbit_parameters@;
        let mut parameters = OrbitParameters::new();
        proof {
            assert(entries.skip(0) =~= entries);
        }
        let count = orbit_parameters.len();
        let mut i: usize = 0;
        while i < count
            invariant
                i <= count,
                count == entries.len(),
                orbit_parameters@ == entries,
                apply_orbit_entries(parameters, entries.skip(i as int)) == apply_orbit_entries(
                    OrbitParameters {
                        semi_major_axis: None,
                        inclination: None,
                        argument_of_periapsis: None,
                        longitude_of_ascending_node: None,
                        eccentricity: None,
                    },
                    entries,
                ),
            decreases count - i,
        {
            proof {
                assert(entries.skip(i as int)[0] == entries[i as int]);
                assert(entries.skip(i as int).drop_first() =~= entries.skip(i + 1));
                reveal_strlit("inclination");
                reveal_strlit("argument of periapsis");
                reveal_strlit("longitude of ascending node");
                reveal_strlit("semi-major axis");
                reveal_strlit("eccentricity");
            }
            let entry = orbit_parameters[i];
            if str_eq(entry.0, "inclination") {
                parameters.set_inclination(entry.1);
            } else if str_eq(entry.0, "argument of periapsis") {
                parameters.set_argument_of_periapsis(entry.1);
            } else if str_eq(entry.0, "longitude of ascending node") {
                parameters.set_longitude_of_ascending_node(entry.1);
            } else if str_eq(entry.0, "semi-major axis") {
                parameters.set_semi_major_axis(entry.1);
            } else if str_eq(entry.0, "eccentricity") {
                parameters.set_eccentricity(entry.1);
            }
            i = i + 1;
        }
        proof {
            assert(entries.skip(count as int) =~= Seq::<(&str, Fx)>::empty());
        }
        CubeSat { orbit_parameters: Some(parameters), ..self }
    }

    pub fn with_position(self, x: Fx, y: Fx, z: Fx) -> (r: CubeSat)
        ensures
            r == (CubeSat { pos: Some(Vector3 { x, y, z }), ..self }),
    {
        CubeSat { pos: Some(Vector3 { x, y, z }), ..self }
    }

    pub fn with_velocity(self, x: Fx, y: Fx, z: Fx) -> (r: CubeSat)
        ensures
            r == (CubeSat { vel: Some(Vector3 { x, y, z }), ..self }),
    {
        CubeSat { vel: Some(Vector3 { x, y, z }), ..self }
    }

    pub fn with_acceleration(self, x: Fx, y: Fx, z: Fx) -> (r: CubeSat)
        ensures
            r == (CubeSat { acc: Some(Vector3 { x, y, z }), ..self }),
    {
        CubeSat { acc: Some(Vector3 { x, y, z }), ..self }
    }

    pub fn with_rotation(self, x: Fx, y: Fx, z: Fx) -> (r: CubeSat)
        ensures
            r == (CubeSat { rot: Some(Vector3 { x, y, z }), ..self }),
    {
        CubeSat { rot: Some(Vector3 { x, y, z }), ..self }
    }

    pub fn with_rotation_velocity(self, x: Fx, y: Fx, z: Fx) -> (r: CubeSat)
        ensures
            r == (CubeSat { rot_vel: Some(Vector3 { x, y, z }), ..self }),
    {
        CubeSat { rot_vel: Some(Vector3 { x, y, z }), ..self }
    }

    pub fn with_rotation_acceleration(self, x: Fx, y: Fx, z: Fx) -> (r: CubeSat)
        ensures
            r == (CubeSat { rot_acc: Some(Vector3 { x, y, z }), ..self }),
    {
        CubeSat { rot_acc: Some(Vector3 { x, y, z }), ..self }
    }

    pub fn with_sun(self, x: Fx, y: Fx, z: Fx) -> (r: CubeSat)
        ensures
            r == (CubeSat { sun: Some(Vector3 { x, y, z }), ..self }),
    {
        CubeSat { sun: Some(Vector3 { x, y, z }), ..self }
    }

    /// One panel per orientation, all with the same rated power.
    pub fn with_solar_panels(self, orientations: Vec<(Fx, Fx, Fx)>, power_generation: Fx) -> (r:
        CubeSat)
        ensures
            r == (CubeSat { solar_panels: r.solar_panels, ..self }),
            r.solar_panels is Some,
            r.solar_panels->Some_0@ == orientations@.map_values(
                |o: (Fx, Fx, Fx)|
                    SolarPanel {
                        orientation: Vector3 { x: o.0, y: o.1, z: o.2 },
                        power_generation,
                    },
            ),
    {
        let mut solar_panels: Vec<SolarPanel> = Vec::new();
        let mut i: usize = 0;
        while i < orientations.len()
            invariant
                i <= orientations.len(),
                solar_panels@ == orientations@.take(i as int).map_values(
                    |o: (Fx, Fx, Fx)|
                        SolarPanel {
                            orientation: Vector3 { x: o.0, y: o.1, z: o.2 },
                            power_generation,
                        },
                ),
            decreases orientations.len() - i,
        {
            let o = orientations[i];
            solar_panels.push(SolarPanel::new(power_generation, o.0, o.1, o.2));
            proof {
                assert(orientations@.take((i + 1) as int) =~= orientations@.take(i as int).push(
                    orientations@[i as int],
                ));
                assert(solar_panels@ =~= orientations@.take((i + 1) as int).map_values(
                    |o: (Fx, Fx, Fx)|
                        SolarPanel {
                            orientation: Vector3 { x: o.0, y: o.1, z: o.2 },
                            power_generation,
                        },
                ));
            }
            i = i + 1;
        }
        proof {
            assert(orientations@.take(orientations@.len() as int) =~= orientations@);
        }
        CubeSat { solar_panels: Some(solar_panels), ..self }
    }

    pub fn with_eps(self, power_consumption: Fx, max_charge: Fx) -> (r: CubeSat)
        requires
            max_charge.bits >= 0,
        ensures
            r == (CubeSat {
                eps: Some(
                    Eps { consumption: power_consumption, charge: max_charge, max_charge },
                ),
                ..self
            }),
    {
        CubeSat { eps: Some(Eps::new(power_consumption, max_charge)), ..self }
    }

    /// Append a component, creating the list on first use.
    pub fn with_component(
        self,
        name: &str,
        consumption_passive: Fx,
        consumption_active: Option<Fx>,
        activation_interval: Option<Fx>,
        activation_duration: Option<Fx>,
    ) -> (r: CubeSat)
        ensures
            r == (CubeSat { components: r.components, ..self }),
            r.components is Some,
            ({
                let cs = r.components->Some_0@;
                let prior = if self.components is Some {
                    self.components->Some_0@
                } else {
                    Seq::<Component>::empty()
                };
                &&& cs.len() == prior.len() + 1
                &&& cs.take(prior.len() as int) == prior
                &&& cs.last().name@ == name@
                &&& cs.last().active == false
                &&& cs.last().consumption_passive == consumption_passive
                &&& cs.last().consumption_active == consumption_active
                &&& cs.last().activation_interval == activation_interval
                &&& cs.last().activation_duration == activation_duration
            }),
    {
        let c = Component::new(
            name,
            consumption_passive,
            consumption_active,
            activation_interval,
            activation_duration,
        );
        let ghost prior = if self.components is Some {
            self.components->Some_0@
        } else {
            Seq::<Component>::empty()
        };
        let CubeSat {
            name: s_name,
            active: s_active,
            history: s_history,
            safe_mode: s_safe_mode,
            safe_limit: s_safe_limit,
            orbit_type: s_orbit_type,
            orbit_parameters: s_orbit_parameters,
            time: s_time,
            pos: s_pos,
            vel: s_vel,
            acc: s_acc,
            rot: s_rot,
            rot_vel: s_rot_vel,
            rot_acc: s_rot_acc,
            sun: s_sun,
            solar_panels: s_solar_panels,
            eps: s_eps,
            components: s_components,
        } = self;
        let mut list: Vec<Component> = match s_components {
            Some(l) => l,
            None => Vec::new(),
        };
        list.push(c);
        proof {
            assert(list@.take(prior.len() as int) =~= prior);
        }
        CubeSat {
            name: s_name,
            active: s_active,
            history: s_history,
            safe_mode: s_safe_mode,
            safe_limit: s_safe_limit,
            orbit_type: s_orbit_type,
            orbit_parameters: s_orbit_parameters,
            time: s_time,
            pos: s_pos,
            vel: s_vel,
            acc: s_acc,
            rot: s_rot,
            rot_vel: s_rot_vel,
            rot_acc: s_rot_acc,
            sun: s_sun,
            solar_panels: s_solar_panels,
            eps: s_eps,
            components: Some(list),
        }
    }

    pub fn with_safety_limit(self, limit: Fx) -> (r: CubeSat)
        ensures
            r == (CubeSat { safe_limit: Some(limit), ..self }),
    {
        CubeSat { safe_limit: Some(limit), ..self }
    }
}

/// One named orbit-parameter entry applied to a parameter set; an
/// unrecognised name changes nothing.
pub open spec fn apply_orbit_entry(base: OrbitParameters, key: Seq<char>, v: Fx) -> OrbitParameters {
    if key == "inclination"@ {
        OrbitParameters { inclination: Some(v), ..base }
    } else if key == "argument of periapsis"@ {
        OrbitParameters { argument_of_periapsis: Some(v), ..base }
    } else if key == "longitude of ascending node"@ {
        OrbitParameters { longitude_of_ascending_node: Some(v), ..base }
    } else if key == "semi-major axis"@ {
        OrbitParameters { semi_major_axis: Some(v), ..base }
    } else if key == "eccentricity"@ {
        OrbitParameters { eccentricity: Some(v), ..base }
    } else {
        base
    }
}

/// All entries applied in order.
pub open spec fn apply_orbit_entries(base: OrbitParameters, entries: Seq<(&str, Fx)>) -> OrbitParameters
    decreases entries.len(),
{
    if entries.len() == 0 {
        base
    } else {
        apply_orbit_entries(
            apply_orbit_entry(base, entries[0].0@, entries[0].1),
            entries.drop_first(),
        )
    }
}

/// A component whose duty cycle names one of interval and duration without
/// the other: a self-contradictory schedule the engine must refuse rather
/// than guess.
pub open spec fn sched_bad(c: Component) -> bool {
    ||| c.activation_duration is Some && c.activation_interval is None
    ||| c.activation_interval is Some && c.activation_duration is None
}

/// The first mixed-configuration fault in the component list, if any: the
/// error names the absent half of the schedule.
pub open spec fn sched_fault(cs: Seq<Component>) -> Option<SimError>
    decreases cs.len(),
{
    if cs.len() == 0 {
        None
    } else if sched_bad(cs[0]) {
        if cs[0].activation_interval is None {
            Some(SimError::MissingField(Field::ActivationInterval))
        } else {
            Some(SimError::MissingField(Field::ActivationDuration))
        }
    } else {
        sched_fault(cs.drop_first())
    }
}

/// The scheduler's next activation state for one component: activate when
/// the time reaches a multiple of the interval outside safe mode, deactivate
/// once the time within the cycle reaches the duration or whenever safe mode
/// holds; a component without a duration, or with a nonpositive interval,
/// only ever leaves the active state under safe mode.
pub open spec fn sched_next_active(c: Component, now: int, safe: bool) -> bool
    recommends
        !sched_bad(c),
{
    if c.activation_duration is None {
        c.active
    } else {
        let ib = c.activation_interval->Some_0.bits as int;
        let db = c.activation_duration->Some_0.bits as int;
        if ib <= 0 {
            if safe {
                false
            } else {
                c.active
            }
        } else {
            let m = now % ib;
            let a1 = if m == 0 && !safe {
                true
            } else {
                c.active
            };
            if m >= db || safe {
                false
            } else {
                a1
            }
        }
    }
}

/// Law: under safe mode every duty-cycled component is inactive after the
/// scheduler runs, whatever the time and its previous state.
pub proof fn lemma_safe_mode_forces_off(c: Component, now: int)
    requires
        !sched_bad(c),
        c.activation_duration is Some,
    ensures
        sched_next_active(c, now, true) == false,
{
}

impl CubeSat {
    /// Run the duty-cycle scheduler over all components at the given time.
    /// A duration without an interval is a fatal misconfiguration; then, and
    /// when no component list is set, nothing changes.
    pub fn update_active_components(&mut self, time: &Fx, safe_mode: bool) -> (r: Result<
        (),
        SimError,
    >)
        ensures
            old(self).components is None ==> r == Err::<(), SimError>(
                SimError::MissingField(Field::Components),
            ) && *final(self) == *old(self),
            old(self).components is Some ==> ({
                let cs = old(self).components->Some_0@;
                if sched_fault(cs) is Some {
                    r == Err::<(), SimError>(sched_fault(cs)->Some_0) && *final(self) == *old(self)
                } else {
                    &&& r == Ok::<(), SimError>(())
                    &&& *final(self) == (CubeSat { components: final(self).components, ..*old(self) })
                    &&& final(self).components is Some
                    &&& final(self).components->Some_0@ == cs.map_values(
                        |c: Component|
                            Component { active: sched_next_active(c, time.bits as int, safe_mode), ..c },
                    )
                }
            }),
    {
        let ghost target_map = |c: Component|
            Component { active: sched_next_active(c, time.bits as int, safe_mode), ..c };
        if self.components.is_none() {
            return Err(SimError::MissingField(Field::Components));
        }
        let n = match &self.components {
            Some(cs) => cs.len(),
            None => 0,
        };
        proof {
            assert(self.components->Some_0@.skip(0) =~= self.components->Some_0@);
        }
        let mut j: usize = 0;
        while j < n
            invariant
                j <= n,
                self.components is Some,
                n == self.components->Some_0@.len(),
                *self == *old(self),
                sched_fault(self.components->Some_0@.skip(j as int)) == sched_fault(
                    self.components->Some_0@,
                ),
                forall|k: int| 0 <= k < j ==> !sched_bad(#[trigger] self.components->Some_0@[k]),
            decreases n - j,
        {
            proof {
                assert(self.components->Some_0@.skip(j as int)[0] == self.components->Some_0@[
                    j as int
                ]);
                assert(self.components->Some_0@.skip(j as int).drop_first()
                    =~= self.components->Some_0@.skip(j + 1));
            }
            let (has_interval, has_duration) = match &self.components {
                Some(cs) => (cs[j].activation_interval.is_some(), cs[j].activation_duration.is_some()),
                None => (false, false),
            };
            if has_duration && !has_interval {
                return Err(SimError::MissingField(Field::ActivationInterval));
            }
            if has_interval && !has_duration {
                return Err(SimError::MissingField(Field::ActivationDuration));
            }
            j = j + 1;
        }
        proof {
            assert(self.components->Some_0@.skip(n as int) =~= Seq::<Component>::empty());
        }
        let ghost orig = self.components->Some_0@;
        let taken = self.components.take();
        let mut olds = match taken {
            Some(v) => v,
            None => Vec::new(),
        };
        let mut updated: Vec<Component> = Vec::new();
        proof {
            assert(orig.take(0) =~= Seq::<Component>::empty());
            assert(updated@ =~= orig.take(0).map_values(target_map));
        }
        let total = olds.len();
        let mut i: usize = 0;
        while i < total
            invariant
                i <= total,
                total == orig.len(),
                olds@ == orig.skip(i as int),
                updated@ == orig.take(i as int).map_values(target_map),
                forall|k: int| 0 <= k < orig.len() ==> !sched_bad(#[trigger] orig[k]),
                target_map == (|c: Component|
                    Component { active: sched_next_active(c, time.bits as int, safe_mode), ..c }),
            decreases total - i,
        {
            let c = olds.remove(0);
            let na: bool = match (c.activation_interval, c.activation_duration) {
                (_, None) => c.active,
                (Some(ib), Some(db)) => {
                    if ib.bits <= 0 {
                        if safe_mode {
                            false
                        } else {
                            c.active
                        }
                    } else {
                        let m = (*time).rem_euclid(ib);
                        let a1 = if m.bits == 0 && !safe_mode {
                            true
                        } else {
                            c.active
                        };
                        if m.bits >= db.bits || safe_mode {
                            false
                        } else {
                            a1
                        }
                    }
                },
                (None, Some(_)) => {
                    proof {
                        assert(sched_bad(orig[i as int]));
                        assert(false);
                    }
                    c.active
                },
            };
            updated.push(Component { active: na, ..c });
            proof {
                assert(orig.skip(i as int).drop_first() =~= orig.skip(i + 1));
                assert(orig.take((i + 1) as int) =~= orig.take(i as int).push(orig[i as int]));
                assert(updated@ =~= orig.take((i + 1) as int).map_values(target_map));
            }
            i = i + 1;
        }
        proof {
            assert(orig.take(orig.len() as int) =~= orig);
        }
        self.components = Some(updated);
        Ok(())
    }
}

/// Componentwise bit bound accepted for positions in the eclipse test: 2^59.
pub const POS_BOUND: i64 = 0x800_0000_0000_0000;

/// The shadow decision on given position and sunlight-direction vectors:
/// the perpendicular offset of the satellite from the shadow axis,
/// `|pos| sin(angle)` computed as `|pos| sqrt(1 - cos^2)`, lies within the
/// planet's radius, and the satellite is downstream of the planet (the
/// cosine fraction is positive).  A vanishing magnitude product is the
/// degenerate-geometry error.
pub open spec fn eclipse_spec(pos: Vector3, sun: Vector3, radius: int) -> Result<bool, SimError> {
    let m = mul_bits(mag_bits(pos), mag_bits(sun));
    if m == 0 {
        Err(SimError::Degenerate)
    } else {
        let inner = inner_frac(dot_bits(pos, sun), m);
        let sa = sqrt_bits(SCALE - mul_bits(inner, inner));
        let res = mul_bits(mag_bits(pos), sa);
        Ok(0 <= res <= radius && inner > 0)
    }
}

/// Law: a satellite on the day side — its position not downstream of the
/// planet along the sunlight direction, so the cosine fraction is not
/// positive — is never in eclipse, whatever its lateral offset.
pub proof fn lemma_day_side_never_eclipsed(pos: Vector3, sun: Vector3, radius: int)
    requires
        mul_bits(mag_bits(pos), mag_bits(sun)) != 0,
        inner_frac(dot_bits(pos, sun), mul_bits(mag_bits(pos), mag_bits(sun))) <= 0,
    ensures
        eclipse_spec(pos, sun, radius) == Ok::<bool, SimError>(false),
{
}

/// Law: a satellite directly behind the planet on the shadow axis, with the
/// sunlight direction a unit vector along that axis, is in eclipse.
pub proof fn lemma_shadow_axis_eclipsed(px: int, radius: int)
    requires
        SCALE <= px <= POS_BOUND,
        radius >= 0,
    ensures
        eclipse_spec(
            Vector3 { x: Fx { bits: px as i64 }, y: Fx { bits: 0 }, z: Fx { bits: 0 } },
            Vector3 { x: Fx { bits: SCALE }, y: Fx { bits: 0 }, z: Fx { bits: 0 } },
            radius,
        ) == Ok::<bool, SimError>(true),
{
    let pos = Vector3 { x: Fx { bits: px as i64 }, y: Fx { bits: 0 }, z: Fx { bits: 0 } };
    let sun = Vector3 { x: Fx { bits: SCALE }, y: Fx { bits: 0 }, z: Fx { bits: 0 } };
    assert(norm2(pos) == px * px);
    assert(norm2(sun) == (SCALE as int) * (SCALE as int));
    assert(px * px < (px + 1) * (px + 1) && 0 <= px * px) by (nonlinear_arith)
        requires
            px >= 0,
    ;
    assert((SCALE as int) * (SCALE as int) < ((SCALE as int) + 1) * ((SCALE as int) + 1))
        by (nonlinear_arith);
    crate::fx::lemma_isqrt_int(px * px, px);
    crate::fx::lemma_isqrt_int((SCALE as int) * (SCALE as int), SCALE as int);
    assert(mag_bits(pos) == px);
    assert(mag_bits(sun) == SCALE as int);
    assert(mul_bits(px, SCALE as int) == px) by {
        crate::vector::lemma_scale_cancel(px);
        crate::fx::lemma_mul_bits_comm(px, SCALE as int);
    }
    let m = mul_bits(mag_bits(pos), mag_bits(sun));
    assert(m == px);
    assert(dot_bits(pos, sun) == mul_bits(px, SCALE as int)) by {
        assert(px * (SCALE as int) + 0 * 0 + 0 * 0 == px * (SCALE as int));
    }
    assert(inner_frac(dot_bits(pos, sun), m) == SCALE as int);
    assert(mul_bits(SCALE as int, SCALE as int) == SCALE as int) by {
        crate::vector::lemma_scale_cancel(SCALE as int);
    }
    assert(sqrt_bits(0) == 0) by {
        crate::fx::lemma_isqrt_int(0, 0);
    }
    assert(mul_bits(px, 0) == 0) by {
        assert(px * 0 == 0) by (nonlinear_arith);
    }
}

/// Law: behind the planet along a unit sunlight direction, a satellite whose
/// lateral offset lies inside the shadow cylinder with a small margin — the
/// squared offset at least `2^90` bit units squared (a few meters) under the
/// squared radius — is in eclipse.  The margin absorbs the granularity of
/// the fixed-point magnitude, cosine fraction and root.
pub proof fn lemma_far_side_eclipsed(pos: Vector3, radius: int)
    requires
        bounded(pos, POS_BOUND as int),
        pos.x.bits >= SCALE,
        0 <= radius <= 0x7fff_ffff_ffff_ffff,
        pos.y.bits * pos.y.bits + pos.z.bits * pos.z.bits + 0x400_0000_0000_0000_0000_0000 <= radius
            * radius,
    ensures
        eclipse_spec(
            pos,
            Vector3 { x: Fx { bits: SCALE }, y: Fx { bits: 0 }, z: Fx { bits: 0 } },
            radius,
        ) == Ok::<bool, SimError>(true),
{
    let s = SCALE as int;
    let sun = Vector3 { x: Fx { bits: SCALE }, y: Fx { bits: 0 }, z: Fx { bits: 0 } };
    let px = pos.x.bits as int;
    let l2 = pos.y.bits * pos.y.bits + pos.z.bits * pos.z.bits;
    let n2 = norm2(pos);
    assert(n2 == px * px + l2);
    assert(pos.y.bits * pos.y.bits + pos.z.bits * pos.z.bits >= 0 && px * px >= 0)
        by (nonlinear_arith);
    crate::fx::lemma_isqrt_bounds(n2);
    let mag = mag_bits(pos);
    assert(n2 <= 3 * 0x800_0000_0000_0000 * 0x800_0000_0000_0000) by (nonlinear_arith)
        requires
            bounded(pos, 0x800_0000_0000_0000),
            n2 == norm2(pos),
    ;
    lemma_mag_bound(pos, POS_BOUND as int);
    // The sun is a unit vector and the magnitude product is the magnitude.
    assert(sun.x.bits * sun.x.bits + sun.y.bits * sun.y.bits + sun.z.bits * sun.z.bits == s * s
        && s * s < (s + 1) * (s + 1) && 0 <= s * s) by (nonlinear_arith)
        requires
            sun.x.bits == 0x1_0000_0000i64,
            sun.y.bits == 0i64,
            sun.z.bits == 0i64,
            s == 0x1_0000_0000,
    ;
    assert(norm2(sun) == s * s);
    crate::fx::lemma_isqrt_int(s * s, s);
    assert(mag_bits(sun) == s);
    assert(mul_bits(mag, s) == mag) by {
        crate::vector::lemma_scale_cancel(mag);
        crate::fx::lemma_mul_bits_comm(mag, s);
    }
    let m = mul_bits(mag_bits(pos), mag_bits(sun));
    // The magnitude is at least the downstream component, so at least one.
    assert(mag >= px) by (nonlinear_arith)
        requires
            0 <= px,
            0 <= mag,
            px * px <= n2,
            n2 < (mag + 1) * (mag + 1),
    ;
    assert(m == mag && m > 0);
    // The dot product is exactly the downstream component.
    assert(dot_bits(pos, sun) == px) by {
        assert(pos.x.bits * sun.x.bits + pos.y.bits * sun.y.bits + pos.z.bits * sun.z.bits == s
            * px) by (nonlinear_arith)
            requires
                sun.x.bits == 0x1_0000_0000i64,
                sun.y.bits == 0i64,
                sun.z.bits == 0i64,
                s == 0x1_0000_0000,
                px == pos.x.bits as int,
        ;
        assert(s * px >= 0) by (nonlinear_arith)
            requires
                s >= 0,
                px >= 0,
        ;
        vstd::arithmetic::div_mod::lemma_div_multiples_vanish(px, s);
    }
    let inner = inner_frac(dot_bits(pos, sun), m);
    if px >= mag {
        // Directly on the axis at this granularity: the fraction is one and
        // the offset is zero.
        assert(inner == s);
        assert(mul_bits(s, s) == s) by {
            crate::vector::lemma_scale_cancel(s);
        }
        assert(sqrt_bits(0) == 0) by {
            crate::fx::lemma_isqrt_int(0, 0);
        }
        assert(mul_bits(mag, 0) == 0) by (nonlinear_arith);
    } else {
        assert(inner == (px * s) / mag) by {
            assert(px * s >= 0) by (nonlinear_arith)
                requires
                    px >= 0,
                    s >= 0,
            ;
        }
        vstd::arithmetic::div_mod::lemma_fundamental_div_mod(px * s, mag);
        vstd::arithmetic::div_mod::lemma_mod_division_less_than_divisor(px * s, mag);
        // The fraction is positive: a meter downstream outweighs any
        // magnitude in range.
        assert(px * s >= mag) by (nonlinear_arith)
            requires
                px >= s,
                s == 0x1_0000_0000,
                mag <= 2 * 0x800_0000_0000_0000,
        ;
        assert(inner >= 1) by {
            vstd::arithmetic::div_mod::lemma_div_is_ordered(mag, px * s, mag);
            vstd::arithmetic::div_mod::lemma_div_by_self(mag);
        }
        lemma_small_quotient(px, mag);
        assert(1 <= inner < s);
        // The scaled square of the fraction.
        let i2 = mul_bits(inner, inner);
        assert(i2 == (inner * inner) / s) by {
            assert(inner * inner >= 0) by (nonlinear_arith);
        }
        vstd::arithmetic::div_mod::lemma_fundamental_div_mod(inner * inner, s);
        vstd::arithmetic::div_mod::lemma_mod_division_less_than_divisor(inner * inner, s);
        assert(0 <= i2) by {
            vstd::arithmetic::div_mod::lemma_div_pos_is_pos(inner * inner, s);
        }
        assert(i2 <= s) by {
            assert(inner * inner <= s * s) by (nonlinear_arith)
                requires
                    0 <= inner < s,
            ;
            vstd::arithmetic::div_mod::lemma_div_is_ordered(inner * inner, s * s, s);
            vstd::arithmetic::div_mod::lemma_div_multiples_vanish(s, s);
        }
        // The residual sine and the offset.
        assert((s - i2) * s >= 0) by (nonlinear_arith)
            requires
                i2 <= s,
                s >= 0,
        ;
        crate::fx::lemma_isqrt_bounds((s - i2) * s);
        let sa = sqrt_bits(s - i2);
        let res = mul_bits(mag, sa);
        assert(res == (mag * sa) / s) by {
            assert(mag * sa >= 0) by (nonlinear_arith)
                requires
                    mag >= 0,
                    sa >= 0,
            ;
        }
        vstd::arithmetic::div_mod::lemma_fundamental_div_mod(mag * sa, s);
        vstd::arithmetic::div_mod::lemma_mod_division_less_than_divisor(mag * sa, s);
        assert(res >= 0) by {
            vstd::arithmetic::div_mod::lemma_div_pos_is_pos(mag * sa, s);
        }
        // Toward a bound on the offset: square the chain.
        assert(res * s <= mag * sa);
        if res > radius {
            let rr = radius + 1;
            assert(rr * s <= res * s) by (nonlinear_arith)
                requires
                    rr <= res,
                    s > 0,
            ;
            assert((rr * s) * (rr * s) <= (mag * sa) * (mag * sa)) by (nonlinear_arith)
                requires
                    0 <= rr * s,
                    rr * s <= mag * sa,
            ;
            assert((mag * sa) * (mag * sa) <= (mag * mag) * ((s - i2) * s)) by (nonlinear_arith)
                requires
                    sa * sa <= (s - i2) * s,
                    mag >= 0,
                    sa >= 0,
            ;
            // Replace the scaled square of the fraction by its lower bound.
            assert(i2 * s >= inner * inner - s) by (nonlinear_arith)
                requires
                    inner * inner < (i2 + 1) * s,
                    s > 0,
            ;
            assert((mag * mag) * ((s - i2) * s) <= (mag * mag) * (s * s) + (mag * mag) * s - (mag
                * inner) * (mag * inner)) by (nonlinear_arith)
                requires
                    i2 * s >= inner * inner - s,
                    mag >= 0,
            ;
            // Replace the fraction by its lower bound in terms of the
            // downstream component.
            assert(mag * inner >= px * s - mag) by (nonlinear_arith)
                requires
                    px * s == mag * inner + (px * s) % mag,
                    (px * s) % mag < mag,
            ;
            assert((mag * inner) * (mag * inner) >= (px * s - mag) * (px * s - mag))
                by (nonlinear_arith)
                requires
                    mag * inner >= px * s - mag,
                    px * s - mag >= 0,
            ;
            assert((rr * s) * (rr * s) <= (mag * mag) * (s * s) + (mag * mag) * s - (px * s - mag)
                * (px * s - mag)) by (nonlinear_arith)
                requires
                    (rr * s) * (rr * s) <= (mag * mag) * ((s - i2) * s),
                    (mag * mag) * ((s - i2) * s) <= (mag * mag) * (s * s) + (mag * mag) * s - (mag
                        * inner) * (mag * inner),
                    (mag * inner) * (mag * inner) >= (px * s - mag) * (px * s - mag),
            ;
            // Expand and absorb the cross terms into the slack.
            assert((px * s - mag) * (px * s - mag) >= (px * px) * (s * s) - 2 * ((mag * mag) * s))
                by (nonlinear_arith)
                requires
                    0 <= px <= mag,
                    s >= 0,
            ;
            assert((rr * s) * (rr * s) <= (mag * mag) * (s * s) - (px * px) * (s * s) + 3 * ((mag
                * mag) * s)) by (nonlinear_arith)
                requires
                    (rr * s) * (rr * s) <= (mag * mag) * (s * s) + (mag * mag) * s - (px * s - mag)
                        * (px * s - mag),
                    (px * s - mag) * (px * s - mag) >= (px * px) * (s * s) - 2 * ((mag * mag) * s),
            ;
            assert((mag * mag) * (s * s) - (px * px) * (s * s) <= l2 * (s * s))
                by (nonlinear_arith)
                requires
                    mag * mag <= px * px + l2,
                    s * s >= 0,
            ;
            assert((rr * s) * (rr * s) <= l2 * (s * s) + 3 * ((mag * mag) * s));
            assert(3 * ((mag * mag) * s) <= 0x400_0000_0000_0000_0000_0000 * (s * s))
                by (nonlinear_arith)
                requires
                    mag * mag <= n2,
                    n2 <= 3 * 0x800_0000_0000_0000 * 0x800_0000_0000_0000,
                    s == 0x1_0000_0000,
            ;
            assert((rr * s) * (rr * s) <= (l2 + 0x400_0000_0000_0000_0000_0000) * (s * s))
                by (nonlinear_arith)
                requires
                    (rr * s) * (rr * s) <= l2 * (s * s) + 0x400_0000_0000_0000_0000_0000 * (s * s),
            ;
            assert(rr * rr <= l2 + 0x400_0000_0000_0000_0000_0000) by (nonlinear_arith)
                requires
                    (rr * s) * (rr * s) <= (l2 + 0x400_0000_0000_0000_0000_0000) * (s * s),
                    s > 0,
            ;
            assert(rr * rr <= radius * radius);
            assert(false) by (nonlinear_arith)
                requires
                    rr == radius + 1,
                    radius >= 0,
                    rr * rr <= radius * radius,
            ;
        }
        assert(0 <= res <= radius);
    }
}

/// The total generated power over all panels, or the first error: missing
/// hardware, out-of-range vectors, degenerate geometry, or a sum leaving
/// the representable range.  In eclipse the generation is zero regardless
/// of geometry.
pub open spec fn generation_fold(
    panels: Seq<SolarPanel>,
    rot: Vector3,
    sun: Vector3,
    acc: int,
) -> Result<int, SimError>
    decreases panels.len(),
{
    if panels.len() == 0 {
        Ok(acc)
    } else {
        match panel_gain_spec(panels[0], rot, sun) {
            Err(e) => Err(e),
            Ok(gain) => if !i64_fits(acc + gain) {
                Err(SimError::OutOfRange)
            } else {
                generation_fold(panels.drop_first(), rot, sun, acc + gain)
            },
        }
    }
}

/// What the power computation yields for the whole satellite.
pub open spec fn generation_spec(
    panels: Option<Vec<SolarPanel>>,
    rot: Option<Vector3>,
    sun: Option<Vector3>,
    pos: Option<Vector3>,
    radius: int,
) -> Result<int, SimError> {
    if panels is None {
        Err(SimError::MissingField(Field::SolarPanels))
    } else if sun is None {
        Err(SimError::MissingField(Field::Sun))
    } else if rot is None {
        Err(SimError::MissingField(Field::Rotation))
    } else if pos is None {
        Err(SimError::MissingField(Field::Position))
    } else if !bounded(pos->Some_0, POS_BOUND as int) || !bounded(
        sun->Some_0,
        SUN_BOUND as int,
    ) {
        Err(SimError::OutOfRange)
    } else {
        match eclipse_spec(pos->Some_0, sun->Some_0, radius) {
            Err(e) => Err(e),
            Ok(true) => Ok(0),
            Ok(false) => generation_fold(panels->Some_0@, rot->Some_0, sun->Some_0, 0),
        }
    }
}

/// The summed component and baseline draw, or the first error: an active
/// component without an active draw, or a sum leaving the representable
/// range.
pub open spec fn consumption_fold(cs: Seq<Component>, acc: int) -> Result<int, SimError>
    decreases cs.len(),
{
    if cs.len() == 0 {
        Ok(acc)
    } else {
        let c = cs[0];
        if c.active && c.consumption_active is None {
            Err(SimError::MissingField(Field::ActiveConsumption))
        } else {
            let d = if c.active {
                c.consumption_active->Some_0.bits as int
            } else {
                c.consumption_passive.bits as int
            };
            if !i64_fits(acc + d) {
                Err(SimError::OutOfRange)
            } else {
                consumption_fold(cs.drop_first(), acc + d)
            }
        }
    }
}

/// What the consumption computation yields: the baseline draw of the power
/// system, if any, plus each component's current draw.
pub open spec fn consumption_spec(sat: CubeSat) -> Result<int, SimError> {
    let base = if sat.eps is Some {
        sat.eps->Some_0.consumption.bits as int
    } else {
        0
    };
    if sat.components is Some {
        consumption_fold(sat.components->Some_0@, base)
    } else {
        Ok(base)
    }
}

/// The battery's fill as a percentage: a hundred times the charge over the
/// capacity.
pub open spec fn battery_pct_spec(e: Eps) -> Result<int, SimError> {
    if !i64_fits(100 * e.charge.bits) {
        Err(SimError::OutOfRange)
    } else if e.max_charge.bits == 0 {
        Err(SimError::Degenerate)
    } else if !i64_fits(div_bits(100 * e.charge.bits, e.max_charge.bits as int)) {
        Err(SimError::OutOfRange)
    } else {
        Ok(div_bits(100 * e.charge.bits, e.max_charge.bits as int))
    }
}

/// The new safe-mode flag after the safety check, or its error: recomputed
/// fresh from the battery percentage against the limit, untouched when no
/// limit is set.
pub open spec fn safety_outcome(sat: CubeSat) -> Result<bool, SimError> {
    if sat.safe_limit is None {
        Ok(sat.safe_mode)
    } else if sat.eps is None {
        Err(SimError::MissingField(Field::Eps))
    } else {
        match battery_pct_spec(sat.eps->Some_0) {
            Ok(v) => Ok(v <= sat.safe_limit->Some_0.bits),
            Err(e) => Err(e),
        }
    }
}

impl CubeSat {
    /// Whether the satellite stands in the planet's shadow.
    pub fn in_eclipse(&self, env: &Physics) -> (r: Result<bool, SimError>)
        requires
            env.wf(),
        ensures
            self.sun is None ==> r == Err::<bool, SimError>(SimError::MissingField(Field::Sun)),
            self.sun is Some && self.pos is None ==> r == Err::<bool, SimError>(
                SimError::MissingField(Field::Position),
            ),
            self.sun is Some && self.pos is Some ==> ({
                let pos = self.pos->Some_0;
                let sun = self.sun->Some_0;
                if !bounded(pos, POS_BOUND as int) || !bounded(sun, SUN_BOUND as int) {
                    r == Err::<bool, SimError>(SimError::OutOfRange)
                } else {
                    r == eclipse_spec(pos, sun, env.radius.bits as int)
                }
            }),
    {
        let sun = match self.sun {
            Some(s) => s,
            None => {
                return Err(SimError::MissingField(Field::Sun));
            },
        };
        let pos = match self.pos {
            Some(p) => p,
            None => {
                return Err(SimError::MissingField(Field::Position));
            },
        };
        if !pos.within(POS_BOUND) || !sun.within(SUN_BOUND) {
            return Err(SimError::OutOfRange);
        }
        proof {
            lemma_dot_fits(pos, sun, POS_BOUND as int, SUN_BOUND as int);
            lemma_mag_bound(pos, POS_BOUND as int);
            lemma_mag_bound(sun, SUN_BOUND as int);
            lemma_mul_bits_range(
                mag_bits(pos),
                mag_bits(sun),
                2 * POS_BOUND as int,
                2 * SUN_BOUND as int,
            );
            assert((2 * POS_BOUND as int) * (2 * SUN_BOUND as int) == 0x4000_0000_0000_0000
                * (SCALE as int)) by (nonlinear_arith);
            vstd::arithmetic::div_mod::lemma_div_multiples_vanish(
                0x4000_0000_0000_0000,
                SCALE as int,
            );
        }
        let mp = pos.abs();
        let ms = sun.abs();
        let m = mp.mul(ms);
        if m.bits == 0 {
            return Err(SimError::Degenerate);
        }
        proof {
            assert(mag_bits(pos) * mag_bits(sun) >= 0) by (nonlinear_arith)
                requires
                    mag_bits(pos) >= 0,
                    mag_bits(sun) >= 0,
            ;
            vstd::arithmetic::div_mod::lemma_div_pos_is_pos(
                mag_bits(pos) * mag_bits(sun),
                SCALE as int,
            );
        }
        let d = pos.dot(&sun);
        let inner: Fx = if d.bits >= m.bits {
            Fx { bits: SCALE }
        } else if d.bits <= -m.bits {
            Fx { bits: -SCALE }
        } else {
            proof {
                lemma_small_quotient(d.bits as int, m.bits as int);
            }
            d.div(m)
        };
        proof {
            lemma_mul_unit(inner.bits as int, inner.bits as int);
            assert(inner.bits as int * inner.bits as int >= 0) by (nonlinear_arith);
            vstd::arithmetic::div_mod::lemma_div_pos_is_pos(
                inner.bits as int * inner.bits as int,
                SCALE as int,
            );
        }
        let i2 = inner.mul(inner);
        let sa = Fx { bits: SCALE }.sub(i2).sqrt();
        proof {
            crate::fx::lemma_isqrt_bounds((SCALE as int - i2.bits) * (SCALE as int));
            assert((SCALE as int - i2.bits) * (SCALE as int) <= (SCALE as int) * (SCALE as int))
                by (nonlinear_arith)
                requires
                    i2.bits >= 0,
            ;
            assert(sqrt_bits(SCALE as int - i2.bits) <= SCALE as int) by (nonlinear_arith)
                requires
                    sqrt_bits(SCALE as int - i2.bits) >= 0,
                    sqrt_bits(SCALE as int - i2.bits) * sqrt_bits(SCALE as int - i2.bits) <= (
                    SCALE as int) * (SCALE as int),
            ;
            lemma_mul_unit(sa.bits as int, mag_bits(pos));
            crate::fx::lemma_mul_bits_comm(mag_bits(pos), sa.bits as int);
        }
        let res = mp.mul(sa);
        Ok(res.bits >= 0 && res.bits <= env.radius.bits && inner.bits > 0)
    }

    /// The total power the panels generate now: zero while eclipsed, else
    /// the sum of each panel's contribution.
    #[verifier::rlimit(100)]
    pub fn get_power_generation(&self, env: &Physics) -> (r: Result<Fx, SimError>)
        requires
            env.wf(),
        ensures
            match generation_spec(
                self.solar_panels,
                self.rot,
                self.sun,
                self.pos,
                env.radius.bits as int,
            ) {
                Ok(v) => i64_fits(v) && r == Ok::<Fx, SimError>(Fx { bits: v as i64 }),
                Err(e) => r == Err::<Fx, SimError>(e),
            },
    {
        if self.solar_panels.is_none() {
            return Err(SimError::MissingField(Field::SolarPanels));
        }
        let sun = match self.sun {
            Some(s) => s,
            None => {
                return Err(SimError::MissingField(Field::Sun));
            },
        };
        let rot = match self.rot {
            Some(v) => v,
            None => {
                return Err(SimError::MissingField(Field::Rotation));
            },
        };
        if self.pos.is_none() {
            return Err(SimError::MissingField(Field::Position));
        }
        let pos_ok = match self.pos {
            Some(p) => p.within(POS_BOUND),
            None => false,
        };
        if !pos_ok || !sun.within(SUN_BOUND) {
            return Err(SimError::OutOfRange);
        }
        let ecl = match self.in_eclipse(env) {
            Ok(b) => b,
            Err(e) => {
                return Err(e);
            },
        };
        if ecl {
            return Ok(Fx { bits: 0 });
        }
        let panels = match &self.solar_panels {
            Some(p) => p,
            None => {
                return Err(SimError::MissingField(Field::SolarPanels));
            },
        };
        let ghost pseq = self.solar_panels->Some_0@;
        let mut total = Fx { bits: 0 };
        let count = panels.len();
        proof {
            assert(pseq.skip(0) =~= pseq);
        }
        let mut i: usize = 0;
        while i < count
            invariant
                i <= count,
                count == pseq.len(),
                self.solar_panels is Some,
                pseq == self.solar_panels->Some_0@,
                panels@ == pseq,
                bounded(sun, SUN_BOUND as int),
                generation_fold(pseq.skip(i as int), rot, sun, total.bits as int)
                    == generation_fold(pseq, rot, sun, 0),
                generation_spec(
                    self.solar_panels,
                    self.rot,
                    self.sun,
                    self.pos,
                    env.radius.bits as int,
                ) == generation_fold(pseq, rot, sun, 0),
            decreases count - i,
        {
            proof {
                assert(pseq.skip(i as int).len() == count - i);
                assert(pseq.skip(i as int)[0] == pseq[i as int]);
            }
            let p = &panels[i];
            if !p.orientation.within(ORI_BOUND) {
                proof {
                    reveal(crate::component::panel_gain_spec);
                    assert(panel_gain_spec(pseq[i as int], rot, sun) == Err::<int, SimError>(
                        SimError::OutOfRange,
                    ));
                }
                return Err(SimError::OutOfRange);
            }
            let gain = match p.power_generation(&rot, &sun) {
                Ok(c) => c,
                Err(e) => {
                    return Err(e);
                },
            };
            let nt = match total.checked_add(gain) {
                Some(t) => t,
                None => {
                    return Err(SimError::OutOfRange);
                },
            };
            proof {
                assert(pseq.skip(i as int).drop_first() =~= pseq.skip(i + 1));
            }
            total = nt;
            i = i + 1;
        }
        proof {
            assert(pseq.skip(count as int) =~= Seq::<SolarPanel>::empty());
        }
        Ok(total)
    }

    /// The satellite's total draw: the power system's baseline plus each
    /// component's current consumption.
    pub fn get_power_consumption(&self) -> (r: Result<Fx, SimError>)
        ensures
            match consumption_spec(*self) {
                Ok(v) => i64_fits(v) && r == Ok::<Fx, SimError>(Fx { bits: v as i64 }),
                Err(e) => r == Err::<Fx, SimError>(e),
            },
    {
        let mut total: Fx = match self.eps {
            Some(e) => e.consumption,
            None => Fx { bits: 0 },
        };
        let cs = match &self.components {
            Some(c) => c,
            None => {
                return Ok(total);
            },
        };
        let ghost cseq = self.components->Some_0@;
        let count = cs.len();
        proof {
            assert(cseq.skip(0) =~= cseq);
        }
        let mut i: usize = 0;
        while i < count
            invariant
                i <= count,
                count == cseq.len(),
                self.components is Some,
                cseq == self.components->Some_0@,
                cs@ == cseq,
                consumption_fold(cseq.skip(i as int), total.bits as int) == consumption_fold(
                    cseq,
                    if self.eps is Some {
                        self.eps->Some_0.consumption.bits as int
                    } else {
                        0
                    },
                ),
                consumption_spec(*self) == consumption_fold(
                    cseq,
                    if self.eps is Some {
                        self.eps->Some_0.consumption.bits as int
                    } else {
                        0
                    },
                ),
            decreases count - i,
        {
            let c = &cs[i];
            let d: Fx = if c.active {
                match c.consumption_active {
                    Some(v) => v,
                    None => {
                        return Err(SimError::MissingField(Field::ActiveConsumption));
                    },
                }
            } else {
                c.consumption_passive
            };
            let nt = match total.checked_add(d) {
                Some(t) => t,
                None => {
                    return Err(SimError::OutOfRange);
                },
            };
            proof {
                assert(cseq.skip(i as int).drop_first() =~= cseq.skip(i + 1));
            }
            total = nt;
            i = i + 1;
        }
        proof {
            assert(cseq.skip(count as int) =~= Seq::<Component>::empty());
        }
        Ok(total)
    }

    /// The battery's fill percentage.
    pub fn battery_percentage(&self) -> (r: Result<Fx, SimError>)
        ensures
            self.eps is None ==> r == Err::<Fx, SimError>(SimError::MissingField(Field::Eps)),
            self.eps is Some ==> match battery_pct_spec(self.eps->Some_0) {
                Ok(v) => r == Ok::<Fx, SimError>(Fx { bits: v as i64 }),
                Err(e) => r == Err::<Fx, SimError>(e),
            },
    {
        let e = match self.eps {
            Some(e) => e,
            None => {
                return Err(SimError::MissingField(Field::Eps));
            },
        };
        proof {
            crate::fx::lemma_mul_by_whole(e.charge.bits as int, 100);
        }
        let hc = match e.charge.checked_mul(Fx::from_int(100)) {
            Some(v) => v,
            None => {
                return Err(SimError::OutOfRange);
            },
        };
        if e.max_charge.bits == 0 {
            return Err(SimError::Degenerate);
        }
        match hc.checked_div(e.max_charge) {
            Some(v) => Ok(v),
            None => Err(SimError::OutOfRange),
        }
    }

    /// Recompute safe mode from the battery percentage against the limit,
    /// fresh, with no latching.
    pub fn check_safety_limit(&mut self) -> (r: Result<(), SimError>)
        ensures
            match safety_outcome(*old(self)) {
                Ok(b) => r == Ok::<(), SimError>(()) && *final(self) == (CubeSat {
                    safe_mode: b,
                    ..*old(self)
                }),
                Err(e) => r == Err::<(), SimError>(e) && *final(self) == *old(self),
            },
    {
        let limit = match self.safe_limit {
            Some(l) => l,
            None => {
                return Ok(());
            },
        };
        let pct = match self.battery_percentage() {
            Ok(p) => p,
            Err(e) => {
                return Err(e);
            },
        };
        self.safe_mode = pct.bits <= limit.bits;
        Ok(())
    }
}

/// One Euler step of a value: the rate times the step added to the base,
/// with each stage's overflow reported.
pub open spec fn step_add(base: int, rate: int, step: int) -> Result<int, SimError> {
    if !i64_fits(mul_bits(rate, step)) {
        Err(SimError::OutOfRange)
    } else if !i64_fits(base + mul_bits(rate, step)) {
        Err(SimError::OutOfRange)
    } else {
        Ok(base + mul_bits(rate, step))
    }
}

/// The Euler update of the attitude state: the rotation advances by the
/// rotational velocity, then the rotational velocity by the rotational
/// acceleration, component by component.
pub open spec fn rotation_update_spec(rot: Vector3, vel: Vector3, acc: Vector3, step: int) -> Result<
    (Vector3, Vector3),
    SimError,
> {
    match step_add(rot.x.bits as int, vel.x.bits as int, step) {
        Err(e) => Err(e),
        Ok(rx) => match step_add(rot.y.bits as int, vel.y.bits as int, step) {
            Err(e) => Err(e),
            Ok(ry) => match step_add(rot.z.bits as int, vel.z.bits as int, step) {
                Err(e) => Err(e),
                Ok(rz) => match step_add(vel.x.bits as int, acc.x.bits as int, step) {
                    Err(e) => Err(e),
                    Ok(vx) => match step_add(vel.y.bits as int, acc.y.bits as int, step) {
                        Err(e) => Err(e),
                        Ok(vy) => match step_add(vel.z.bits as int, acc.z.bits as int, step) {
                            Err(e) => Err(e),
                            Ok(vz) => Ok(
                                (
                                    Vector3 {
                                        x: Fx { bits: rx as i64 },
                                        y: Fx { bits: ry as i64 },
                                        z: Fx { bits: rz as i64 },
                                    },
                                    Vector3 {
                                        x: Fx { bits: vx as i64 },
                                        y: Fx { bits: vy as i64 },
                                        z: Fx { bits: vz as i64 },
                                    },
                                ),
                            ),
                        },
                    },
                },
            },
        },
    }
}

/// One Euler step of a single component.
fn step_add_exec(base: Fx, rate: Fx, step: Fx) -> (r: Result<Fx, SimError>)
    ensures
        match step_add(base.bits as int, rate.bits as int, step.bits as int) {
            Ok(v) => r == Ok::<Fx, SimError>(Fx { bits: v as i64 }),
            Err(e) => r == Err::<Fx, SimError>(e),
        },
{
    let d = match rate.checked_mul(step) {
        Some(d) => d,
        None => {
            return Err(SimError::OutOfRange);
        },
    };
    match base.checked_add(d) {
        Some(s) => Ok(s),
        None => Err(SimError::OutOfRange),
    }
}

/// Seconds in a mean year: 365.25 days.
pub const YEAR_SECONDS: i64 = 31557600;

/// The sun direction precessed by one step: rotated about the z axis by a
/// full turn per year, scaled to the step.
pub open spec fn sun_rotation_spec(sun: Vector3, step: int) -> Result<Vector3, SimError> {
    if !bounded(sun, SUN_BOUND as int) {
        Err(SimError::OutOfRange)
    } else if !i64_fits(mul_bits(TAU_BITS as int, step)) {
        Err(SimError::OutOfRange)
    } else {
        Ok(
            rot_z_spec(
                sun,
                div_bits(mul_bits(TAU_BITS as int, step), (YEAR_SECONDS as int) * (SCALE as int)),
            ),
        )
    }
}

/// The updated component list of one tick, as a sequence.
pub open spec fn sched_map(cs: Seq<Component>, now: int, safe: bool) -> Seq<Component> {
    cs.map_values(|c: Component| Component { active: sched_next_active(c, now, safe), ..c })
}

/// The orbit outcome of one tick: the new position, velocity and
/// acceleration fields, or the error, by the selected model.  The parametric
/// model leaves the acceleration as it was.
pub open spec fn tick_orbit(pre: CubeSat, env: Physics) -> Result<
    (Option<Vector3>, Option<Vector3>, Option<Vector3>),
    SimError,
> {
    if pre.orbit_type is None {
        Err(SimError::MissingField(Field::OrbitType))
    } else if pre.orbit_type->Some_0 is CircularCosine {
        match circular_cosine_spec(pre, env.mu as int) {
            Err(e) => Err(e),
            Ok(t) => Ok((Some(t.0), Some(t.1), Some(t.2))),
        }
    } else {
        match parametric_spec(pre, env.mu as int) {
            Err(e) => Err(e),
            Ok(t) => Ok((Some(t.0), Some(t.1), pre.acc)),
        }
    }
}

/// The first fault one tick of the update sequence meets, judged from the
/// state before the tick, walking the fixed per-tick order: safety check,
/// component scheduling, orbit, attitude, sun precession, power balance into
/// the battery, clock advance.  `None` means the whole tick succeeds.
#[verifier::opaque]
pub open spec fn tick_err(pre: CubeSat, env: Physics) -> Option<SimError> {
    match safety_outcome(pre) {
        Err(e) => Some(e),
        Ok(safe2) => if pre.time is None {
            Some(SimError::MissingField(Field::Time))
        } else {
            let t = pre.time->Some_0;
            let now = t.now.bits as int;
            let step = t.step.bits as int;
            if pre.components is None {
                Some(SimError::MissingField(Field::Components))
            } else {
                match sched_fault(pre.components->Some_0@) {
                    Some(e) => Some(e),
                    None => {
                        let cs2 = sched_map(pre.components->Some_0@, now, safe2);
                        match tick_orbit(pre, env) {
                            Err(e) => Some(e),
                            Ok(kin) => if pre.rot_acc is None {
                                Some(SimError::MissingField(Field::RotationAcceleration))
                            } else if pre.rot_vel is None {
                                Some(SimError::MissingField(Field::RotationVelocity))
                            } else if pre.rot is None {
                                Some(SimError::MissingField(Field::Rotation))
                            } else {
                                match rotation_update_spec(
                                    pre.rot->Some_0,
                                    pre.rot_vel->Some_0,
                                    pre.rot_acc->Some_0,
                                    step,
                                ) {
                                    Err(e) => Some(e),
                                    Ok(rt) => if pre.sun is None {
                                        Some(SimError::MissingField(Field::Sun))
                                    } else {
                                        match sun_rotation_spec(pre.sun->Some_0, step) {
                                            Err(e) => Some(e),
                                            Ok(sun2) => match generation_spec(
                                                pre.solar_panels,
                                                Some(rt.0),
                                                Some(sun2),
                                                kin.0,
                                                env.radius.bits as int,
                                            ) {
                                                Err(e) => Some(e),
                                                Ok(g) => {
                                                    let base = if pre.eps is Some {
                                                        pre.eps->Some_0.consumption.bits as int
                                                    } else {
                                                        0
                                                    };
                                                    match consumption_fold(cs2, base) {
                                                        Err(e) => Some(e),
                                                        Ok(c) => if !i64_fits(g + c) {
                                                            Some(SimError::OutOfRange)
                                                        } else if pre.eps is None {
                                                            Some(
                                                                SimError::MissingField(Field::Eps),
                                                            )
                                                        } else if pre.eps->Some_0.max_charge.bits
                                                            < 0 {
                                                            Some(SimError::InvalidField(Field::Eps))
                                                        } else if !i64_fits(now + step) {
                                                            Some(SimError::OutOfRange)
                                                        } else {
                                                            None
                                                        },
                                                    }
                                                },
                                            },
                                        }
                                    },
                                }
                            },
                        }
                    },
                }
            }
        },
    }
}

/// How one successful tick relates the state after to the state before: the
/// recomputed safe-mode flag, the rescheduled components, the propagated
/// orbit, the Euler attitude step, the precessed sun, one history row of the
/// pre-power state, the battery integrated over the clamped power balance,
/// and the advanced clock — in that fixed order.
#[verifier::opaque]
pub open spec fn tick_rel(pre: CubeSat, post: CubeSat, env: Physics) -> bool
    recommends
        tick_err(pre, env) is None,
{
    let safe2 = safety_outcome(pre)->Ok_0;
    let t = pre.time->Some_0;
    let now = t.now.bits as int;
    let step = t.step.bits as int;
    let cs2 = sched_map(pre.components->Some_0@, now, safe2);
    let kin = tick_orbit(pre, env)->Ok_0;
    let rt = rotation_update_spec(
        pre.rot->Some_0,
        pre.rot_vel->Some_0,
        pre.rot_acc->Some_0,
        step,
    )->Ok_0;
    let sun2 = sun_rotation_spec(pre.sun->Some_0, step)->Ok_0;
    let g = generation_spec(
        pre.solar_panels,
        Some(rt.0),
        Some(sun2),
        kin.0,
        env.radius.bits as int,
    )->Ok_0;
    let base = if pre.eps is Some {
        pre.eps->Some_0.consumption.bits as int
    } else {
        0
    };
    let c = consumption_fold(cs2, base)->Ok_0;
    let eps1 = pre.eps->Some_0;
    let eps2 = Eps {
        consumption: eps1.consumption,
        charge: Fx {
            bits: updated_charge_bits(
                eps1.charge.bits as int,
                eps1.max_charge.bits as int,
                (g + c) as int,
                step,
            ) as i64,
        },
        max_charge: eps1.max_charge,
    };
    &&& post.name == pre.name
    &&& post.active == (pre.active && now < t.end.bits)
    &&& post.safe_mode == safe2
    &&& post.safe_limit == pre.safe_limit
    &&& post.orbit_type == pre.orbit_type
    &&& post.orbit_parameters == pre.orbit_parameters
    &&& post.time == Some(
        Time { now: Fx { bits: (now + step) as i64 }, step: t.step, start: t.start, end: t.end },
    )
    &&& post.pos == kin.0
    &&& post.vel == kin.1
    &&& post.acc == kin.2
    &&& post.rot == Some(rt.0)
    &&& post.rot_vel == Some(rt.1)
    &&& post.rot_acc == pre.rot_acc
    &&& post.sun == Some(sun2)
    &&& post.solar_panels == pre.solar_panels
    &&& post.eps == Some(eps2)
    &&& post.components is Some
    &&& post.components->Some_0@ == cs2
    &&& post.history.time@ == pre.history.time@.push(t.now)
    &&& post.history.pos@ == if kin.0 is Some {
        pre.history.pos@.push(triple(kin.0->Some_0))
    } else {
        pre.history.pos@
    }
    &&& post.history.vel@ == if kin.1 is Some {
        pre.history.vel@.push(triple(kin.1->Some_0))
    } else {
        pre.history.vel@
    }
    &&& post.history.acc@ == if kin.2 is Some {
        pre.history.acc@.push(triple(kin.2->Some_0))
    } else {
        pre.history.acc@
    }
    &&& post.history.rot@ == pre.history.rot@.push(triple(rt.0))
    &&& post.history.rot_vel@ == pre.history.rot_vel@.push(triple(rt.1))
    &&& post.history.rot_acc@ == pre.history.rot_acc@.push(triple(pre.rot_acc->Some_0))
    &&& post.history.sun@ == pre.history.sun@.push(triple(sun2))
    &&& post.history.charge@ == pre.history.charge@.push(eps1.charge)
}

/// `post` is the state exactly `n` ticks after `pre`: each tick starts from
/// an active state with a valid clock, meets no fault, and steps by the
/// tick relation.
pub open spec fn runs_to(pre: CubeSat, post: CubeSat, env: Physics, n: nat) -> bool
    decreases n,
{
    if n == 0 {
        post == pre
    } else {
        exists|mid: CubeSat|
            #![trigger tick_rel(mid, post, env)]
            (runs_to(pre, mid, env, (n - 1) as nat) && mid.active && mid.time is Some
                && mid.time->Some_0.step.bits > 0 && tick_err(mid, env) is None && tick_rel(
                mid,
                post,
                env,
            ))
    }
}

/// Law: the history gains exactly one row per tick: a run of `n` ticks
/// appends `n` samples to every column that is recorded throughout.
pub proof fn lemma_run_history_rows(pre: CubeSat, post: CubeSat, env: Physics, n: nat)
    requires
        runs_to(pre, post, env, n),
    ensures
        post.history.time@.len() == pre.history.time@.len() + n,
        post.history.charge@.len() == pre.history.charge@.len() + n,
    decreases n,
{
    reveal(tick_rel);
    if n != 0 {
        let mid = choose|mid: CubeSat|
            #![trigger tick_rel(mid, post, env)]
            (runs_to(pre, mid, env, (n - 1) as nat) && mid.active && mid.time is Some
                && mid.time->Some_0.step.bits > 0 && tick_err(mid, env) is None && tick_rel(
                mid,
                post,
                env,
            ));
        lemma_run_history_rows(pre, mid, env, (n - 1) as nat);
    }
}

/// Law: across a run the battery's capacity and baseline consumption never
/// change, and after any tick the charge lies within `[0, capacity]` — the
/// clamped integration maintains the energy-store invariant at every
/// observable point.
pub proof fn lemma_run_keeps_battery(pre: CubeSat, post: CubeSat, env: Physics, n: nat)
    requires
        runs_to(pre, post, env, n),
    ensures
        n > 0 ==> post.eps is Some && 0 <= post.eps->Some_0.charge.bits
            <= post.eps->Some_0.max_charge.bits,
        pre.eps is Some ==> post.eps is Some && post.eps->Some_0.max_charge
            == pre.eps->Some_0.max_charge && post.eps->Some_0.consumption
            == pre.eps->Some_0.consumption,
    decreases n,
{
    reveal(tick_rel);
    reveal(tick_err);
    if n != 0 {
        let mid = choose|mid: CubeSat|
            #![trigger tick_rel(mid, post, env)]
            (runs_to(pre, mid, env, (n - 1) as nat) && mid.active && mid.time is Some
                && mid.time->Some_0.step.bits > 0 && tick_err(mid, env) is None && tick_rel(
                mid,
                post,
                env,
            ));
        lemma_run_keeps_battery(pre, mid, env, (n - 1) as nat);
        assert(mid.eps is Some && mid.eps->Some_0.max_charge.bits >= 0);
    }
}

/// Law: the clock advances by exactly one step per tick: after a run of `n`
/// ticks the time has moved `n` steps past where it began, with the step
/// and the horizon untouched, and each tick but the last started strictly
/// inside the horizon.
/// A fault-free tick presupposes a clock whose next step fits.
proof fn lemma_tick_err_none_clock_fits(a: CubeSat, env: Physics)
    requires
        tick_err(a, env) is None,
    ensures
        a.time is Some,
        i64_fits(a.time->Some_0.now.bits + a.time->Some_0.step.bits),
{
    reveal(tick_err);
}

/// One tick's effect on the clock fields alone.
proof fn lemma_tick_rel_clock(a: CubeSat, b: CubeSat, env: Physics)
    requires
        tick_rel(a, b, env),
    ensures
        b.time == Some(
            Time {
                now: Fx {
                    bits: (a.time->Some_0.now.bits + a.time->Some_0.step.bits) as i64,
                },
                step: a.time->Some_0.step,
                start: a.time->Some_0.start,
                end: a.time->Some_0.end,
            },
        ),
{
    reveal(tick_rel);
}

pub proof fn lemma_run_advances_clock(pre: CubeSat, post: CubeSat, env: Physics, n: nat)
    requires
        runs_to(pre, post, env, n),
        pre.time is Some,
    ensures
        post.time is Some,
        post.time->Some_0.step == pre.time->Some_0.step,
        post.time->Some_0.end == pre.time->Some_0.end,
        post.time->Some_0.now.bits == pre.time->Some_0.now.bits + n * pre.time->Some_0.step.bits,
    decreases n,
{
    if n != 0 {
        let mid = choose|mid: CubeSat|
            #![trigger tick_rel(mid, post, env)]
            (runs_to(pre, mid, env, (n - 1) as nat) && mid.active && mid.time is Some
                && mid.time->Some_0.step.bits > 0 && tick_err(mid, env) is None && tick_rel(
                mid,
                post,
                env,
            ));
        lemma_run_advances_clock(pre, mid, env, (n - 1) as nat);
        lemma_tick_err_none_clock_fits(mid, env);
        lemma_tick_rel_clock(mid, post, env);
        assert(n * pre.time->Some_0.step.bits == (n - 1) * pre.time->Some_0.step.bits
            + pre.time->Some_0.step.bits) by (nonlinear_arith);
    }
}

/// One more successful tick extends a run.
pub proof fn lemma_runs_to_step(pre: CubeSat, mid: CubeSat, post: CubeSat, env: Physics, k: nat)
    requires
        runs_to(pre, mid, env, k),
        mid.active,
        mid.time is Some,
        mid.time->Some_0.step.bits > 0,
        tick_err(mid, env) is None,
        tick_rel(mid, post, env),
    ensures
        runs_to(pre, post, env, k + 1),
{
    assert(((k + 1) as nat - 1) as nat == k);
    assert(runs_to(pre, mid, env, ((k + 1) as nat - 1) as nat));
    assert(runs_to(pre, post, env, k + 1));
}

impl CubeSat {
    /// Propagate the orbit with the selected model.
    pub fn update_orbit(&mut self, env: &Physics) -> (r: Result<(), SimError>)
        requires
            env.wf(),
        ensures
            old(self).orbit_type is None ==> r == Err::<(), SimError>(
                SimError::MissingField(Field::OrbitType),
            ) && *final(self) == *old(self),
            old(self).orbit_type is Some && old(self).orbit_type->Some_0 is CircularCosine
                ==> (match circular_cosine_spec(
                *old(self),
                env.mu as int,
            ) {
                Ok(t) => r == Ok::<(), SimError>(()) && *final(self) == (CubeSat {
                    pos: Some(t.0),
                    vel: Some(t.1),
                    acc: Some(t.2),
                    ..*old(self)
                }),
                Err(e) => r == Err::<(), SimError>(e) && *final(self) == *old(self),
            }),
            old(self).orbit_type is Some && old(self).orbit_type->Some_0 is Parametric ==> (
            match parametric_spec(
                *old(self),
                env.mu as int,
            ) {
                Ok(t) => r == Ok::<(), SimError>(()) && *final(self) == (CubeSat {
                    pos: Some(t.0),
                    vel: Some(t.1),
                    ..*old(self)
                }),
                Err(e) => r == Err::<(), SimError>(e) && *final(self) == *old(self),
            }),
    {
        match self.orbit_type {
            None => Err(SimError::MissingField(Field::OrbitType)),
            Some(OrbitType::CircularCosine) => orbit_circular_cosine(self, env),
            Some(OrbitType::Parametric) => orbit_parametric(self, env),
        }
    }

    /// Advance the attitude state one Euler step.
    pub fn update_rotation(&mut self) -> (r: Result<(), SimError>)
        ensures
            old(self).time is None ==> r == Err::<(), SimError>(
                SimError::MissingField(Field::Time),
            ) && *final(self) == *old(self),
            old(self).time is Some && old(self).rot_acc is None ==> r == Err::<(), SimError>(
                SimError::MissingField(Field::RotationAcceleration),
            ) && *final(self) == *old(self),
            old(self).time is Some && old(self).rot_acc is Some && old(self).rot_vel is None ==> r
                == Err::<(), SimError>(SimError::MissingField(Field::RotationVelocity)) && *final(self) == *old(self),
            old(self).time is Some && old(self).rot_acc is Some && old(self).rot_vel is Some && old(self).rot is None ==> r == Err::<(), SimError>(SimError::MissingField(Field::Rotation))
                && *final(self) == *old(self),
            old(self).time is Some && old(self).rot_acc is Some && old(self).rot_vel is Some && old(self).rot is Some ==> (match rotation_update_spec(
                old(self).rot->Some_0,
                old(self).rot_vel->Some_0,
                old(self).rot_acc->Some_0,
                old(self).time->Some_0.step.bits as int,
            ) {
                Ok(t) => r == Ok::<(), SimError>(()) && *final(self) == (CubeSat {
                    rot: Some(t.0),
                    rot_vel: Some(t.1),
                    ..*old(self)
                }),
                Err(e) => r == Err::<(), SimError>(e) && *final(self) == *old(self),
            }),
    {
        let step = match self.time {
            Some(t) => t.step,
            None => {
                return Err(SimError::MissingField(Field::Time));
            },
        };
        let acc = match self.rot_acc {
            Some(a) => a,
            None => {
                return Err(SimError::MissingField(Field::RotationAcceleration));
            },
        };
        let vel = match self.rot_vel {
            Some(v) => v,
            None => {
                return Err(SimError::MissingField(Field::RotationVelocity));
            },
        };
        let rot = match self.rot {
            Some(v) => v,
            None => {
                return Err(SimError::MissingField(Field::Rotation));
            },
        };
        let rx = match step_add_exec(rot.x, vel.x, step) {
            Ok(v) => v,
            Err(e) => {
                return Err(e);
            },
        };
        let ry = match step_add_exec(rot.y, vel.y, step) {
            Ok(v) => v,
            Err(e) => {
                return Err(e);
            },
        };
        let rz = match step_add_exec(rot.z, vel.z, step) {
            Ok(v) => v,
            Err(e) => {
                return Err(e);
            },
        };
        let vx = match step_add_exec(vel.x, acc.x, step) {
            Ok(v) => v,
            Err(e) => {
                return Err(e);
            },
        };
        let vy = match step_add_exec(vel.y, acc.y, step) {
            Ok(v) => v,
            Err(e) => {
                return Err(e);
            },
        };
        let vz = match step_add_exec(vel.z, acc.z, step) {
            Ok(v) => v,
            Err(e) => {
                return Err(e);
            },
        };
        self.rot = Some(Vector3 { x: rx, y: ry, z: rz });
        self.rot_vel = Some(Vector3 { x: vx, y: vy, z: vz });
        Ok(())
    }

    /// Precess the sun direction by one step's worth of a yearly turn.
    pub fn rotate_sun(&mut self) -> (r: Result<(), SimError>)
        ensures
            old(self).sun is None ==> r == Err::<(), SimError>(SimError::MissingField(Field::Sun))
                && *final(self) == *old(self),
            old(self).sun is Some && old(self).time is None ==> r == Err::<(), SimError>(
                SimError::MissingField(Field::Time),
            ) && *final(self) == *old(self),
            old(self).sun is Some && old(self).time is Some ==> (match sun_rotation_spec(
                old(self).sun->Some_0,
                old(self).time->Some_0.step.bits as int,
            ) {
                Ok(v) => r == Ok::<(), SimError>(()) && *final(self) == (CubeSat {
                    sun: Some(v),
                    ..*old(self)
                }),
                Err(e) => r == Err::<(), SimError>(e) && *final(self) == *old(self),
            }),
    {
        let sun = match self.sun {
            Some(s) => s,
            None => {
                return Err(SimError::MissingField(Field::Sun));
            },
        };
        let step = match self.time {
            Some(t) => t.step,
            None => {
                return Err(SimError::MissingField(Field::Time));
            },
        };
        if !sun.within(SUN_BOUND) {
            return Err(SimError::OutOfRange);
        }
        let tau = Fx { bits: TAU_BITS };
        let num = match tau.checked_mul(step) {
            Some(v) => v,
            None => {
                return Err(SimError::OutOfRange);
            },
        };
        let year = Fx::from_int(YEAR_SECONDS);
        proof {
            crate::orbit::lemma_div_shrink_denominator(
                num.bits as int,
                (YEAR_SECONDS as int) * (SCALE as int),
            );
        }
        let ang = num.div(year);
        self.sun = Some(sun.rot_z(ang));
        Ok(())
    }

    /// Advance the clock one step; the satellite stays active only while the
    /// time has not reached the end of the horizon.
    pub fn iterate(&mut self) -> (r: Result<(), SimError>)
        ensures
            old(self).time is None ==> r == Err::<(), SimError>(
                SimError::MissingField(Field::Time),
            ) && *final(self) == *old(self),
            old(self).time is Some ==> ({
                let t = old(self).time->Some_0;
                if i64_fits(t.now.bits + t.step.bits) {
                    r == Ok::<(), SimError>(()) && *final(self) == (CubeSat {
                        active: old(self).active && t.now.bits < t.end.bits,
                        time: Some(
                            Time {
                                now: Fx { bits: (t.now.bits + t.step.bits) as i64 },
                                step: t.step,
                                start: t.start,
                                end: t.end,
                            },
                        ),
                        ..*old(self)
                    })
                } else {
                    r == Err::<(), SimError>(SimError::OutOfRange) && *final(self) == *old(self)
                }
            }),
    {
        let t = match self.time {
            Some(t) => t,
            None => {
                return Err(SimError::MissingField(Field::Time));
            },
        };
        let new_now = match t.now.checked_add(t.step) {
            Some(v) => v,
            None => {
                return Err(SimError::OutOfRange);
            },
        };
        self.active = t.now.bits < t.end.bits && self.active;
        self.time = Some(Time { now: new_now, step: t.step, start: t.start, end: t.end });
        Ok(())
    }

    /// Append the current state to the history: one row per quantity that is
    /// present.
    pub fn save_history(&mut self)
        ensures
            *final(self) == (CubeSat { history: final(self).history, ..*old(self) }),
            final(self).history.time@ == if old(self).time is Some {
                old(self).history.time@.push(old(self).time->Some_0.now)
            } else {
                old(self).history.time@
            },
            final(self).history.pos@ == if old(self).pos is Some {
                old(self).history.pos@.push(triple(old(self).pos->Some_0))
            } else {
                old(self).history.pos@
            },
            final(self).history.vel@ == if old(self).vel is Some {
                old(self).history.vel@.push(triple(old(self).vel->Some_0))
            } else {
                old(self).history.vel@
            },
            final(self).history.acc@ == if old(self).acc is Some {
                old(self).history.acc@.push(triple(old(self).acc->Some_0))
            } else {
                old(self).history.acc@
            },
            final(self).history.rot@ == if old(self).rot is Some {
                old(self).history.rot@.push(triple(old(self).rot->Some_0))
            } else {
                old(self).history.rot@
            },
            final(self).history.rot_vel@ == if old(self).rot_vel is Some {
                old(self).history.rot_vel@.push(triple(old(self).rot_vel->Some_0))
            } else {
                old(self).history.rot_vel@
            },
            final(self).history.rot_acc@ == if old(self).rot_acc is Some {
                old(self).history.rot_acc@.push(triple(old(self).rot_acc->Some_0))
            } else {
                old(self).history.rot_acc@
            },
            final(self).history.sun@ == if old(self).sun is Some {
                old(self).history.sun@.push(triple(old(self).sun->Some_0))
            } else {
                old(self).history.sun@
            },
            final(self).history.charge@ == if old(self).eps is Some {
                old(self).history.charge@.push(old(self).eps->Some_0.charge)
            } else {
                old(self).history.charge@
            },
    {
        let time = self.time;
        let pos = self.pos;
        let vel = self.vel;
        let acc = self.acc;
        let rot = self.rot;
        let rot_vel = self.rot_vel;
        let rot_acc = self.rot_acc;
        let sun = self.sun;
        let eps = self.eps;
        self.history.save(time, pos, vel, acc, rot, rot_vel, rot_acc, sun, eps);
    }

    /// Run ticks until the clock horizon is exhausted or a step fails.  Each
    /// tick recomputes safe mode, schedules components, propagates orbit and
    /// attitude, precesses the sun, records a history row, balances power
    /// into the battery, and advances the clock.  A completed run is exactly
    /// the iteration of the tick relation from the initial state; a failed
    /// one returns the first fault the sequence meets at some reached state.
    #[verifier::rlimit(100)]
    pub fn simulate(&mut self, env: &Physics) -> (r: Result<(), SimError>)
        requires
            env.wf(),
        ensures
            r is Ok ==> !final(self).active,
            r is Ok ==> exists|n: nat| runs_to(*old(self), *final(self), *env, n),
            r is Err ==> exists|n: nat, mid: CubeSat|
                #![trigger runs_to(*old(self), mid, *env, n)]
                (runs_to(*old(self), mid, *env, n) && mid.active && (if mid.time is None {
                    r->Err_0 == SimError::MissingField(Field::Time)
                } else if mid.time->Some_0.step.bits <= 0 {
                    r->Err_0 == SimError::InvalidField(Field::Step)
                } else {
                    tick_err(mid, *env) == Some(r->Err_0)
                })),
            r is Ok && old(self).active ==> final(self).time is Some && final(self).time->Some_0.now.bits >= final(self).time->Some_0.end.bits,
            !old(self).active ==> r == Ok::<(), SimError>(()) && *final(self) == *old(self),
    {
        proof {
            assert(runs_to(*old(self), *self, *env, 0));
        }
        while self.active
            invariant
                env.wf(),
                exists|n: nat| runs_to(*old(self), *self, *env, n),
                !old(self).active ==> *self == *old(self),
                old(self).active && !self.active ==> self.time is Some && self.time->Some_0.now.bits
                    >= self.time->Some_0.end.bits,
            decreases
                (if self.active {
                    1int
                } else {
                    0int
                }),
                (match self.time {
                    Some(t) => if t.end.bits + t.step.bits - t.now.bits >= 0 {
                        t.end.bits + t.step.bits - t.now.bits
                    } else {
                        0int
                    },
                    None => 0int,
                }),
        {
            let ghost mid = *self;
            let ghost k: nat = choose|n: nat| runs_to(*old(self), mid, *env, n);
            proof {
                assert(runs_to(*old(self), mid, *env, k));
            }
            let t0 = match self.time {
                Some(t) => t,
                None => {
                    return Err(SimError::MissingField(Field::Time));
                },
            };
            if t0.step.bits <= 0 {
                return Err(SimError::InvalidField(Field::Step));
            }
            match self.tick(env) {
                Ok(_) => {},
                Err(e) => {
                    return Err(e);
                },
            }
            proof {
                assert(runs_to(*old(self), mid, *env, k));
                assert(tick_err(mid, *env) is None && tick_rel(mid, *self, *env));
                lemma_runs_to_step(*old(self), mid, *self, *env, k);
            }
        }
        Ok(())
    }

    /// One tick of the simulation, in the fixed order: safe-mode check,
    /// component scheduling, orbit, attitude, sun precession, history row,
    /// power balance into the battery, clock advance.
    #[verifier::rlimit(100)]
    fn tick(&mut self, env: &Physics) -> (r: Result<(), SimError>)
        requires
            env.wf(),
            old(self).time is Some,
            old(self).time->Some_0.step.bits > 0,
        ensures
            match tick_err(*old(self), *env) {
                Some(e) => r == Err::<(), SimError>(e),
                None => r is Ok && tick_rel(*old(self), *final(self), *env),
            },
            r is Ok ==> final(self).time is Some,
            r is Ok ==> final(self).time->Some_0.step == old(self).time->Some_0.step,
            r is Ok ==> final(self).time->Some_0.end == old(self).time->Some_0.end,
            r is Ok ==> final(self).time->Some_0.now.bits == old(self).time->Some_0.now.bits + old(self).time->Some_0.step.bits,
            r is Ok ==> (final(self).active ==> old(self).time->Some_0.now.bits < old(self).time->Some_0.end.bits),
            r is Ok && old(self).active && !final(self).active ==> old(self).time->Some_0.now.bits
                >= old(self).time->Some_0.end.bits,
    {
            proof {
                reveal(tick_err);
                reveal(tick_rel);
            }
            let ghost s0 = *old(self);
            match self.check_safety_limit() {
                Ok(_) => {},
                Err(e) => {
                    return Err(e);
                },
            }
            let now = match self.time {
                Some(t) => t.now,
                None => {
                    return Err(SimError::MissingField(Field::Time));
                },
            };
            let safe = self.safe_mode;
            proof {
                assert(now == s0.time->Some_0.now);
                assert(safe == safety_outcome(s0)->Ok_0);
            }
            match self.update_active_components(&now, safe) {
                Ok(_) => {},
                Err(e) => {
                    return Err(e);
                },
            }
            proof {
                crate::orbit::lemma_circular_spec_same_fields(*self, s0, env.mu as int);
                crate::orbit::lemma_parametric_spec_same_fields(*self, s0, env.mu as int);
                assert(self.components->Some_0@ == sched_map(
                    s0.components->Some_0@,
                    s0.time->Some_0.now.bits as int,
                    safety_outcome(s0)->Ok_0,
                ));
            }
            match self.update_orbit(env) {
                Ok(_) => {},
                Err(e) => {
                    return Err(e);
                },
            }
            proof {
                assert(self.pos == tick_orbit(s0, *env)->Ok_0.0);
                assert(self.vel == tick_orbit(s0, *env)->Ok_0.1);
                assert(self.acc == tick_orbit(s0, *env)->Ok_0.2);
            }
            match self.update_rotation() {
                Ok(_) => {},
                Err(e) => {
                    return Err(e);
                },
            }
            match self.rotate_sun() {
                Ok(_) => {},
                Err(e) => {
                    return Err(e);
                },
            }
            self.save_history();
            let generated = match self.get_power_generation(env) {
                Ok(g) => g,
                Err(e) => {
                    return Err(e);
                },
            };
            let consumed = match self.get_power_consumption() {
                Ok(c) => c,
                Err(e) => {
                    return Err(e);
                },
            };
            let power = match generated.checked_add(consumed) {
                Some(p) => p,
                None => {
                    return Err(SimError::OutOfRange);
                },
            };
            let mut battery = match self.eps {
                Some(e) => e,
                None => {
                    return Err(SimError::MissingField(Field::Eps));
                },
            };
            if battery.max_charge.bits < 0 {
                return Err(SimError::InvalidField(Field::Eps));
            }
            let step = match self.time {
                Some(t) => t.step,
                None => {
                    return Err(SimError::MissingField(Field::Time));
                },
            };
            battery.update_capacity(power, step);
            self.eps = Some(battery);
            match self.iterate() {
                Ok(_) => {},
                Err(e) => {
                    return Err(e);
                },
            }
            proof {
                assert(tick_err(s0, *env) is None);
                assert(tick_rel(s0, *self, *env));
            }
            Ok(())
    }
}

} // verus!
