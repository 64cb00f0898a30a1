use cubesat_sim::cubesat::CubeSat;
use cubesat_sim::cubesat::History;
use cubesat_sim::error::Field;
use cubesat_sim::error::SimError;
use cubesat_sim::fx::Fx;
use cubesat_sim::fx::SCALE;
use cubesat_sim::orbit::OrbitType;
use cubesat_sim::orbit::Physics;
use cubesat_sim::orbit::RADIUS_EARTH_BITS;

fn fx(n: i64) -> Fx {
    Fx::from_int(n)
}

#[test]
fn new() {
    let cubesat = CubeSat::new();
    assert_eq!(cubesat.name, Option::None);
    assert_eq!(cubesat.active, true);
    assert!(cubesat.history.time.is_empty());
    assert_eq!(cubesat.safe_mode, false);
    assert_eq!(cubesat.safe_limit, Option::None);
    assert_eq!(cubesat.orbit_type, Option::None);
    assert_eq!(cubesat.orbit_parameters, Option::None);
    assert_eq!(cubesat.time, Option::None);
    assert!(cubesat.pos.is_none());
    assert!(cubesat.vel.is_none());
    assert!(cubesat.acc.is_none());
    assert!(cubesat.rot.is_none());
    assert!(cubesat.rot_vel.is_none());
    assert!(cubesat.sun.is_none());
    assert!(cubesat.solar_panels.is_none());
    assert!(cubesat.eps.is_none());
    assert!(cubesat.components.is_none());
}

#[test]
fn with_name() {
    let cubesat = CubeSat::new().with_name("Hello, world!");
    assert_ne!(cubesat.name, None);
    assert_eq!(cubesat.name.clone().unwrap(), "Hello, world!".to_string());
}

#[test]
fn with_time() {
    let cubesat = CubeSat::new().with_time(fx(0), fx(100), fx(1));
    assert!(cubesat.time.is_some());
    assert_eq!(cubesat.time.as_ref().unwrap().now, fx(0));
    assert_eq!(cubesat.time.as_ref().unwrap().start, fx(0));
    assert_eq!(cubesat.time.as_ref().unwrap().end, fx(100));
    assert_eq!(cubesat.time.as_ref().unwrap().step, fx(1));
}

#[test]
fn with_orbit_type() {
    let cubesat = CubeSat::new().with_orbit_type("circular cosine");
    assert_ne!(cubesat.orbit_type, None);
    assert_eq!(cubesat.orbit_type.unwrap(), OrbitType::CircularCosine);
    let other = CubeSat::new().with_orbit_type("parametric");
    assert_eq!(other.orbit_type.unwrap(), OrbitType::Parametric);
    let bogus = CubeSat::new().with_orbit_type("figure eight");
    assert_eq!(bogus.orbit_type, None);
}

#[test]
fn with_orbit_parameters() {
    let tenth = Fx::from_bits(429496729);
    let cubesat = CubeSat::new().with_orbit_parameters(vec![
        ("altitude", fx(500_000)),
        ("inclination", tenth),
        ("argument of periapsis", fx(1)),
        ("longitude of ascending node", fx(1)),
        ("semi-major axis", fx(500_000)),
        ("eccentricity", tenth),
    ]);
    assert_ne!(cubesat.orbit_parameters, None);
    let params = cubesat.orbit_parameters.unwrap();
    assert_eq!(params.inclination.unwrap(), tenth);
    assert_eq!(params.argument_of_periapsis.unwrap(), fx(1));
    assert_eq!(params.longitude_of_ascending_node.unwrap(), fx(1));
    assert_eq!(params.semi_major_axis.unwrap(), fx(500_000));
    assert_eq!(params.eccentricity.unwrap(), tenth);
}

#[test]
fn with_position() {
    let cubesat_x = CubeSat::new().with_position(fx(1), fx(0), fx(0));
    let cubesat_y = CubeSat::new().with_position(fx(0), fx(1), fx(0));
    let cubesat_z = CubeSat::new().with_position(fx(0), fx(0), fx(1));
    assert!(cubesat_x.pos.is_some());
    assert!(cubesat_y.pos.is_some());
    assert!(cubesat_z.pos.is_some());
    assert_eq!(cubesat_x.pos.as_ref().unwrap().x, fx(1));
    assert_eq!(cubesat_x.pos.as_ref().unwrap().y, fx(0));
    assert_eq!(cubesat_x.pos.as_ref().unwrap().z, fx(0));
    assert_eq!(cubesat_y.pos.as_ref().unwrap().x, fx(0));
    assert_eq!(cubesat_y.pos.as_ref().unwrap().y, fx(1));
    assert_eq!(cubesat_y.pos.as_ref().unwrap().z, fx(0));
    assert_eq!(cubesat_z.pos.as_ref().unwrap().x, fx(0));
    assert_eq!(cubesat_z.pos.as_ref().unwrap().y, fx(0));
    assert_eq!(cubesat_z.pos.as_ref().unwrap().z, fx(1));
}

#[test]
fn with_velocity() {
    let cubesat_x = CubeSat::new().with_velocity(fx(1), fx(0), fx(0));
    let cubesat_y = CubeSat::new().with_velocity(fx(0), fx(1), fx(0));
    let cubesat_z = CubeSat::new().with_velocity(fx(0), fx(0), fx(1));
    assert_eq!(cubesat_x.vel.as_ref().unwrap().x, fx(1));
    assert_eq!(cubesat_x.vel.as_ref().unwrap().y, fx(0));
    assert_eq!(cubesat_x.vel.as_ref().unwrap().z, fx(0));
    assert_eq!(cubesat_y.vel.as_ref().unwrap().x, fx(0));
    assert_eq!(cubesat_y.vel.as_ref().unwrap().y, fx(1));
    assert_eq!(cubesat_y.vel.as_ref().unwrap().z, fx(0));
    assert_eq!(cubesat_z.vel.as_ref().unwrap().x, fx(0));
    assert_eq!(cubesat_z.vel.as_ref().unwrap().y, fx(0));
    assert_eq!(cubesat_z.vel.as_ref().unwrap().z, fx(1));
}

#[test]
fn with_acceleration() {
    let cubesat_x = CubeSat::new().with_acceleration(fx(1), fx(0), fx(0));
    let cubesat_y = CubeSat::new().with_acceleration(fx(0), fx(1), fx(0));
    let cubesat_z = CubeSat::new().with_acceleration(fx(0), fx(0), fx(1));
    assert_eq!(cubesat_x.acc.as_ref().unwrap().x, fx(1));
    assert_eq!(cubesat_x.acc.as_ref().unwrap().y, fx(0));
    assert_eq!(cubesat_x.acc.as_ref().unwrap().z, fx(0));
    assert_eq!(cubesat_y.acc.as_ref().unwrap().x, fx(0));
    assert_eq!(cubesat_y.acc.as_ref().unwrap().y, fx(1));
    assert_eq!(cubesat_y.acc.as_ref().unwrap().z, fx(0));
    assert_eq!(cubesat_z.acc.as_ref().unwrap().x, fx(0));
    assert_eq!(cubesat_z.acc.as_ref().unwrap().y, fx(0));
    assert_eq!(cubesat_z.acc.as_ref().unwrap().z, fx(1));
}

#[test]
fn with_rotation() {
    let cubesat_x = CubeSat::new().with_rotation(fx(1), fx(0), fx(0));
    let cubesat_y = CubeSat::new().with_rotation(fx(0), fx(1), fx(0));
    let cubesat_z = CubeSat::new().with_rotation(fx(0), fx(0), fx(1));
    assert_eq!(cubesat_x.rot.as_ref().unwrap().x, fx(1));
    assert_eq!(cubesat_x.rot.as_ref().unwrap().y, fx(0));
    assert_eq!(cubesat_x.rot.as_ref().unwrap().z, fx(0));
    assert_eq!(cubesat_y.rot.as_ref().unwrap().x, fx(0));
    assert_eq!(cubesat_y.rot.as_ref().unwrap().y, fx(1));
    assert_eq!(cubesat_y.rot.as_ref().unwrap().z, fx(0));
    assert_eq!(cubesat_z.rot.as_ref().unwrap().x, fx(0));
    assert_eq!(cubesat_z.rot.as_ref().unwrap().y, fx(0));
    assert_eq!(cubesat_z.rot.as_ref().unwrap().z, fx(1));
}

#[test]
fn with_sun() {
    let cubesat_x = CubeSat::new().with_sun(fx(1), fx(0), fx(0));
    let cubesat_y = CubeSat::new().with_sun(fx(0), fx(1), fx(0));
    let cubesat_z = CubeSat::new().with_sun(fx(0), fx(0), fx(1));
    assert_eq!(cubesat_x.sun.as_ref().unwrap().x, fx(1));
    assert_eq!(cubesat_x.sun.as_ref().unwrap().y, fx(0));
    assert_eq!(cubesat_x.sun.as_ref().unwrap().z, fx(0));
    assert_eq!(cubesat_y.sun.as_ref().unwrap().x, fx(0));
    assert_eq!(cubesat_y.sun.as_ref().unwrap().y, fx(1));
    assert_eq!(cubesat_y.sun.as_ref().unwrap().z, fx(0));
    assert_eq!(cubesat_z.sun.as_ref().unwrap().x, fx(0));
    assert_eq!(cubesat_z.sun.as_ref().unwrap().y, fx(0));
    assert_eq!(cubesat_z.sun.as_ref().unwrap().z, fx(1));
}

#[test]
fn with_solar_panels() {
    let cubesat = CubeSat::new().with_solar_panels(
        vec![
            (fx(1), fx(0), fx(0)),
            (fx(-1), fx(0), fx(0)),
            (fx(0), fx(1), fx(0)),
            (fx(0), fx(-1), fx(0)),
            (fx(0), fx(0), fx(1)),
            (fx(0), fx(0), fx(-1)),
        ],
        fx(1),
    );
    assert!(cubesat.solar_panels.is_some());
    for i in 0..6 {
        assert_eq!(cubesat.solar_panels.as_ref().unwrap()[i].power_generation, fx(1));
    }
    assert_eq!(cubesat.solar_panels.as_ref().unwrap()[0].orientation.x, fx(1));
    assert_eq!(cubesat.solar_panels.as_ref().unwrap()[2].orientation.y, fx(1));
    assert_eq!(cubesat.solar_panels.as_ref().unwrap()[4].orientation.z, fx(1));
    assert_eq!(cubesat.solar_panels.as_ref().unwrap()[1].orientation.x, fx(-1));
    assert_eq!(cubesat.solar_panels.as_ref().unwrap()[3].orientation.y, fx(-1));
    assert_eq!(cubesat.solar_panels.as_ref().unwrap()[5].orientation.z, fx(-1));
}

#[test]
fn with_eps() {
    let cubesat = CubeSat::new().with_eps(fx(-1), fx(20));
    assert!(cubesat.eps.is_some());
    assert_eq!(cubesat.eps.as_ref().unwrap().consumption, fx(-1));
    assert_eq!(cubesat.eps.as_ref().unwrap().charge, fx(20));
    assert_eq!(cubesat.eps.as_ref().unwrap().max_charge, fx(20));
}

#[test]
fn with_component() {
    let cubesat = CubeSat::new().with_component("ADCS", fx(-1), Some(fx(-2)), Some(fx(10)), Some(
        fx(5),
    ));
    assert!(cubesat.components.is_some());
    assert_eq!(cubesat.components.as_ref().unwrap()[0].name, "ADCS".to_string());
    assert_eq!(cubesat.components.as_ref().unwrap()[0].consumption_passive, fx(-1));
}

#[test]
fn with_safety_limit() {
    let cubesat = CubeSat::new().with_safety_limit(fx(50));
    assert_eq!(cubesat.safe_mode, false);
    assert_eq!(cubesat.safe_limit, Option::Some(fx(50)));
}

#[test]
fn in_eclipse() {
    // Sunlight travels toward negative x; the shadow lies behind the planet
    // on the negative x side.
    let env = Physics::earth();
    let radius = Fx::from_bits(RADIUS_EARTH_BITS + 500_000 * SCALE);
    let neg_radius = Fx::from_bits(-radius.bits);

    // In the sun.
    let cubesat_x = CubeSat::new().with_sun(fx(-1), fx(0), fx(0)).with_position(
        radius,
        fx(0),
        fx(0),
    );
    let cubesat_y = CubeSat::new().with_sun(fx(-1), fx(0), fx(0)).with_position(
        fx(0),
        radius,
        fx(0),
    );
    let cubesat_my = CubeSat::new().with_sun(fx(-1), fx(0), fx(0)).with_position(
        fx(0),
        Fx::from_bits(-radius.bits),
        fx(0),
    );
    let cubesat_z = CubeSat::new().with_sun(fx(-1), fx(0), fx(0)).with_position(
        fx(0),
        fx(0),
        radius,
    );
    let cubesat_mz = CubeSat::new().with_sun(fx(-1), fx(0), fx(0)).with_position(
        fx(0),
        fx(0),
        Fx::from_bits(-radius.bits),
    );
    assert_eq!(cubesat_x.in_eclipse(&env), Ok(false));
    assert_eq!(cubesat_y.in_eclipse(&env), Ok(false));
    assert_eq!(cubesat_my.in_eclipse(&env), Ok(false));
    assert_eq!(cubesat_z.in_eclipse(&env), Ok(false));
    assert_eq!(cubesat_mz.in_eclipse(&env), Ok(false));

    // In the eclipse: behind the planet, laterally offset within the shadow
    // cylinder (a hundred meters inside, to stay clear of the boundary at
    // this granularity).
    let offset = fx(6_378_000);
    let neg_offset = fx(-6_378_000);
    let cubesat_center = CubeSat::new().with_sun(fx(-1), fx(0), fx(0)).with_position(
        neg_radius,
        fx(0),
        fx(0),
    );
    let cubesat_center_y = CubeSat::new().with_sun(fx(-1), fx(0), fx(0)).with_position(
        neg_radius,
        offset,
        fx(0),
    );
    let cubesat_center_my = CubeSat::new().with_sun(fx(-1), fx(0), fx(0)).with_position(
        neg_radius,
        neg_offset,
        fx(0),
    );
    let cubesat_center_z = CubeSat::new().with_sun(fx(-1), fx(0), fx(0)).with_position(
        neg_radius,
        fx(0),
        offset,
    );
    let cubesat_center_mz = CubeSat::new().with_sun(fx(-1), fx(0), fx(0)).with_position(
        neg_radius,
        fx(0),
        neg_offset,
    );
    assert_eq!(cubesat_center.in_eclipse(&env), Ok(true));
    assert_eq!(cubesat_center_y.in_eclipse(&env), Ok(true));
    assert_eq!(cubesat_center_my.in_eclipse(&env), Ok(true));
    assert_eq!(cubesat_center_z.in_eclipse(&env), Ok(true));
    assert_eq!(cubesat_center_mz.in_eclipse(&env), Ok(true));

    // Degenerate geometry: a zero sun vector has no angle to anything.
    let degenerate = CubeSat::new().with_sun(fx(0), fx(0), fx(0)).with_position(
        radius,
        fx(0),
        fx(0),
    );
    assert_eq!(degenerate.in_eclipse(&env), Err(SimError::Degenerate));
}

#[test]
fn get_power_generation() {
    // Six unit panels; each sunlight direction lights exactly one of them at
    // its full rated power.
    let env = Physics::earth();
    let radius = Fx::from_bits(RADIUS_EARTH_BITS + 500_000 * SCALE);
    let cubesat = CubeSat::new()
        .with_position(radius, fx(0), fx(0))
        .with_rotation(fx(0), fx(0), fx(0))
        .with_solar_panels(
            vec![
                (fx(1), fx(0), fx(0)),
                (fx(-1), fx(0), fx(0)),
                (fx(0), fx(1), fx(0)),
                (fx(0), fx(-1), fx(0)),
                (fx(0), fx(0), fx(1)),
                (fx(0), fx(0), fx(-1)),
            ],
            fx(1),
        );
    let cubesat_x = cubesat.with_sun(fx(1), fx(0), fx(0));
    // Sunlight along +x puts this satellite (at +x) in the planet's shadow.
    assert_eq!(cubesat_x.get_power_generation(&env), Ok(fx(0)));

    let cubesat_mx = cubesat_x.with_sun(fx(-1), fx(0), fx(0));
    assert_eq!(cubesat_mx.get_power_generation(&env), Ok(fx(1)));

    let cubesat_y = cubesat_mx.with_sun(fx(0), fx(1), fx(0));
    assert_eq!(cubesat_y.get_power_generation(&env), Ok(fx(1)));

    let cubesat_my = cubesat_y.with_sun(fx(0), fx(-1), fx(0));
    assert_eq!(cubesat_my.get_power_generation(&env), Ok(fx(1)));

    let cubesat_z = cubesat_my.with_sun(fx(0), fx(0), fx(1));
    assert_eq!(cubesat_z.get_power_generation(&env), Ok(fx(1)));

    let cubesat_mz = cubesat_z.with_sun(fx(0), fx(0), fx(-1));
    assert_eq!(cubesat_mz.get_power_generation(&env), Ok(fx(1)));
}

#[test]
fn iterate() {
    let mut cubesat = CubeSat::new().with_time(fx(0), fx(10), fx(1));
    for _ in 0..11 {
        assert_eq!(cubesat.active, true);
        assert_eq!(cubesat.iterate(), Ok(()));
    }
    assert_eq!(cubesat.active, false);
}

#[test]
fn update_rotation() {
    let mut cubesat_pos = CubeSat::new()
        .with_time(fx(0), fx(10), fx(1))
        .with_rotation(fx(0), fx(0), fx(0))
        .with_rotation_velocity(fx(1), fx(1), fx(1))
        .with_rotation_acceleration(fx(0), fx(0), fx(0));
    let mut cubesat_neg = CubeSat::new()
        .with_time(fx(0), fx(10), fx(1))
        .with_rotation(fx(0), fx(0), fx(0))
        .with_rotation_velocity(fx(-1), fx(-1), fx(-1))
        .with_rotation_acceleration(fx(0), fx(0), fx(0));

    for _ in 0..10 {
        assert_eq!(cubesat_pos.update_rotation(), Ok(()));
        assert_eq!(cubesat_neg.update_rotation(), Ok(()));
    }

    assert_eq!(
        cubesat_pos.rot,
        Some(cubesat_sim::vector::Vector3::new(fx(10), fx(10), fx(10)))
    );
    assert_eq!(
        cubesat_neg.rot,
        Some(cubesat_sim::vector::Vector3::new(fx(-10), fx(-10), fx(-10)))
    );
    assert_eq!(
        cubesat_pos.rot_vel,
        Some(cubesat_sim::vector::Vector3::new(fx(1), fx(1), fx(1)))
    );
    assert_eq!(
        cubesat_neg.rot_vel,
        Some(cubesat_sim::vector::Vector3::new(fx(-1), fx(-1), fx(-1)))
    );
}

#[test]
fn rotate_sun() {
    // One step per day, so a quarter turn takes about ninety steps.
    let day = fx(86_400);
    let mut cubesat = CubeSat::new().with_time(fx(0), fx(0), day).with_sun(fx(1), fx(0), fx(0));

    // At the start.
    let sun = cubesat.sun.unwrap();
    assert_eq!(sun.x, fx(1));
    assert_eq!(sun.y, fx(0));
    assert_eq!(sun.z, fx(0));

    // Three months in.
    for _ in 0..90 {
        assert_eq!(cubesat.rotate_sun(), Ok(()));
    }
    let sun = cubesat.sun.unwrap();
    assert!(0 < sun.y.bits);
    assert_eq!(sun.z, fx(0));

    // Six months in.
    for _ in 0..90 {
        assert_eq!(cubesat.rotate_sun(), Ok(()));
    }
    let sun = cubesat.sun.unwrap();
    assert!(sun.x.bits < 0);
    assert_eq!(sun.z, fx(0));

    // Nine months in.
    for _ in 0..90 {
        assert_eq!(cubesat.rotate_sun(), Ok(()));
    }
    let sun = cubesat.sun.unwrap();
    assert!(sun.y.bits < 0);
    assert_eq!(sun.z, fx(0));

    // A full year.
    for _ in 0..183 {
        assert_eq!(cubesat.rotate_sun(), Ok(()));
    }
    let sun = cubesat.sun.unwrap();
    assert!(0 < sun.x.bits);
    assert_eq!(sun.z, fx(0));
}

#[test]
fn update_active_components() {
    let mut cubesat = CubeSat::new().with_time(fx(0), fx(10), fx(1)).with_component(
        "Component",
        fx(-1),
        Some(fx(-2)),
        Some(fx(3)),
        Some(fx(2)),
    );
    // Initially deactivated.
    assert_eq!(cubesat.components.as_ref().unwrap()[0].active, false);

    // Until activated.
    for _ in 0..3 {
        assert_eq!(cubesat.iterate(), Ok(()));
        let now = cubesat.time.as_ref().unwrap().now;
        let safe = cubesat.safe_mode;
        assert_eq!(cubesat.update_active_components(&now, safe), Ok(()));
    }
    assert_eq!(cubesat.components.as_ref().unwrap()[0].active, true);

    // Until deactivated.
    for _ in 0..2 {
        assert_eq!(cubesat.iterate(), Ok(()));
        let now = cubesat.time.as_ref().unwrap().now;
        let safe = cubesat.safe_mode;
        assert_eq!(cubesat.update_active_components(&now, safe), Ok(()));
    }
    assert_eq!(cubesat.components.as_ref().unwrap()[0].active, false);

    // Active again.
    assert_eq!(cubesat.iterate(), Ok(()));
    let now = cubesat.time.as_ref().unwrap().now;
    let safe = cubesat.safe_mode;
    assert_eq!(cubesat.update_active_components(&now, safe), Ok(()));
    assert_eq!(cubesat.components.as_ref().unwrap()[0].active, true);
}

#[test]
fn safe_mode_keeps_components_off() {
    // At an activation boundary, safe mode wins and the component stays off.
    let mut cubesat = CubeSat::new().with_component(
        "Component",
        fx(-1),
        Some(fx(-2)),
        Some(fx(3)),
        Some(fx(2)),
    );
    let boundary = fx(3);
    assert_eq!(cubesat.update_active_components(&boundary, true), Ok(()));
    assert_eq!(cubesat.components.as_ref().unwrap()[0].active, false);
    assert_eq!(cubesat.update_active_components(&boundary, false), Ok(()));
    assert_eq!(cubesat.components.as_ref().unwrap()[0].active, true);
    assert_eq!(cubesat.update_active_components(&boundary, true), Ok(()));
    assert_eq!(cubesat.components.as_ref().unwrap()[0].active, false);
}

#[test]
fn duration_without_interval_is_fatal() {
    let mut cubesat = CubeSat::new().with_component(
        "Broken",
        fx(-1),
        Some(fx(-2)),
        None,
        Some(fx(2)),
    );
    let now = fx(0);
    assert_eq!(
        cubesat.update_active_components(&now, false),
        Err(SimError::MissingField(Field::ActivationInterval))
    );
}

#[test]
fn interval_without_duration_is_fatal() {
    let mut cubesat = CubeSat::new().with_component(
        "Radio",
        fx(-1),
        Some(fx(-2)),
        Some(fx(3)),
        None,
    );
    let now = fx(0);
    assert_eq!(
        cubesat.update_active_components(&now, false),
        Err(SimError::MissingField(Field::ActivationDuration))
    );
}

#[test]
fn battery_percentage() {
    let mut cubesat = CubeSat::new().with_eps(fx(0), fx(10));
    cubesat.eps.as_mut().unwrap().charge = fx(0);
    assert_eq!(cubesat.battery_percentage(), Ok(fx(0)));
    cubesat.eps.as_mut().unwrap().charge = fx(5);
    assert_eq!(cubesat.battery_percentage(), Ok(fx(50)));
    cubesat.eps.as_mut().unwrap().charge = fx(10);
    assert_eq!(cubesat.battery_percentage(), Ok(fx(100)));
}

#[test]
fn check_safety_limit() {
    let mut cubesat = CubeSat::new().with_eps(fx(0), fx(10)).with_safety_limit(fx(50));

    // Initially off.
    assert_eq!(cubesat.safe_mode, false);

    // Below the limit: on.
    cubesat.eps.as_mut().unwrap().charge = fx(4);
    assert_eq!(cubesat.check_safety_limit(), Ok(()));
    assert_eq!(cubesat.safe_mode, true);

    // Above the limit: off again, with no latching.
    cubesat.eps.as_mut().unwrap().charge = fx(6);
    assert_eq!(cubesat.check_safety_limit(), Ok(()));
    assert_eq!(cubesat.safe_mode, false);
}

#[test]
fn history_new() {
    let history = History::new();
    assert!(history.time.is_empty());
    assert!(history.pos.is_empty());
    assert!(history.vel.is_empty());
    assert!(history.acc.is_empty());
    assert!(history.rot.is_empty());
    assert!(history.sun.is_empty());
    assert!(history.charge.is_empty());
}

#[test]
fn history_save() {
    let mut cubesat = CubeSat::new()
        .with_time(fx(0), fx(1), fx(1))
        .with_position(fx(1), fx(1), fx(1))
        .with_velocity(fx(1), fx(1), fx(1))
        .with_acceleration(fx(1), fx(1), fx(1))
        .with_rotation(fx(1), fx(1), fx(1))
        .with_sun(fx(1), fx(1), fx(1))
        .with_eps(fx(-1), fx(1));
    cubesat.save_history();
    assert_eq!(cubesat.iterate(), Ok(()));
    cubesat.save_history();

    let history = cubesat.history;

    // First step.
    assert_eq!(history.time[0], fx(0));
    assert_eq!(history.pos[0], (fx(1), fx(1), fx(1)));
    assert_eq!(history.vel[0], (fx(1), fx(1), fx(1)));
    assert_eq!(history.acc[0], (fx(1), fx(1), fx(1)));
    assert_eq!(history.rot[0], (fx(1), fx(1), fx(1)));
    assert_eq!(history.sun[0], (fx(1), fx(1), fx(1)));
    assert_eq!(history.charge[0], fx(1));

    // Second step.
    assert_eq!(history.time[1], fx(1));
    assert_eq!(history.pos[1], (fx(1), fx(1), fx(1)));
    assert_eq!(history.vel[1], (fx(1), fx(1), fx(1)));
    assert_eq!(history.acc[1], (fx(1), fx(1), fx(1)));
    assert_eq!(history.rot[1], (fx(1), fx(1), fx(1)));
    assert_eq!(history.sun[1], (fx(1), fx(1), fx(1)));
    assert_eq!(history.charge[1], fx(1));
}

#[test]
fn out_of_range_rotation_is_reported() {
    let mut cubesat = CubeSat::new()
        .with_time(fx(0), fx(10), fx(4))
        .with_rotation(fx(0), fx(0), fx(0))
        .with_rotation_velocity(Fx::from_bits(i64::MAX / 2), fx(0), fx(0))
        .with_rotation_acceleration(fx(0), fx(0), fx(0));
    assert_eq!(cubesat.update_rotation(), Err(SimError::OutOfRange));
}

#[test]
fn battery_percentage_without_capacity_is_degenerate() {
    let mut cubesat = CubeSat::new().with_eps(fx(0), fx(0));
    cubesat.eps.as_mut().unwrap().charge = fx(0);
    assert_eq!(cubesat.battery_percentage(), Err(SimError::Degenerate));
    let bare = CubeSat::new();
    assert_eq!(bare.battery_percentage(), Err(SimError::MissingField(Field::Eps)));
}

#[test]
fn active_component_without_active_draw_is_fatal() {
    let mut cubesat = CubeSat::new().with_component("Camera", fx(-1), None, Some(fx(3)), Some(
        fx(2),
    ));
    cubesat.components.as_mut().unwrap()[0].active = true;
    assert_eq!(
        cubesat.get_power_consumption(),
        Err(SimError::MissingField(Field::ActiveConsumption))
    );
    cubesat.components.as_mut().unwrap()[0].active = false;
    assert_eq!(cubesat.get_power_consumption(), Ok(fx(-1)));
}
