use cubesat_sim::component::Component;
use cubesat_sim::component::Eps;
use cubesat_sim::component::SolarPanel;
use cubesat_sim::fx::Fx;
use cubesat_sim::vector::Vector3;

fn fx(n: i64) -> Fx {
    Fx::from_int(n)
}

fn v3(x: i64, y: i64, z: i64) -> Vector3 {
    Vector3::new(fx(x), fx(y), fx(z))
}

#[test]
fn panel_new() {
    let panel_zero = SolarPanel::new(fx(0), fx(0), fx(0), fx(0));
    let panel_x = SolarPanel::new(fx(0), fx(1), fx(0), fx(0));
    let panel_y = SolarPanel::new(fx(0), fx(0), fx(1), fx(0));
    let panel_z = SolarPanel::new(fx(0), fx(0), fx(0), fx(1));
    assert_eq!(panel_zero.orientation, v3(0, 0, 0));
    assert_eq!(panel_x.orientation, v3(1, 0, 0));
    assert_eq!(panel_y.orientation, v3(0, 1, 0));
    assert_eq!(panel_z.orientation, v3(0, 0, 1));
}

#[test]
fn power_generation() {
    let panel_pos_x = SolarPanel::new(fx(1), fx(1), fx(0), fx(0));
    let panel_neg_x = SolarPanel::new(fx(1), fx(-1), fx(0), fx(0));
    let panel_pos_y = SolarPanel::new(fx(1), fx(0), fx(1), fx(0));
    let panel_neg_y = SolarPanel::new(fx(1), fx(0), fx(-1), fx(0));
    let panel_pos_z = SolarPanel::new(fx(1), fx(0), fx(0), fx(1));
    let panel_neg_z = SolarPanel::new(fx(1), fx(0), fx(0), fx(-1));
    let sun_pos_x = v3(1, 0, 0);
    let sun_neg_x = v3(-1, 0, 0);
    let sun_pos_y = v3(0, 1, 0);
    let sun_neg_y = v3(0, -1, 0);
    let sun_pos_z = v3(0, 0, 1);
    let sun_neg_z = v3(0, 0, -1);
    let rotation = v3(0, 0, 0);

    assert_eq!(panel_pos_x.power_generation(&rotation, &sun_pos_x), Ok(fx(0)));
    assert_eq!(panel_pos_x.power_generation(&rotation, &sun_neg_x), Ok(fx(1)));
    assert_eq!(panel_pos_x.power_generation(&rotation, &sun_pos_y), Ok(fx(0)));
    assert_eq!(panel_pos_x.power_generation(&rotation, &sun_neg_y), Ok(fx(0)));
    assert_eq!(panel_pos_x.power_generation(&rotation, &sun_pos_z), Ok(fx(0)));
    assert_eq!(panel_pos_x.power_generation(&rotation, &sun_neg_z), Ok(fx(0)));

    assert_eq!(panel_neg_x.power_generation(&rotation, &sun_pos_x), Ok(fx(1)));
    assert_eq!(panel_neg_x.power_generation(&rotation, &sun_neg_x), Ok(fx(0)));
    assert_eq!(panel_neg_x.power_generation(&rotation, &sun_pos_y), Ok(fx(0)));
    assert_eq!(panel_neg_x.power_generation(&rotation, &sun_neg_y), Ok(fx(0)));
    assert_eq!(panel_neg_x.power_generation(&rotation, &sun_pos_z), Ok(fx(0)));
    assert_eq!(panel_neg_x.power_generation(&rotation, &sun_neg_z), Ok(fx(0)));

    assert_eq!(panel_pos_y.power_generation(&rotation, &sun_pos_x), Ok(fx(0)));
    assert_eq!(panel_pos_y.power_generation(&rotation, &sun_neg_x), Ok(fx(0)));
    assert_eq!(panel_pos_y.power_generation(&rotation, &sun_pos_y), Ok(fx(0)));
    assert_eq!(panel_pos_y.power_generation(&rotation, &sun_neg_y), Ok(fx(1)));
    assert_eq!(panel_pos_y.power_generation(&rotation, &sun_pos_z), Ok(fx(0)));
    assert_eq!(panel_pos_y.power_generation(&rotation, &sun_neg_z), Ok(fx(0)));

    assert_eq!(panel_neg_y.power_generation(&rotation, &sun_pos_x), Ok(fx(0)));
    assert_eq!(panel_neg_y.power_generation(&rotation, &sun_neg_x), Ok(fx(0)));
    assert_eq!(panel_neg_y.power_generation(&rotation, &sun_pos_y), Ok(fx(1)));
    assert_eq!(panel_neg_y.power_generation(&rotation, &sun_neg_y), Ok(fx(0)));
    assert_eq!(panel_neg_y.power_generation(&rotation, &sun_pos_z), Ok(fx(0)));
    assert_eq!(panel_neg_y.power_generation(&rotation, &sun_neg_z), Ok(fx(0)));

    assert_eq!(panel_pos_z.power_generation(&rotation, &sun_pos_x), Ok(fx(0)));
    assert_eq!(panel_pos_z.power_generation(&rotation, &sun_neg_x), Ok(fx(0)));
    assert_eq!(panel_pos_z.power_generation(&rotation, &sun_pos_y), Ok(fx(0)));
    assert_eq!(panel_pos_z.power_generation(&rotation, &sun_neg_y), Ok(fx(0)));
    assert_eq!(panel_pos_z.power_generation(&rotation, &sun_pos_z), Ok(fx(0)));
    assert_eq!(panel_pos_z.power_generation(&rotation, &sun_neg_z), Ok(fx(1)));

    assert_eq!(panel_neg_z.power_generation(&rotation, &sun_pos_x), Ok(fx(0)));
    assert_eq!(panel_neg_z.power_generation(&rotation, &sun_neg_x), Ok(fx(0)));
    assert_eq!(panel_neg_z.power_generation(&rotation, &sun_pos_y), Ok(fx(0)));
    assert_eq!(panel_neg_z.power_generation(&rotation, &sun_neg_y), Ok(fx(0)));
    assert_eq!(panel_neg_z.power_generation(&rotation, &sun_pos_z), Ok(fx(1)));
    assert_eq!(panel_neg_z.power_generation(&rotation, &sun_neg_z), Ok(fx(0)));
}

#[test]
fn eps() {
    let mut eps = Eps::new(fx(-1), fx(20));
    assert_eq!(eps.consumption, fx(-1));
    assert_eq!(eps.charge, fx(20));
    assert_eq!(eps.max_charge, fx(20));

    let timestep = fx(1);
    eps.update_capacity(fx(1), timestep);
    assert_eq!(eps.charge, eps.max_charge);

    eps.update_capacity(fx(-1), timestep);
    // (20 Wh * 3600 - 1 J) / 3600, rounded down at this granularity.
    assert_eq!(eps.charge, Fx::from_bits(85898152873));
}

#[test]
fn component() {
    let comp = Component::new("ADCS", fx(-1), None, None, None);
    assert_eq!(comp.name, "ADCS".to_string());
    assert_eq!(comp.consumption_passive, fx(-1));
}

#[test]
fn charge_saturates_in_both_directions() {
    // Battery charge never leaves [0, capacity], whatever the net power.
    let mut eps = Eps::new(fx(0), fx(10));
    eps.update_capacity(Fx::from_bits(i64::MAX), Fx::from_bits(i64::MAX));
    assert_eq!(eps.charge, fx(10));
    eps.update_capacity(Fx::from_bits(i64::MIN), Fx::from_bits(i64::MAX));
    assert_eq!(eps.charge, fx(0));
    eps.update_capacity(Fx::from_bits(i64::MAX), Fx::from_bits(i64::MIN));
    assert_eq!(eps.charge, fx(0));
    eps.update_capacity(fx(7200), fx(1));
    assert_eq!(eps.charge, fx(2));
}
