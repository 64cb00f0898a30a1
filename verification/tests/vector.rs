use cubesat_sim::fx::Fx;
use cubesat_sim::fx::SCALE;
use cubesat_sim::trig::HALF_PI_BITS;
use cubesat_sim::trig::PI_BITS;
use cubesat_sim::vector::Vector3;

fn fx(n: i64) -> Fx {
    Fx::from_int(n)
}

fn v3(x: i64, y: i64, z: i64) -> Vector3 {
    Vector3::new(fx(x), fx(y), fx(z))
}

#[test]
fn origin() {
    let origin = Vector3::origin();
    assert_eq!(origin.x, fx(0));
    assert_eq!(origin.y, fx(0));
    assert_eq!(origin.z, fx(0));
}

#[test]
fn unit_vectors() {
    let unit_x = v3(1, 0, 0);
    let unit_y = v3(0, 1, 0);
    let unit_z = v3(0, 0, 1);
    assert_eq!(unit_x.x, fx(1));
    assert_eq!(unit_y.y, fx(1));
    assert_eq!(unit_z.z, fx(1));
}

#[test]
fn negative() {
    let origin = Vector3::origin();
    let pos_unit_x = v3(1, 0, 0);
    let pos_unit_y = v3(0, 1, 0);
    let pos_unit_z = v3(0, 0, 1);
    let pos_all_one = v3(1, 1, 1);
    let neg_unit_x = v3(-1, 0, 0);
    let neg_unit_y = v3(0, -1, 0);
    let neg_unit_z = v3(0, 0, -1);
    let neg_all_one = v3(-1, -1, -1);
    assert_eq!(origin.negative(), origin);
    assert_eq!(pos_unit_x.negative(), neg_unit_x);
    assert_eq!(pos_unit_y.negative(), neg_unit_y);
    assert_eq!(pos_unit_z.negative(), neg_unit_z);
    assert_eq!(pos_all_one.negative(), neg_all_one);
}

#[test]
fn abs() {
    let origin = Vector3::origin();
    let pos_unit_x = v3(1, 0, 0);
    let pos_unit_y = v3(0, 1, 0);
    let pos_unit_z = v3(0, 0, 1);
    let pos_all_one = v3(1, 1, 1);
    let neg_unit_x = v3(-1, 0, 0);
    let neg_unit_y = v3(0, -1, 0);
    let neg_unit_z = v3(0, 0, -1);
    let neg_all_one = v3(-1, -1, -1);

    // The magnitude of the all-ones vector is the square root of three,
    // rounded down at this granularity.
    let sqrt_three = Fx::from_bits(7439101573);

    assert_eq!(origin.abs(), fx(0));
    assert_eq!(pos_unit_x.abs(), fx(1));
    assert_eq!(pos_unit_y.abs(), fx(1));
    assert_eq!(pos_unit_z.abs(), fx(1));
    assert_eq!(pos_all_one.abs(), sqrt_three);
    assert_eq!(neg_unit_x.abs(), fx(1));
    assert_eq!(neg_unit_y.abs(), fx(1));
    assert_eq!(neg_unit_z.abs(), fx(1));
    assert_eq!(neg_all_one.abs(), sqrt_three);
}

#[test]
fn dot() {
    let origin = Vector3::origin();
    let pos_unit_x = v3(1, 0, 0);
    let pos_unit_y = v3(0, 1, 0);
    let pos_unit_z = v3(0, 0, 1);
    let pos_all_one = v3(1, 1, 1);
    let neg_unit_x = v3(-1, 0, 0);
    let neg_unit_y = v3(0, -1, 0);
    let neg_unit_z = v3(0, 0, -1);
    let neg_all_one = v3(-1, -1, -1);

    assert_eq!(origin.dot(&origin), fx(0));

    assert_eq!(pos_unit_x.dot(&pos_unit_x), fx(1));
    assert_eq!(pos_unit_x.dot(&pos_unit_y), fx(0));
    assert_eq!(pos_unit_x.dot(&pos_unit_z), fx(0));
    assert_eq!(pos_unit_x.dot(&pos_all_one), fx(1));
    assert_eq!(pos_unit_x.dot(&origin), fx(0));
    assert_eq!(pos_unit_y.dot(&pos_unit_x), fx(0));
    assert_eq!(pos_unit_y.dot(&pos_unit_y), fx(1));
    assert_eq!(pos_unit_y.dot(&pos_unit_z), fx(0));
    assert_eq!(pos_unit_y.dot(&pos_all_one), fx(1));
    assert_eq!(pos_unit_y.dot(&origin), fx(0));
    assert_eq!(pos_unit_z.dot(&pos_unit_x), fx(0));
    assert_eq!(pos_unit_z.dot(&pos_unit_y), fx(0));
    assert_eq!(pos_unit_z.dot(&pos_unit_z), fx(1));
    assert_eq!(pos_unit_z.dot(&pos_all_one), fx(1));
    assert_eq!(pos_unit_z.dot(&origin), fx(0));

    assert_eq!(neg_unit_x.dot(&neg_unit_x), fx(1));
    assert_eq!(neg_unit_x.dot(&neg_unit_y), fx(0));
    assert_eq!(neg_unit_x.dot(&neg_unit_z), fx(0));
    assert_eq!(neg_unit_x.dot(&neg_all_one), fx(1));
    assert_eq!(neg_unit_x.dot(&origin), fx(0));
    assert_eq!(neg_unit_y.dot(&neg_unit_x), fx(0));
    assert_eq!(neg_unit_y.dot(&neg_unit_y), fx(1));
    assert_eq!(neg_unit_y.dot(&neg_unit_z), fx(0));
    assert_eq!(neg_unit_y.dot(&neg_all_one), fx(1));
    assert_eq!(neg_unit_y.dot(&origin), fx(0));
    assert_eq!(neg_unit_z.dot(&neg_unit_x), fx(0));
    assert_eq!(neg_unit_z.dot(&neg_unit_y), fx(0));
    assert_eq!(neg_unit_z.dot(&neg_unit_z), fx(1));
    assert_eq!(neg_unit_z.dot(&neg_all_one), fx(1));
    assert_eq!(neg_unit_z.dot(&origin), fx(0));

    assert_eq!(pos_unit_x.dot(&neg_unit_x), fx(-1));
    assert_eq!(pos_unit_x.dot(&neg_unit_y), fx(0));
    assert_eq!(pos_unit_x.dot(&neg_unit_z), fx(0));
    assert_eq!(pos_unit_x.dot(&neg_all_one), fx(-1));
    assert_eq!(pos_unit_y.dot(&neg_unit_x), fx(0));
    assert_eq!(pos_unit_y.dot(&neg_unit_y), fx(-1));
    assert_eq!(pos_unit_y.dot(&neg_unit_z), fx(0));
    assert_eq!(pos_unit_y.dot(&neg_all_one), fx(-1));
    assert_eq!(pos_unit_z.dot(&neg_unit_x), fx(0));
    assert_eq!(pos_unit_z.dot(&neg_unit_y), fx(0));
    assert_eq!(pos_unit_z.dot(&neg_unit_z), fx(-1));
    assert_eq!(pos_unit_z.dot(&neg_all_one), fx(-1));

    assert_eq!(pos_all_one.dot(&pos_all_one), fx(3));
    assert_eq!(pos_all_one.dot(&neg_all_one), fx(-3));
    assert_eq!(neg_all_one.dot(&neg_all_one), fx(3));
    assert_eq!(pos_all_one.dot(&origin), fx(0));
    assert_eq!(neg_all_one.dot(&origin), fx(0));
}

#[test]
fn angle_to() {
    let origin = Vector3::origin();
    let pos_unit_x = v3(1, 0, 0);
    let pos_unit_y = v3(0, 1, 0);
    let pos_unit_z = v3(0, 0, 1);
    let pos_all_one = v3(1, 1, 1);
    let neg_unit_x = v3(-1, 0, 0);
    let neg_unit_y = v3(0, -1, 0);
    let neg_unit_z = v3(0, 0, -1);
    let neg_all_one = v3(-1, -1, -1);

    // A vanishing magnitude product is the degenerate case.
    assert!(origin.angle_to(&origin).is_none());
    assert!(origin.angle_to(&pos_unit_x).is_none());
    assert!(origin.angle_to(&pos_unit_y).is_none());
    assert!(origin.angle_to(&pos_unit_z).is_none());
    assert!(origin.angle_to(&pos_all_one).is_none());
    assert!(origin.angle_to(&neg_unit_x).is_none());
    assert!(origin.angle_to(&neg_unit_y).is_none());
    assert!(origin.angle_to(&neg_unit_z).is_none());
    assert!(origin.angle_to(&neg_all_one).is_none());

    assert_eq!(pos_unit_x.angle_to(&pos_unit_x), Some(fx(0)));
    assert_eq!(pos_unit_x.angle_to(&pos_unit_y), Some(Fx::from_bits(HALF_PI_BITS)));
    assert_eq!(pos_unit_x.angle_to(&pos_unit_z), Some(Fx::from_bits(HALF_PI_BITS)));
    // The diagonal: close to acos(1 / sqrt(3)), within the kernel's accuracy.
    let diag = pos_unit_x.angle_to(&pos_all_one).unwrap();
    assert!((diag.bits - 4103053632i64).abs() < 2_000_000);
    assert_eq!(pos_unit_x.angle_to(&neg_unit_x), Some(Fx::from_bits(PI_BITS)));
    assert_eq!(pos_unit_y.angle_to(&neg_unit_y), Some(Fx::from_bits(PI_BITS)));
    assert_eq!(pos_unit_z.angle_to(&neg_unit_z), Some(Fx::from_bits(PI_BITS)));

    assert_eq!(pos_all_one.angle_to(&neg_all_one), Some(Fx::from_bits(PI_BITS)));
    assert_eq!(neg_all_one.angle_to(&pos_all_one), Some(Fx::from_bits(PI_BITS)));
}

#[test]
fn rot_x() {
    let origin = Vector3::origin();
    let pos_unit_x = v3(1, 0, 0);
    let pos_unit_y = v3(0, 1, 0);
    let pos_unit_z = v3(0, 0, 1);
    let neg_unit_x = v3(-1, 0, 0);
    let neg_unit_y = v3(0, -1, 0);
    let neg_unit_z = v3(0, 0, -1);
    let half_pi = Fx::from_bits(HALF_PI_BITS);
    let pi = Fx::from_bits(PI_BITS);

    assert_eq!(origin.rot_x(half_pi), origin);
    assert_eq!(origin.rot_x(pi), origin);

    assert_eq!(pos_unit_x.rot_x(pi), pos_unit_x);
    assert_eq!(neg_unit_x.rot_x(pi), neg_unit_x);

    assert_eq!(pos_unit_y.rot_x(half_pi), pos_unit_z);
    assert_eq!(pos_unit_y.rot_x(pi), neg_unit_y);

    assert_eq!(pos_unit_z.rot_x(half_pi), neg_unit_y);
    assert_eq!(pos_unit_z.rot_x(pi), neg_unit_z);
}

#[test]
fn rot_y() {
    let origin = Vector3::origin();
    let pos_unit_x = v3(1, 0, 0);
    let pos_unit_y = v3(0, 1, 0);
    let pos_unit_z = v3(0, 0, 1);
    let neg_unit_x = v3(-1, 0, 0);
    let neg_unit_y = v3(0, -1, 0);
    let neg_unit_z = v3(0, 0, -1);
    let half_pi = Fx::from_bits(HALF_PI_BITS);
    let pi = Fx::from_bits(PI_BITS);

    assert_eq!(origin.rot_y(half_pi), origin);
    assert_eq!(origin.rot_y(pi), origin);

    assert_eq!(pos_unit_x.rot_y(half_pi), neg_unit_z);
    assert_eq!(pos_unit_x.rot_y(pi), neg_unit_x);

    assert_eq!(pos_unit_y.rot_y(pi), pos_unit_y);
    assert_eq!(neg_unit_y.rot_y(pi), neg_unit_y);

    assert_eq!(pos_unit_z.rot_y(half_pi), pos_unit_x);
    assert_eq!(pos_unit_z.rot_y(pi), neg_unit_z);
}

#[test]
fn rot_z() {
    let origin = Vector3::origin();
    let pos_unit_x = v3(1, 0, 0);
    let pos_unit_y = v3(0, 1, 0);
    let pos_unit_z = v3(0, 0, 1);
    let neg_unit_x = v3(-1, 0, 0);
    let neg_unit_y = v3(0, -1, 0);
    let neg_unit_z = v3(0, 0, -1);
    let half_pi = Fx::from_bits(HALF_PI_BITS);
    let pi = Fx::from_bits(PI_BITS);

    assert_eq!(origin.rot_z(half_pi), origin);
    assert_eq!(origin.rot_z(pi), origin);

    assert_eq!(pos_unit_x.rot_z(half_pi), pos_unit_y);
    assert_eq!(pos_unit_x.rot_z(pi), neg_unit_x);

    assert_eq!(pos_unit_y.rot_z(half_pi), neg_unit_x);
    assert_eq!(pos_unit_y.rot_z(pi), neg_unit_y);

    assert_eq!(pos_unit_z.rot_z(pi), pos_unit_z);
    assert_eq!(neg_unit_z.rot_z(pi), neg_unit_z);
}

#[test]
fn rot_xyz() {
    let origin = Vector3::origin();
    let pos_unit_x = v3(1, 0, 0);
    let pos_unit_y = v3(0, 1, 0);
    let pos_unit_z = v3(0, 0, 1);
    let neg_unit_z = v3(0, 0, -1);
    let half_pi = Fx::from_bits(HALF_PI_BITS);
    let pi = Fx::from_bits(PI_BITS);

    assert_eq!(origin.rot_x(pi).rot_y(pi).rot_z(pi), origin);
    assert_eq!(pos_unit_x.rot_x(half_pi).rot_y(half_pi).rot_z(half_pi), neg_unit_z);
    assert_eq!(pos_unit_y.rot_x(half_pi).rot_y(half_pi).rot_z(half_pi), pos_unit_y);
    assert_eq!(pos_unit_z.rot_x(half_pi).rot_y(half_pi).rot_z(half_pi), pos_unit_x);
}

#[test]
fn rotation_by_zero_is_identity() {
    let v = v3(3, -4, 12);
    assert_eq!(v.rot_x(fx(0)), v);
    assert_eq!(v.rot_y(fx(0)), v);
    assert_eq!(v.rot_z(fx(0)), v);
}

#[test]
fn angle_to_self_and_negation() {
    let v = v3(3, -4, 12);
    assert_eq!(v.angle_to(&v), Some(fx(0)));
    assert_eq!(v.angle_to(&v.negative()), Some(Fx::from_bits(PI_BITS)));
    let w = v3(7, 1, -2);
    assert_eq!(w.angle_to(&w), Some(fx(0)));
    assert_eq!(w.angle_to(&w.negative()), Some(Fx::from_bits(PI_BITS)));
}

#[test]
fn rotation_tracks_sine_and_cosine() {
    // A third of pi: the rotated unit vector must land near
    // (cos 60, sin 60); an unmoved kernel result would fail this.
    let third = Fx::from_bits(4497679234);
    let r = v3(1, 0, 0).rot_z(third);
    assert!((r.x.bits - 2147483648i64).abs() < 1_000_000);
    assert!((r.y.bits - 3719550786i64).abs() < 1_000_000);
    assert_eq!(r.z, fx(0));
}
