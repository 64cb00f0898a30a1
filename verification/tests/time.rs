use cubesat_sim::fx::Fx;
use cubesat_sim::time::Time;

fn fx(n: i64) -> Fx {
    Fx::from_int(n)
}

#[test]
fn is_zero() {
    let zero = Time::new(fx(0), fx(0), fx(0));
    assert_eq!(zero.now, fx(0));
    assert_eq!(zero.step, fx(0));
    assert_eq!(zero.start, fx(0));
    assert_eq!(zero.end, fx(0));
}

#[test]
fn hundred_steps() {
    let mut time = Time::new(fx(0), fx(100), fx(1));
    for i in 0..100 {
        assert_eq!(time.now, fx(i));
        time.next();
    }
}
