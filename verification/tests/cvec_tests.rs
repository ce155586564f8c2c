//! The component-vector operations on exactly representable values.

use ray_tracing::cvec::CVec;
use ray_tracing::fixed::Fx;
use ray_tracing::vec3::Vec3;

fn setup() -> (CVec, CVec) {
    let a = vec![
        Fx::from_micros(100_000),
        Fx::from_micros(200_000),
        Fx::from_micros(300_000),
        Fx::from_micros(400_000),
        Fx::from_micros(500_000),
    ];
    let b = vec![
        Fx::from_micros(0),
        Fx::from_micros(100_000),
        Fx::from_micros(200_000),
        Fx::from_micros(300_000),
        Fx::from_micros(400_000),
    ];
    (CVec::from_data(a), CVec::from_data(b))
}

#[test]
fn test_size() {
    let (v, _) = setup();
    assert_eq!(v.len(), 5);
}

#[test]
fn test_lenght_squared() {
    let (v, _) = setup();
    let r = v.length_squared();
    // 0.01 + 0.04 + 0.09 + 0.16 + 0.25 == 0.55, exactly representable.
    assert_eq!(r.to_micros(), 550_000);
}

#[test]
fn test_lenght() {
    let (v, _) = setup();
    let r = v.length();
    // The floor of sqrt(0.55) in millionths.
    assert_eq!(r.to_micros(), 741_619);
}

#[test]
fn test_dot() {
    let (v, l) = setup();
    let r = CVec::dot(&v, &l);
    assert_eq!(r.to_micros(), 400_000);
}

#[test]
fn test_cross() {
    let v = Vec3::from_micros(100_000, 200_000, 300_000);
    let l = Vec3::from_micros(0, 100_000, 200_000);
    let r = v.cross(&l);
    assert_eq!(r.x().to_micros(), 10_000);
    assert_eq!(r.y().to_micros(), -20_000);
    assert_eq!(r.z().to_micros(), 10_000);
}

#[test]
fn cvec_unit_vector_of_axis() {
    let v = CVec::from_data(vec![Fx::from_micros(2_000_000), Fx::zero(), Fx::zero()]);
    let u = v.unit_vector();
    assert_eq!(u.data()[0].to_micros(), 1_000_000);
    assert_eq!(u.data()[1].to_micros(), 0);
}

#[test]
fn cvec_near_zero() {
    let z = CVec::zeros(3);
    assert!(z.near_zero());
    let (v, _) = setup();
    assert!(!v.near_zero());
}

#[test]
fn cvec_reflect_axis() {
    // Reflecting (1, -1, 0) about the y axis flips the y component.
    let v = CVec::from_data(vec![
        Fx::from_micros(1_000_000),
        Fx::from_micros(-1_000_000),
        Fx::zero(),
    ]);
    let n = CVec::from_data(vec![Fx::zero(), Fx::from_micros(1_000_000), Fx::zero()]);
    let r = v.reflect(&n);
    assert_eq!(r.data()[0].to_micros(), 1_000_000);
    assert_eq!(r.data()[1].to_micros(), 1_000_000);
    assert_eq!(r.data()[2].to_micros(), 0);
}

#[test]
fn cvec_random_in_unit_sphere_is_inside() {
    for n in [2usize, 3, 5] {
        let v = CVec::random_in_unit_sphere(n);
        assert_eq!(v.len(), n);
        assert!(v.length_squared().to_micros() < 1_000_000);
    }
}

#[test]
fn cvec_ones_zeros() {
    let o = CVec::ones(4);
    let z = CVec::zeros(4);
    for i in 0..4 {
        assert_eq!(o.data()[i].to_micros(), 1_000_000);
        assert_eq!(z.data()[i].to_micros(), 0);
    }
}

fn micros_of(v: &CVec) -> Vec<i64> {
    v.data().iter().map(|f| f.to_micros()).collect()
}

#[test]
fn test_add() {
    let (v, l) = setup();
    let r = v.add(&l);
    assert_eq!(
        micros_of(&r),
        vec![100_000, 300_000, 500_000, 700_000, 900_000]
    );
}

#[test]
fn test_sub() {
    let (v, l) = setup();
    let r = v.sub(&l);
    assert_eq!(
        micros_of(&r),
        vec![100_000, 100_000, 100_000, 100_000, 100_000]
    );
}

#[test]
fn test_mul_self() {
    let (v, l) = setup();
    let r = v.mul(&l);
    assert_eq!(micros_of(&r), vec![0, 20_000, 60_000, 120_000, 200_000]);
}

#[test]
fn test_mul_f64() {
    let (v, _) = setup();
    let l = Fx::from_micros(1_200_000);
    let r = v.scale(l);
    assert_eq!(
        micros_of(&r),
        vec![120_000, 240_000, 360_000, 480_000, 600_000]
    );
}

#[test]
fn test_div() {
    let (v, _) = setup();
    let ll = Fx::from_micros(1_200_000);
    let r = v.div_by(ll);
    assert_eq!(
        micros_of(&r),
        vec![83_333, 166_666, 250_000, 333_333, 416_666]
    );
}

#[test]
fn test_add_assign() {
    let (mut v, l) = setup();
    v.add_assign(&l);
    assert_eq!(
        micros_of(&v),
        vec![100_000, 300_000, 500_000, 700_000, 900_000]
    );
}

#[test]
fn test_mul_assign_f64() {
    let (mut v, _) = setup();
    v.mul_assign(Fx::from_micros(1_200_000));
    assert_eq!(
        micros_of(&v),
        vec![120_000, 240_000, 360_000, 480_000, 600_000]
    );
}

#[test]
fn test_div_assign() {
    let (mut v, _) = setup();
    v.div_assign(Fx::from_micros(1_200_000));
    assert_eq!(
        micros_of(&v),
        vec![83_333, 166_666, 250_000, 333_333, 416_666]
    );
}
