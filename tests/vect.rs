use raytracer::fixed::{fdiv, fmul, fsqrt, isqrt, ONE};
use raytracer::vect::{zero, Vect};
use raytracer::vect3;

fn v(x: i64, y: i64, z: i64) -> Vect {
    Vect::units(x, y, z)
}

#[test]
fn vect_test() {
    //Equality test
    assert_eq!(v(0, 0, 0) == v(0, 0, 0), true);
    assert_eq!(v(0, 0, 0) != v(10, 0, 0), true);
    //Addition test
    assert_eq!(v(1, 2, 3).add(&v(2, 1, 0)), v(3, 3, 3));
    assert_eq!(v(5, 5, 5).add(&v(-5, -5, -5)), v(0, 0, 0));

    assert_eq!(v(1, 2, 3).sub(&v(2, 1, 0)), v(-1, 1, 3));
    assert_eq!(v(5, 5, 5).sub(&v(-5, -5, -5)), v(10, 10, 10));

    assert_eq!(v(2, 1, 0).scalar_mul(&(5 * ONE)), v(10, 5, 0));
    assert_eq!(v(-5, -5, -5).scalar_mul(&0), v(0, 0, 0));

    assert_eq!(v(4, 4, 4).scalar_div(&(2 * ONE)).unwrap(), v(2, 2, 2));
    assert_eq!(None, v(5, 5, 5).scalar_div(&0));

    assert_eq!(v(1, 1, 0).dot(&v(0, 0, 1)), 0);
    assert_eq!(v(2, 0, 0).dot(&v(2, 0, 0)), 4 * ONE);

    assert_eq!(v(2, 0, 0).cross(&v(2, 0, 0)), v(0, 0, 0));
    assert_eq!(v(1, 0, 0).cross(&v(0, 1, 0)), v(0, 0, 1));

    assert_eq!(v(1, 0, 0).norm(), ONE);
    assert_eq!(v(3, 0, 0).normalise(), v(1, 0, 0));
}

#[test]
fn vect3_test() {
    let t = |x: i64, y: i64, z: i64| (x * ONE, y * ONE, z * ONE);
    //Addition test
    assert_eq!(vect3::add(&t(1, 2, 3), &t(2, 1, 0)), t(3, 3, 3));
    assert_eq!(vect3::add(&t(5, 5, 5), &t(-5, -5, -5)), t(0, 0, 0));

    assert_eq!(vect3::sub(&t(1, 2, 3), &t(2, 1, 0)), t(-1, 1, 3));
    assert_eq!(vect3::sub(&t(5, 5, 5), &t(-5, -5, -5)), t(10, 10, 10));

    assert_eq!(vect3::scalar_mul(&(5 * ONE), &t(2, 1, 0)), t(10, 5, 0));
    assert_eq!(vect3::scalar_mul(&0, &t(-5, -5, -5)), t(0, 0, 0));

    assert_eq!(vect3::scalar_div(&(2 * ONE), &t(4, 4, 4)).unwrap(), t(2, 2, 2));
    assert_eq!(None, vect3::scalar_div(&0, &t(5, 5, 5)));

    assert_eq!(vect3::dot(&t(1, 1, 0), &t(0, 0, 1)), 0);
    assert_eq!(vect3::dot(&t(2, 0, 0), &t(2, 0, 0)), 4 * ONE);

    assert_eq!(vect3::cross(&t(2, 0, 0), &t(2, 0, 0)), t(0, 0, 0));
    assert_eq!(vect3::cross(&t(1, 0, 0), &t(0, 1, 0)), t(0, 0, 1));

    assert_eq!(vect3::norm(&t(1, 0, 0)), ONE);
    assert_eq!(vect3::normalise(&t(3, 0, 0)), t(1, 0, 0));
}

#[test]
fn add_and_sub_undo_each_other() {
    let a = Vect(123_456, -789_012, 3);
    let b = Vect(-42, 65_536 * 7, 999_999);
    assert_eq!(a.add(&b).sub(&b), a);
    assert_eq!(a.sub(&b).add(&b), a);
}

#[test]
fn dot_is_symmetric_and_additive() {
    let a = v(1, -2, 3);
    let b = v(4, 5, -6);
    let c = v(-7, 8, 9);
    assert_eq!(a.dot(&b), b.dot(&a));
    assert_eq!(a.dot(&b), -24 * ONE);
    assert_eq!(a.add(&b).dot(&c), a.dot(&c) + b.dot(&c));
    assert_eq!(a.scalar_mul(&(3 * ONE)).dot(&b), 3 * a.dot(&b));
}

#[test]
fn cross_with_itself_is_zero() {
    let a = Vect(12_345, -67_890, 424_242);
    assert_eq!(a.cross(&a), zero());
    assert_eq!(v(0, 1, 0).cross(&v(0, 0, 1)), v(1, 0, 0));
}

#[test]
fn normalise_gives_unit_length() {
    let u = v(3, 4, 0).normalise();
    assert_eq!(u, Vect(39_321, 52_428, 0));
    let n = u.norm();
    assert!(n <= ONE && n >= ONE - 2);
}

#[test]
fn normalise_keeps_short_vectors() {
    let tiny = Vect(1, 2, 3);
    assert!(tiny.norm() < raytracer::fixed::EPSILON);
    assert_eq!(tiny.normalise(), tiny);
    assert_eq!(zero().normalise(), zero());
}

#[test]
fn scalar_div_refuses_small_divisors_of_either_sign() {
    assert_eq!(v(1, 1, 1).scalar_div(&-(2 * ONE)).unwrap(), Vect(-ONE / 2, -ONE / 2, -ONE / 2));
    assert_eq!(v(1, 1, 1).scalar_div(&-10), None);
    assert_eq!(v(1, 1, 1).scalar_div(&63), None);
    assert!(v(1, 1, 1).scalar_div(&64).is_some());
}

#[test]
fn pointwise_and_saturation() {
    assert_eq!(v(1, 2, 3).pointwise_mul(&v(4, 5, 6)), v(4, 10, 18));
    let big = Vect(raytracer::fixed::LIMIT, 0, 0);
    assert_eq!(big.add(&big).0, raytracer::fixed::LIMIT);
    assert_eq!(v(0, 0, 0).sub(&big).sub(&big).0, -raytracer::fixed::LIMIT);
}

#[test]
fn fixed_point_helpers() {
    assert_eq!(fmul(3 * ONE / 2, 2 * ONE), 3 * ONE);
    assert_eq!(fmul(-1, 1), -1);
    assert_eq!(fdiv(ONE, 4 * ONE), ONE / 4);
    assert_eq!(fdiv(-ONE, 3 * ONE), -21_846);
    assert_eq!(isqrt(99), 9);
    assert_eq!(isqrt(100), 10);
    assert_eq!(fsqrt(9 * ONE), 3 * ONE);
}
