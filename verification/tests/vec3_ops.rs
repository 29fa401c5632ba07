//! Vector algebra at fixed-point scale: a whole value `k` is written as
//! `k * 65536` raw units, and results are rounded or divided back to
//! whole units for comparison.

use ray_tracer::fx::SCALE;
use ray_tracer::vec3::Vec3;

#[test]
fn test_length() {
    let e: [i64; 3] = [10 * SCALE, 20 * SCALE, 30 * SCALE];
    let v = Vec3::new(e[0], e[1], e[2]);
    let ls = v.length_squared();
    let ls_ans: i64 = (10 * 10 + 20 * 20 + 30 * 30) as i64;
    assert_eq!(ls_ans, 1400);
    assert_eq!((ls + SCALE / 2) / SCALE, ls_ans);
    let l = v.length();
    let l_ans: i64 = 37;
    assert_eq!((l + SCALE / 2) / SCALE, l_ans);
    assert!(l * l <= 1400 * SCALE * SCALE && 1400 * SCALE * SCALE < (l + 1) * (l + 1));
}

#[test]
fn test_neg() {
    let l = Vec3::new(10 * SCALE, 20 * SCALE, 30 * SCALE);
    let v = l.neg();
    assert_eq!(v.get(0) / SCALE, -10);
    assert_eq!(v.get(1) / SCALE, -20);
    assert_eq!(v.get(2) / SCALE, -30);
    let v = v.neg();
    assert_eq!(v.get(0) / SCALE, 10);
    assert_eq!(v.get(1) / SCALE, 20);
    assert_eq!(v.get(2) / SCALE, 30);
}

#[test]
fn test_add() {
    let l = Vec3::new(10 * SCALE, 20 * SCALE, 30 * SCALE);
    let r = Vec3::new(10 * SCALE, 20 * SCALE, 30 * SCALE);
    let v = l.add(&r);
    assert_eq!(v.get(0) / SCALE, 20);
    assert_eq!(v.get(1) / SCALE, 40);
    assert_eq!(v.get(2) / SCALE, 60);
}

#[test]
fn test_add_assign() {
    let mut l = Vec3::new(10 * SCALE, 20 * SCALE, 30 * SCALE);
    let r = Vec3::new(10 * SCALE, 20 * SCALE, 30 * SCALE);
    l = l.add(&r);
    assert_eq!(l.get(0) / SCALE, 20);
    assert_eq!(l.get(1) / SCALE, 40);
    assert_eq!(l.get(2) / SCALE, 60);
}

#[test]
fn test_sub() {
    let l = Vec3::new(10 * SCALE, 20 * SCALE, 30 * SCALE);
    let r = Vec3::new(5 * SCALE, 10 * SCALE, 15 * SCALE);
    let v = l.sub(&r);
    assert_eq!(v.get(0) / SCALE, 5);
    assert_eq!(v.get(1) / SCALE, 10);
    assert_eq!(v.get(2) / SCALE, 15);
}

#[test]
fn test_sub_assign() {
    let mut l = Vec3::new(10 * SCALE, 20 * SCALE, 30 * SCALE);
    let r = Vec3::new(5 * SCALE, 10 * SCALE, 15 * SCALE);
    l = l.sub(&r);
    assert_eq!(l.get(0) / SCALE, 5);
    assert_eq!(l.get(1) / SCALE, 10);
    assert_eq!(l.get(2) / SCALE, 15);
}

#[test]
fn test_mul() {
    let l = Vec3::new(10 * SCALE, 20 * SCALE, 30 * SCALE);
    let r: i64 = 3 * SCALE;
    let v = l.scale(r);
    assert_eq!(v.get(0) / SCALE, 30);
    assert_eq!(v.get(1) / SCALE, 60);
    assert_eq!(v.get(2) / SCALE, 90);
}

#[test]
fn test_mul_assign() {
    let mut l = Vec3::new(10 * SCALE, 20 * SCALE, 30 * SCALE);
    let r: i64 = 3 * SCALE;
    l = l.scale(r);
    assert_eq!(l.get(0) / SCALE, 30);
    assert_eq!(l.get(1) / SCALE, 60);
    assert_eq!(l.get(2) / SCALE, 90);
}

#[test]
fn test_div() {
    let l = Vec3::new(10 * SCALE, 20 * SCALE, 30 * SCALE);
    let r: i64 = 2 * SCALE;
    let v = l.div(r);
    assert_eq!(v.get(0) / SCALE, 5);
    assert_eq!(v.get(1) / SCALE, 10);
    assert_eq!(v.get(2) / SCALE, 15);
}

#[test]
fn test_div_negative() {
    let l = Vec3::new(10 * SCALE, 20 * SCALE, 30 * SCALE);
    let r: i64 = -2 * SCALE;
    let v = l.div(r);
    assert_eq!(v.get(0) / SCALE, -5);
    assert_eq!(v.get(1) / SCALE, -10);
    assert_eq!(v.get(2) / SCALE, -15);
}

#[test]
fn test_div_assign() {
    let mut l = Vec3::new(10 * SCALE, 20 * SCALE, 30 * SCALE);
    let r: i64 = 2 * SCALE;
    l = l.div(r);
    assert_eq!(l.get(0) / SCALE, 5);
    assert_eq!(l.get(1) / SCALE, 10);
    assert_eq!(l.get(2) / SCALE, 15);
}

#[test]
fn test_dot() {
    let l = Vec3::new(SCALE, 2 * SCALE, 3 * SCALE);
    let r = Vec3::new(4 * SCALE, 5 * SCALE, 6 * SCALE);
    assert_eq!(l.dot(&r), 32 * SCALE);
}

#[test]
fn test_cross() {
    // The component-wise determinant formula, on the basis vectors and
    // on a pair with every coordinate distinct.
    let x = Vec3::new(SCALE, 0, 0);
    let y = Vec3::new(0, SCALE, 0);
    assert_eq!(x.cross(&y), Vec3::new(0, 0, SCALE));
    let a = Vec3::new(SCALE, 2 * SCALE, 3 * SCALE);
    let b = Vec3::new(4 * SCALE, 5 * SCALE, 6 * SCALE);
    assert_eq!(
        a.cross(&b),
        Vec3::new(-3 * SCALE, 6 * SCALE, -3 * SCALE)
    );
}

#[test]
fn test_unit_exact() {
    let v = Vec3::new(0, 10 * SCALE, 0);
    assert_eq!(v.unit(), Vec3::new(0, SCALE, 0));
}

#[test]
fn test_reflect_exact() {
    // An exactly representable mirror bounce: (1, -1, 0) about (0, 1, 0).
    let v = Vec3::new(SCALE, -SCALE, 0);
    let n = Vec3::new(0, SCALE, 0);
    assert_eq!(v.reflect(&n), Vec3::new(SCALE, SCALE, 0));
}

#[test]
fn test_refract_identity() {
    // Matched media leave a head-on unit direction unchanged.
    let v = Vec3::new(0, -SCALE, 0);
    let n = Vec3::new(0, SCALE, 0);
    assert_eq!(v.refract(&n, SCALE), v);
}

#[test]
fn test_is_near_zero() {
    assert!(Vec3::new(0, 0, 0).is_near_zero());
    assert!(Vec3::new(255, -255, 100).is_near_zero());
    assert!(!Vec3::new(256, 0, 0).is_near_zero());
}

#[test]
fn test_index() {
    let l = Vec3::new(10 * SCALE, 20 * SCALE, 30 * SCALE);
    assert_eq!(l.get(0) / SCALE, 10);
    assert_eq!(l.get(1) / SCALE, 20);
    assert_eq!(l.get(2) / SCALE, 30);
}

#[test]
fn test_index_mut() {
    let mut l = Vec3::new(10 * SCALE, 20 * SCALE, 30 * SCALE);
    l.set(0, 5 * SCALE);
    l.set(1, 10 * SCALE);
    l.set(2, 15 * SCALE);
    assert_eq!(l.get(0) / SCALE, 5);
    assert_eq!(l.get(1) / SCALE, 10);
    assert_eq!(l.get(2) / SCALE, 15);
}
