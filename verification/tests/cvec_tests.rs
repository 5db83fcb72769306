//! The vector algebra, exercised on concrete values.

use ray_tracing::cvec::{cross, dot, CVec, Vec3};
use ray_tracing::scalar::Q;

fn q(n: i64, d: i64) -> Q {
    Q::new(n, d)
}

fn setup() -> (CVec<5>, CVec<5>) {
    (
        [q(1, 10), q(2, 10), q(3, 10), q(4, 10), q(5, 10)].into(),
        [q(0, 10), q(1, 10), q(2, 10), q(3, 10), q(4, 10)].into(),
    )
}

#[test]
fn test_size() {
    let (v, _) = setup();
    assert_eq!(v.len(), 5)
}

#[test]
fn test_lenght_squared() {
    let (v, _) = setup();
    let r = v.length_squared();
    assert_eq!(q(55, 100), r);
}

#[test]
fn test_lenght() {
    // The scalar's square root of 0.55, rounded down onto the 2^32 grid.
    let (v, _) = setup();
    let r = v.length();
    assert_eq!(q(3185232996, 4294967296), r);
}

#[test]
fn test_add() {
    let (v, l) = setup();
    let r: CVec<5> = [q(1, 10), q(3, 10), q(5, 10), q(7, 10), q(9, 10)].into();
    assert_eq!(v + l, r);
}

#[test]
fn test_sub() {
    let (v, l) = setup();
    let r: CVec<5> = [q(1, 10), q(1, 10), q(1, 10), q(1, 10), q(1, 10)].into();
    assert_eq!(v - l, r);
}

#[test]
fn test_mul_self() {
    let (v, l) = setup();
    let r: CVec<5> = [q(0, 100), q(2, 100), q(6, 100), q(12, 100), q(20, 100)].into();
    assert_eq!(v * l, r);
}

#[test]
fn test_mul_f64() {
    let (v, _) = setup();
    let l = q(12, 10);
    let r: CVec<5> = [
        q(12, 100),
        q(24, 100),
        q(36, 100),
        q(48, 100),
        q(60, 100),
    ]
    .into();
    assert_eq!(v * l, r);
}

#[test]
fn test_div() {
    let (v, _) = setup();
    let ll = q(12, 10);
    let l = Q::one() / ll;
    let r: CVec<5> = [q(1, 10) * l, q(2, 10) * l, q(3, 10) * l, q(4, 10) * l, q(5, 10) * l].into();
    assert_eq!(v / ll, r);
}

#[test]
fn test_add_assign() {
    let (mut v, l) = setup();
    let r: CVec<5> = [q(1, 10), q(3, 10), q(5, 10), q(7, 10), q(9, 10)].into();
    v.add_assign(l);
    assert_eq!(v, r);
}

#[test]
fn test_mul_assign_f64() {
    let (mut v, _) = setup();
    let l = q(12, 10);
    let r: CVec<5> = [
        q(12, 100),
        q(24, 100),
        q(36, 100),
        q(48, 100),
        q(60, 100),
    ]
    .into();
    v.mul_assign(l);
    assert_eq!(v, r);
}

#[test]
fn test_div_assign() {
    let (mut v, _) = setup();
    let ll = q(12, 10);
    let l = Q::one() / ll;
    let r: CVec<5> = [q(1, 10) * l, q(2, 10) * l, q(3, 10) * l, q(4, 10) * l, q(5, 10) * l].into();
    v.div_assign(ll);
    assert_eq!(v, r);
}

#[test]
fn test_dot() {
    let (v, l) = setup();
    let r = q(0 + 2 + 6 + 12 + 20, 100);
    assert_eq!(dot(v, l), r);
}

fn setup_vec3() -> (Vec3, Vec3) {
    (
        Vec3::new(q(1, 10), q(2, 10), q(3, 10)),
        Vec3::new(q(0, 10), q(1, 10), q(2, 10)),
    )
}

#[test]
fn test_cross() {
    let (v, l) = setup_vec3();
    let r: Vec3 = [
        q(2 * 2 - 3 * 1, 100),
        q(3 * 0 - 1 * 2, 100),
        q(1 * 1 - 2 * 0, 100),
    ]
    .into();
    assert_eq!(v.cross(&l), r);
    assert_eq!(cross(&v, &l), r);
}

// The same checks under the names their twins carry elsewhere.

#[test]
fn cvec_test_size() {
    test_size()
}

#[test]
fn cvec_test_lenght_squared() {
    test_lenght_squared()
}

#[test]
fn cvec_test_lenght() {
    test_lenght()
}

#[test]
fn cvec_test_add() {
    test_add()
}

#[test]
fn cvec_test_sub() {
    test_sub()
}

#[test]
fn cvec_test_mul_self() {
    test_mul_self()
}

#[test]
fn cvec_test_mul_f64() {
    test_mul_f64()
}

#[test]
fn cvec_test_div() {
    test_div()
}

#[test]
fn cvec_test_add_assign() {
    test_add_assign()
}

#[test]
fn cvec_test_mul_assign_f64() {
    test_mul_assign_f64()
}

#[test]
fn cvec_test_div_assign() {
    test_div_assign()
}

#[test]
fn cvec_test_dot() {
    test_dot()
}

#[test]
fn cvec_test_cross() {
    test_cross()
}
