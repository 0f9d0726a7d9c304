use lensray::{Vec3, FP};

#[test]
fn test_vec_add_sub_neg() {
    let a: Vec3 = Vec3::new(FP, 2 * FP, 3 * FP);
    let b: Vec3 = Vec3::new(4 * FP, -5 * FP, 6 * FP);
    assert_eq!(a.add(b), Vec3::new(5 * FP, -3 * FP, 9 * FP));
    assert_eq!(a.sub(b), Vec3::new(-3 * FP, 7 * FP, -3 * FP));
    assert_eq!(b.neg(), Vec3::new(-4 * FP, 5 * FP, -6 * FP));
}

#[test]
fn test_vec_scale_and_attenuation() {
    let a: Vec3 = Vec3::new(2 * FP, 0, -FP);
    assert_eq!(a.scale(FP / 2), Vec3::new(FP, 0, -FP / 2));
    let c: Vec3 = Vec3::new(FP / 2, FP, 0);
    let d: Vec3 = Vec3::new(FP / 2, FP / 4, FP);
    assert_eq!(c.mul_comp(d), Vec3::new(FP / 4, FP / 4, 0));
}

#[test]
fn test_vec_dot() {
    let a: Vec3 = Vec3::new(FP, 2 * FP, 3 * FP);
    let b: Vec3 = Vec3::new(4 * FP, 5 * FP, 6 * FP);
    assert_eq!(a.dot(b), 32 * FP);
}

#[test]
fn test_vec_cross() {
    let x: Vec3 = Vec3::new(FP, 0, 0);
    let y: Vec3 = Vec3::new(0, FP, 0);
    assert_eq!(x.cross(y), Vec3::new(0, 0, FP));
    assert_eq!(y.cross(x), Vec3::new(0, 0, -FP));
}

#[test]
fn test_vec_length_and_distance() {
    let a: Vec3 = Vec3::new(3 * FP, 4 * FP, 0);
    assert_eq!(a.length(), 5 * FP);
    let b: Vec3 = Vec3::new(FP, 2 * FP, 2 * FP);
    assert_eq!(b.distance(Vec3::new(0, 0, 0)), 3 * FP);
}

#[test]
fn test_vec_unit_vector() {
    let a: Vec3 = Vec3::new(0, 3 * FP, 4 * FP);
    // Components are floor(c * FP / |v|): 0.6 and 0.8 rounded down.
    assert_eq!(a.unit_vector(), Vec3::new(0, 39321, 52428));
    let axis: Vec3 = Vec3::new(0, 0, -7 * FP);
    assert_eq!(axis.unit_vector(), Vec3::new(0, 0, -FP));
}
