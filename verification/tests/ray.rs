use lensray::{Ray, Vec3, FP};

#[test]
fn test_origin() {
    let origin: Vec3 = Vec3::new(FP, 2 * FP, 3 * FP);
    let direction: Vec3 = Vec3::new(3 * FP, 4 * FP, FP);
    let ray: Ray = Ray::new(origin, direction);
    assert_eq!(ray.origin(), origin);
}

#[test]
fn test_march() {
    let origin: Vec3 = Vec3::new(FP, 2 * FP, 3 * FP);
    let direction: Vec3 = Vec3::new(3 * FP, 4 * FP, FP);
    let mut ray: Ray = Ray::new(origin, direction);
    ray = ray.march(FP);
    assert_ne!(ray.origin(), origin);
}

#[test]
fn test_direction() {
    let origin: Vec3 = Vec3::new(FP, 2 * FP, 3 * FP);
    let direction: Vec3 = Vec3::new(3 * FP, 4 * FP, FP);
    let ray: Ray = Ray::new(origin, direction);
    assert_eq!(ray.direction(), direction);
}

#[test]
fn test_param() {
    let origin: Vec3 = Vec3::new(FP, 2 * FP, 3 * FP);
    let direction: Vec3 = Vec3::new(3 * FP, 4 * FP, FP);
    let ray: Ray = Ray::new(origin, direction);
    let point: Vec3 = Vec3::new(7 * FP, 10 * FP, 5 * FP);
    assert_eq!(ray.point_at_parameter(2 * FP), point);
}

#[test]
fn test_march_advances_along_direction() {
    let ray: Ray = Ray::new(Vec3::new(0, 0, 0), Vec3::new(0, 0, -FP));
    let marched: Ray = ray.march(FP / 2);
    assert_eq!(marched.origin(), Vec3::new(0, 0, -FP / 2));
    assert_eq!(marched.direction(), Vec3::new(0, 0, -FP));
}

// A ray whose origin lies inside the event horizon is absorbed: zero
// direction, sentinel origin.
#[test]
fn test_horizon_absorbs_ray() {
    let ray: Ray = Ray::new(Vec3::new(0, 0, 0), Vec3::new(0, 0, -FP));
    let g: Vec3 = Vec3::new(0, 0, -FP / 4);
    let out: Ray = ray.apply_gravity_and_march(&g, FP / 2, 6553);
    assert_eq!(out.direction(), Vec3::new(0, 0, 0));
    assert_eq!(out.origin(), Vec3::new(1000 * FP, 0, 0));
}

// A ray exactly on the horizon boundary is absorbed as well.
#[test]
fn test_horizon_boundary_absorbs_ray() {
    let ray: Ray = Ray::new(Vec3::new(0, 0, 0), Vec3::new(0, 0, -FP));
    let g: Vec3 = Vec3::new(0, 0, -FP / 2);
    let out: Ray = ray.apply_gravity_and_march(&g, FP / 2, 6553);
    assert_eq!(out.direction(), Vec3::new(0, 0, 0));
}

// With zero strength the step only normalizes the direction and advances.
#[test]
fn test_zero_strength_march_is_straight() {
    let ray: Ray = Ray::new(Vec3::new(0, 0, 0), Vec3::new(0, 0, -2 * FP));
    let g: Vec3 = Vec3::new(0, 10 * FP, 0);
    let out: Ray = ray.apply_gravity_and_march(&g, 0, 6553);
    assert_eq!(out.direction(), Vec3::new(0, 0, -FP));
    assert_eq!(out.origin(), Vec3::new(0, 0, -6553));
}
