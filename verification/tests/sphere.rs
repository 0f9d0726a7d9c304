use lensray::{HitRecord, Material, Ray, Sphere, Vec3, FP};

fn lambertian_gray() -> Material {
    Material::Lambertian { albedo: Vec3::new(FP / 2, FP / 2, FP / 2) }
}

// Sphere at (0,0,-1) with radius 0.5; ray from the origin straight at the
// center: hit at t = 0.5, point (0,0,-0.5), outward normal (0,0,1).
#[test]
fn test_head_on_unit_example() {
    let s: Sphere = Sphere::new(Vec3::new(0, 0, -FP), FP / 2, lambertian_gray());
    let r: Ray = Ray::new(Vec3::new(0, 0, 0), Vec3::new(0, 0, -FP));
    let mut rec: HitRecord = HitRecord::new();
    let hit: bool = s.intersect(&r, 0, 100 * FP, &mut rec);
    assert!(hit);
    assert_eq!(rec.t, FP / 2);
    assert_eq!(rec.p, Vec3::new(0, 0, -FP / 2));
    assert_eq!(rec.normal, Vec3::new(0, 0, FP));
    assert_eq!(rec.material, lambertian_gray());
}

// Another head-on instance: distance 3, radius 1, so t = 2.
#[test]
fn test_head_on_far_instance() {
    let s: Sphere = Sphere::new(Vec3::new(0, 0, -3 * FP), FP, lambertian_gray());
    let r: Ray = Ray::new(Vec3::new(0, 0, 0), Vec3::new(0, 0, -FP));
    let mut rec: HitRecord = HitRecord::new();
    let hit: bool = s.intersect(&r, 0, 100 * FP, &mut rec);
    assert!(hit);
    assert_eq!(rec.t, 2 * FP);
    assert_eq!(rec.normal, Vec3::new(0, 0, FP));
}

// A miss must leave the caller's record untouched: pre-populate sentinel
// values and check they survive a no-hit query.
#[test]
fn test_miss_leaves_record_unchanged() {
    let s: Sphere = Sphere::new(Vec3::new(0, 0, -4 * FP), FP / 2, lambertian_gray());
    let r: Ray = Ray::new(Vec3::new(0, 0, 0), Vec3::new(0, FP, 0));
    let mut rec: HitRecord = HitRecord::new();
    rec.t = 12345;
    rec.p = Vec3::new(11, 22, 33);
    rec.normal = Vec3::new(44, 55, 66);
    rec.material = Material::Dielectric { ref_idx: 3 * FP / 2 };
    let hit: bool = s.intersect(&r, 0, 100 * FP, &mut rec);
    assert!(!hit);
    assert_eq!(rec.t, 12345);
    assert_eq!(rec.p, Vec3::new(11, 22, 33));
    assert_eq!(rec.normal, Vec3::new(44, 55, 66));
    assert_eq!(rec.material, Material::Dielectric { ref_idx: 3 * FP / 2 });
}

// A hit behind the window is not reported.
#[test]
fn test_window_excludes_far_hit() {
    let s: Sphere = Sphere::new(Vec3::new(0, 0, -3 * FP), FP, lambertian_gray());
    let r: Ray = Ray::new(Vec3::new(0, 0, 0), Vec3::new(0, 0, -FP));
    let mut rec: HitRecord = HitRecord::new();
    let hit: bool = s.intersect(&r, 0, FP, &mut rec);
    assert!(!hit);
}

// From inside the sphere, the smaller root is behind t_min and the larger
// root is taken.
#[test]
fn test_inside_sphere_takes_far_root() {
    let s: Sphere = Sphere::new(Vec3::new(0, 0, 0), FP, lambertian_gray());
    let r: Ray = Ray::new(Vec3::new(0, 0, 0), Vec3::new(0, 0, -FP));
    let mut rec: HitRecord = HitRecord::new();
    let hit: bool = s.intersect(&r, 0, 100 * FP, &mut rec);
    assert!(hit);
    assert_eq!(rec.t, FP);
    assert_eq!(rec.normal, Vec3::new(0, 0, -FP));
}
