use lensray::{FlatScene, HitRecord, LensingWorld, Material, Ray, Sphere, Vec3, FP};

fn gray() -> Material {
    Material::Lambertian { albedo: Vec3::new(FP / 2, FP / 2, FP / 2) }
}

// With gravity strength zero and a window inside one step length, the
// lensing query answers exactly like the straight-line scene.
#[test]
fn test_flat_equals_single_step_lensing() {
    // A small sphere within one integrator step of the origin.
    let s: Sphere = Sphere::new(Vec3::new(0, 0, -4915), 4096, gray());
    let mut flat: FlatScene = FlatScene::new();
    flat.add_sphere(s);
    let mut lens: LensingWorld = LensingWorld::new(Vec3::new(100 * FP, 0, 0), 0);
    lens.add_sphere(s);
    let r: Ray = Ray::new(Vec3::new(0, 0, 0), Vec3::new(0, 0, -FP));
    let mut rec_f: HitRecord = HitRecord::new();
    let mut rec_l: HitRecord = HitRecord::new();
    let hit_f: bool = flat.intersect(&r, 1, 6553, &mut rec_f);
    let hit_l: bool = lens.intersect(&r, 1, 6553, &mut rec_l);
    assert!(hit_f);
    assert_eq!(hit_f, hit_l);
    assert_eq!(rec_f, rec_l);
}

// The same equality on a miss.
#[test]
fn test_flat_equals_single_step_lensing_miss() {
    let s: Sphere = Sphere::new(Vec3::new(0, 0, -4 * FP), 4096, gray());
    let mut flat: FlatScene = FlatScene::new();
    flat.add_sphere(s);
    let mut lens: LensingWorld = LensingWorld::new(Vec3::new(100 * FP, 0, 0), 0);
    lens.add_sphere(s);
    let r: Ray = Ray::new(Vec3::new(0, 0, 0), Vec3::new(0, FP, 0));
    let mut rec_f: HitRecord = HitRecord::new();
    let mut rec_l: HitRecord = HitRecord::new();
    let hit_f: bool = flat.intersect(&r, 1, 6553, &mut rec_f);
    assert!(!hit_f);
    // The lensing scene marches on and still finds nothing.
    let hit_l: bool = lens.intersect(&r, 1, 6553, &mut rec_l);
    assert_eq!(hit_f, hit_l);
}

// The flat scene picks the globally nearest hit regardless of insertion
// order.
#[test]
fn test_flat_nearest_hit_wins() {
    let far: Sphere = Sphere::new(Vec3::new(0, 0, -3 * FP), FP / 2, gray());
    let near: Sphere = Sphere::new(Vec3::new(0, 0, -FP), FP / 2, gray());
    let mut w: FlatScene = FlatScene::new();
    w.add_sphere(far);
    w.add_sphere(near);
    assert_eq!(w.size(), 2);
    let r: Ray = Ray::new(Vec3::new(0, 0, 0), Vec3::new(0, 0, -FP));
    let mut rec: HitRecord = HitRecord::new();
    let hit: bool = w.intersect(&r, 0, 100 * FP, &mut rec);
    assert!(hit);
    assert_eq!(rec.t, FP / 2);
}

// A ray marching straight at the gravity point of an empty lensing scene
// falls into the horizon and ends as a miss, within the budget.
#[test]
fn test_lensing_ray_into_horizon_is_miss() {
    let lens: LensingWorld = LensingWorld::new(Vec3::new(0, 0, -2 * FP), FP);
    let r: Ray = Ray::new(Vec3::new(0, 0, 0), Vec3::new(0, 0, -FP));
    let mut rec: HitRecord = HitRecord::new();
    rec.t = 777;
    let hit: bool = lens.intersect(&r, 1, 100 * FP, &mut rec);
    assert!(!hit);
    assert_eq!(rec.t, 777);
}

// A sphere further than one step is still found after marching.
#[test]
fn test_lensing_marches_to_distant_sphere() {
    let s: Sphere = Sphere::new(Vec3::new(0, 0, -2 * FP), FP / 2, gray());
    let mut lens: LensingWorld = LensingWorld::new(Vec3::new(100 * FP, 0, 0), 0);
    lens.add_sphere(s);
    assert_eq!(lens.size(), 1);
    let r: Ray = Ray::new(Vec3::new(0, 0, 0), Vec3::new(0, 0, -FP));
    let mut rec: HitRecord = HitRecord::new();
    let hit: bool = lens.intersect(&r, 1, 100 * FP, &mut rec);
    assert!(hit);
    assert!(rec.t < 6553);
    assert!(rec.normal.z > FP / 2);
}
