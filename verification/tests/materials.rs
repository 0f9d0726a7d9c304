use lensray::{HitRecord, Material, Ray, Rng, Sphere, Vec3, FP};

fn hit_straight_on() -> (Ray, HitRecord) {
    let s: Sphere = Sphere::new(
        Vec3::new(0, 0, -FP),
        FP / 2,
        Material::Lambertian { albedo: Vec3::new(FP / 2, FP / 4, FP / 8) },
    );
    let r: Ray = Ray::new(Vec3::new(0, 0, 0), Vec3::new(0, 0, -FP));
    let mut rec: HitRecord = HitRecord::new();
    let hit: bool = s.intersect(&r, 0, 100 * FP, &mut rec);
    assert!(hit);
    (r, rec)
}

// Lambertian scattering is never absorbed and its attenuation is always the
// configured albedo, for any draw of the sample source.
#[test]
fn test_lambertian_never_absorbs() {
    let albedo: Vec3 = Vec3::new(FP / 2, FP / 4, FP / 8);
    let m: Material = Material::Lambertian { albedo };
    let (r, rec) = hit_straight_on();
    let mut rng: Rng = Rng::new(42);
    let mut k: u32 = 0;
    while k < 100 {
        let out = m.scatter(&r, &rec, &mut rng);
        assert!(out.is_some());
        let (att, sray) = out.unwrap();
        assert_eq!(att, albedo);
        assert_eq!(sray.origin(), rec.p);
        k += 1;
    }
}

// A mirror metal reflects a head-on ray straight back.
#[test]
fn test_metal_head_on_reflects_back() {
    let albedo: Vec3 = Vec3::new(FP, FP, FP);
    let m: Material = Material::Metal { albedo, fuzz: 0 };
    let (r, rec) = hit_straight_on();
    let out = m.scatter_with(&r, &rec, Vec3::new(0, 0, 0), 0);
    assert!(out.is_some());
    let (att, sray) = out.unwrap();
    assert_eq!(att, albedo);
    assert_eq!(sray.direction(), Vec3::new(0, 0, FP));
}

// A metal ray scattered into the surface is absorbed.
#[test]
fn test_metal_grazing_absorbs() {
    let m: Material = Material::Metal { albedo: Vec3::new(FP, FP, FP), fuzz: 0 };
    let (_, mut rec) = hit_straight_on();
    // Flip the stored normal so the reflection points into the surface.
    rec.normal = Vec3::new(0, 0, -FP);
    let r: Ray = Ray::new(Vec3::new(0, 0, 0), Vec3::new(0, 0, -FP));
    let out = m.scatter_with(&r, &rec, Vec3::new(0, 0, 0), 0);
    assert!(out.is_none());
}

// Dielectric at normal incidence, entering an index-1.5 medium: the
// reflectance is Schlick's 0.04, so any draw above it refracts straight
// through, and a draw below it reflects straight back.
#[test]
fn test_dielectric_normal_incidence() {
    let m: Material = Material::Dielectric { ref_idx: 3 * FP / 2 };
    let (r, rec) = hit_straight_on();
    let refracted = m.scatter_with(&r, &rec, Vec3::new(0, 0, 0), 3000);
    let (att, sray) = refracted.unwrap();
    assert_eq!(att, Vec3::new(FP, FP, FP));
    assert_eq!(sray.direction(), Vec3::new(0, 0, -FP));
    let reflected = m.scatter_with(&r, &rec, Vec3::new(0, 0, 0), 100);
    let (_, sray2) = reflected.unwrap();
    assert_eq!(sray2.direction(), Vec3::new(0, 0, FP));
}

// Refraction dominates across repeated random trials at normal incidence.
#[test]
fn test_dielectric_normal_incidence_mostly_refracts() {
    let m: Material = Material::Dielectric { ref_idx: 3 * FP / 2 };
    let (r, rec) = hit_straight_on();
    let mut rng: Rng = Rng::new(7);
    let mut refracted: u32 = 0;
    let mut k: u32 = 0;
    while k < 200 {
        let out = m.scatter(&r, &rec, &mut rng);
        let (_, sray) = out.unwrap();
        if sray.direction().z < 0 {
            refracted += 1;
        }
        k += 1;
    }
    assert!(refracted > 150);
}

// A sufficiently grazing exit ray always totally internally reflects: the
// draw makes no difference to the scattered direction.
#[test]
fn test_dielectric_grazing_exit_always_reflects() {
    let m: Material = Material::Dielectric { ref_idx: 3 * FP / 2 };
    let (_, mut rec) = hit_straight_on();
    rec.normal = Vec3::new(0, 0, FP);
    // Exiting the medium at a steep angle: direction mostly sideways, a
    // positive dot with the normal.
    let r: Ray = Ray::new(Vec3::new(0, 0, 0), Vec3::new(4 * FP, 0, FP));
    let a = m.scatter_with(&r, &rec, Vec3::new(0, 0, 0), 0).unwrap();
    let b = m.scatter_with(&r, &rec, Vec3::new(0, 0, 0), FP - 1).unwrap();
    assert_eq!(a.1.direction(), b.1.direction());
    // It reflected back into the medium rather than bending through.
    assert!(a.1.direction().z < 0);
    assert_eq!(a.0, Vec3::new(FP, FP, FP));
}
