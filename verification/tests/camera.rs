use lensray::{Camera, Rng, Vec3, FP};

fn square_camera(aperture: i64) -> Camera {
    Camera::new(
        Vec3::new(0, 0, 0),
        Vec3::new(0, 0, -FP),
        Vec3::new(0, FP, 0),
        FP,
        FP,
        aperture,
        FP,
    )
}

// A zero-aperture camera is a pinhole: for fixed (u, v) it yields the same
// ray every time and never touches the sample source.
#[test]
fn test_pinhole_camera_is_deterministic() {
    let cam: Camera = square_camera(0);
    let mut rng: Rng = Rng::new(123);
    let seed_before: u64 = rng.s;
    let r1 = cam.get_ray(FP / 2, FP / 2, &mut rng);
    let r2 = cam.get_ray(FP / 2, FP / 2, &mut rng);
    assert_eq!(rng.s, seed_before);
    assert_eq!(r1, r2);
    assert_eq!(r1.origin(), Vec3::new(0, 0, 0));
    assert_eq!(r1.direction(), Vec3::new(0, 0, -FP));
}

// The viewport corners of the square camera.
#[test]
fn test_pinhole_camera_corners() {
    let cam: Camera = square_camera(0);
    let mut rng: Rng = Rng::new(0);
    let ll = cam.get_ray(0, 0, &mut rng);
    assert_eq!(ll.direction(), Vec3::new(-FP, -FP, -FP));
    let ur = cam.get_ray(FP, FP, &mut rng);
    assert_eq!(ur.direction(), Vec3::new(FP, FP, -FP));
}

// With a positive aperture, the lens jitter draws from the sample source.
#[test]
fn test_aperture_camera_uses_sample_source() {
    let cam: Camera = square_camera(FP / 2);
    let mut rng: Rng = Rng::new(123);
    let seed_before: u64 = rng.s;
    let _ = cam.get_ray(FP / 2, FP / 2, &mut rng);
    assert_ne!(rng.s, seed_before);
}
