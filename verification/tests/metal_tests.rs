use raytrace_core::fixed::SCALE;
use raytrace_core::materials::metal::{reflect, Metal};
use raytrace_core::ray::{HitRecord, Ray};
use raytrace_core::rng::RandomSource;
use raytrace_core::vector3::Vector;

#[test]
fn new_stores_albedo_and_fuzz() {
    let m = Metal::new(52428, 13107, 6553, 1000);
    assert_eq!(m.albedo, Vector::new(52428, 13107, 6553));
    assert_eq!(m.fuzz, 1000);
}

#[test]
fn reflect_flips_the_normal_component() {
    // Incident straight down onto a floor facing up: reflected straight up.
    let v = Vector::new(0, -SCALE, 0);
    let n = Vector::new(0, SCALE, 0);
    assert_eq!(reflect(v, n), Vector::new(0, SCALE, 0));
}

#[test]
fn reflect_keeps_the_tangential_component() {
    let v = Vector::new(46341, -46342, 0);
    let n = Vector::new(0, SCALE, 0);
    assert_eq!(reflect(v, n), Vector::new(46341, 46342, 0));
}

#[test]
fn mirror_scatter_of_a_diagonal_ray() {
    // Metal(albedo 0.8 grey, fuzz 0) struck by a ray going down-right at the
    // origin of a floor facing up: the scatter reflects the downward
    // component and leaves the surface.
    let m = Metal::new(52428, 52428, 52428, 0);
    let r_in = Ray::new(Vector::new(-SCALE, SCALE, 0), Vector::new(SCALE, -SCALE, 0));
    let hit = HitRecord::new(Vector::new(0, 0, 0), Vector::new(0, SCALE, 0), SCALE);
    let mut rng = RandomSource::from_seed(9);
    let (did_scatter, attenuation, scattered) = m.scatter(r_in, hit, &mut rng);
    assert!(did_scatter);
    assert_eq!(attenuation, Vector::new(52428, 52428, 52428));
    assert_eq!(scattered.origin(), Vector::new(0, 0, 0));
    // The normalized incoming direction is (46341, -46342, 0); mirroring it
    // about the normal gives a direction proportional to (1, 1, 0).
    assert_eq!(scattered.dir(), Vector::new(46341, 46342, 0));
    assert!(Vector::dot_unscaled(scattered.dir(), hit.normal) > 0);
}

#[test]
fn scatter_into_the_surface_is_absorbed() {
    // A ray leaving along the normal mirrors back into the surface, so the
    // scatter flag is false, yet the attenuation is still the albedo.
    let m = Metal::new(52428, 52428, 52428, 0);
    let r_in = Ray::new(Vector::new(0, -SCALE, 0), Vector::new(0, SCALE, 0));
    let hit = HitRecord::new(Vector::new(0, 0, 0), Vector::new(0, SCALE, 0), SCALE);
    let mut rng = RandomSource::from_seed(9);
    let (did_scatter, attenuation, scattered) = m.scatter(r_in, hit, &mut rng);
    assert!(!did_scatter);
    assert_eq!(attenuation, Vector::new(52428, 52428, 52428));
    assert_eq!(scattered.dir(), Vector::new(0, -SCALE, 0));
}

#[test]
fn fuzzy_scatter_keeps_albedo_and_hit_point() {
    let m = Metal::new(52428, 26214, 13107, SCALE / 2);
    let r_in = Ray::new(Vector::new(-SCALE, SCALE, 0), Vector::new(SCALE, -SCALE, 0));
    let hit = HitRecord::new(Vector::new(123, 456, 789), Vector::new(0, SCALE, 0), SCALE);
    let mut rng = RandomSource::from_seed(2024);
    for _ in 0..16 {
        let (_, attenuation, scattered) = m.scatter(r_in, hit, &mut rng);
        assert_eq!(attenuation, Vector::new(52428, 26214, 13107));
        assert_eq!(scattered.origin(), Vector::new(123, 456, 789));
    }
}

#[test]
fn fuzzy_scatter_stays_near_the_mirror_direction() {
    // With fuzz at half a unit, the scattered direction differs from the
    // mirror direction by at most the fuzz radius in each component.
    let m = Metal::new(52428, 52428, 52428, SCALE / 2);
    let mirror = Vector::new(46341, 46342, 0);
    let r_in = Ray::new(Vector::new(-SCALE, SCALE, 0), Vector::new(SCALE, -SCALE, 0));
    let hit = HitRecord::new(Vector::new(0, 0, 0), Vector::new(0, SCALE, 0), SCALE);
    let mut rng = RandomSource::from_seed(5);
    for _ in 0..16 {
        let (_, _, scattered) = m.scatter(r_in, hit, &mut rng);
        let diff = scattered.dir().minus(mirror);
        assert!(diff.x().abs() <= SCALE / 2);
        assert!(diff.y().abs() <= SCALE / 2);
        assert!(diff.z().abs() <= SCALE / 2);
    }
}

#[test]
fn ray_accessors_return_the_fields() {
    let r = Ray::new(Vector::new(1, 2, 3), Vector::new(4, 5, 6));
    assert_eq!(r.origin(), Vector::new(1, 2, 3));
    assert_eq!(r.dir(), Vector::new(4, 5, 6));
    let h = HitRecord::new(Vector::new(7, 8, 9), Vector::new(0, SCALE, 0), 42);
    assert_eq!(h.p, Vector::new(7, 8, 9));
    assert_eq!(h.normal, Vector::new(0, SCALE, 0));
    assert_eq!(h.t, 42);
}

#[test]
fn material_dispatch_matches_the_metal_variant() {
    let metal = Metal::new(52428, 52428, 52428, 0);
    let material = raytrace_core::materials::Material::Metal(metal);
    let r_in = Ray::new(Vector::new(-SCALE, SCALE, 0), Vector::new(SCALE, -SCALE, 0));
    let hit = HitRecord::new(Vector::new(0, 0, 0), Vector::new(0, SCALE, 0), SCALE);
    let mut rng_a = RandomSource::from_seed(3);
    let mut rng_b = RandomSource::from_seed(3);
    let from_material = material.scatter(r_in, hit, &mut rng_a);
    let from_metal = metal.scatter(r_in, hit, &mut rng_b);
    assert_eq!(from_material, from_metal);
}
