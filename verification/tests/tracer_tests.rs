//! Intersection, scattering, the estimator and the sampler on concrete
//! scenes.

use ray_tracing::camera::Camera;
use ray_tracing::cvec::{dot, reflect, Color, Point, Vec3};
use ray_tracing::hittable::{HitRecord, Hittable, HittableList};
use ray_tracing::material::{Dielectric, Lambartian, Material, Metal};
use ray_tracing::ray::Ray;
use ray_tracing::rng::Prng;
use ray_tracing::rtweekend::{clamp, rand_range};
use ray_tracing::scalar::Q;
use ray_tracing::sphere::Sphere;
use ray_tracing::tracer::{fix_pixel_val, ray_color, render_row, run};

fn q(n: i64, d: i64) -> Q {
    Q::new(n, d)
}

fn grey() -> Material {
    Material::Lambartian(Lambartian::new(Color::new(q(1, 2), q(1, 2), q(1, 2))))
}

fn unit_sphere_scene() -> Sphere {
    Sphere::new(Point::new(q(0, 1), q(0, 1), q(-1, 1)), q(1, 2), grey())
}

#[test]
fn sphere_center_ray_hits_near_root() {
    // A ray straight through the center hits at |origin - center| - radius.
    let s = unit_sphere_scene();
    let r = Ray::new(
        Point::new(q(0, 1), q(0, 1), q(0, 1)),
        Vec3::new(q(0, 1), q(0, 1), q(-1, 1)),
    );
    let mut rec = HitRecord::default();
    assert!(s.hit(&r, q(1, 1000), Q::big(), &mut rec));
    assert_eq!(rec.t, q(1, 2));
    assert!(rec.front_face);
    assert_eq!(rec.normal, Vec3::new(q(0, 1), q(0, 1), q(1, 1)));
    assert_eq!(rec.p, Point::new(q(0, 1), q(0, 1), q(-1, 2)));
}

#[test]
fn sphere_center_ray_hits_far_root() {
    // Excluding the near root by the interval picks |origin - center| + radius.
    let s = unit_sphere_scene();
    let r = Ray::new(
        Point::new(q(0, 1), q(0, 1), q(0, 1)),
        Vec3::new(q(0, 1), q(0, 1), q(-1, 1)),
    );
    let mut rec = HitRecord::default();
    assert!(s.hit(&r, q(1, 1), Q::big(), &mut rec));
    assert_eq!(rec.t, q(3, 2));
    assert!(!rec.front_face);
}

#[test]
fn sphere_missed_when_closest_approach_exceeds_radius() {
    let s = unit_sphere_scene();
    let r = Ray::new(
        Point::new(q(0, 1), q(0, 1), q(0, 1)),
        Vec3::new(q(0, 1), q(1, 1), q(0, 1)),
    );
    let mut rec = HitRecord::default();
    assert!(!s.hit(&r, q(1, 1000), Q::big(), &mut rec));
    assert_eq!(rec.t, q(0, 1));
}

#[test]
fn front_face_false_from_inside() {
    // From the center outward the geometric normal runs with the ray, so it
    // is flipped and the face is not the front one.
    let s = unit_sphere_scene();
    let r = Ray::new(
        Point::new(q(0, 1), q(0, 1), q(-1, 1)),
        Vec3::new(q(0, 1), q(0, 1), q(-1, 1)),
    );
    let mut rec = HitRecord::default();
    assert!(s.hit(&r, q(1, 1000), Q::big(), &mut rec));
    assert_eq!(rec.t, q(1, 2));
    assert!(!rec.front_face);
    assert_eq!(rec.normal, Vec3::new(q(0, 1), q(0, 1), q(1, 1)));
}

#[test]
fn scene_keeps_nearest_hit_either_insertion_order() {
    let near = Sphere::new(Point::new(q(0, 1), q(0, 1), q(-1, 1)), q(1, 4), grey());
    let far = Sphere::new(Point::new(q(0, 1), q(0, 1), q(-2, 1)), q(1, 4), grey());
    let r = Ray::new(
        Point::new(q(0, 1), q(0, 1), q(0, 1)),
        Vec3::new(q(0, 1), q(0, 1), q(-1, 1)),
    );
    for order in 0..2 {
        let mut world = HittableList::new();
        if order == 0 {
            world.add(near);
            world.add(far);
        } else {
            world.add(far);
            world.add(near);
        }
        let mut rec = HitRecord::default();
        assert!(world.hit(&r, q(1, 1000), Q::big(), &mut rec));
        assert_eq!(rec.t, q(3, 4));
    }
}

#[test]
fn scene_clear_empties_it() {
    let mut world = HittableList::new();
    world.add(unit_sphere_scene());
    assert_eq!(world.objects().len(), 1);
    world.clear();
    assert_eq!(world.objects().len(), 0);
}

#[test]
fn depth_zero_is_black() {
    let mut world = HittableList::new();
    world.add(unit_sphere_scene());
    let r = Ray::new(
        Point::new(q(0, 1), q(0, 1), q(0, 1)),
        Vec3::new(q(0, 1), q(0, 1), q(-1, 1)),
    );
    let mut rng = Prng::new(3);
    let c = ray_color(&r, &world, 0, &mut rng);
    assert_eq!(c, Color::new(q(0, 1), q(0, 1), q(0, 1)));
}

#[test]
fn estimator_identical_under_equal_seeds() {
    let mut world = HittableList::new();
    world.add(unit_sphere_scene());
    let r = Ray::new(
        Point::new(q(0, 1), q(0, 1), q(0, 1)),
        Vec3::new(q(0, 1), q(0, 1), q(-1, 1)),
    );
    let mut rng1 = Prng::new(42);
    let mut rng2 = Prng::new(42);
    let c1 = ray_color(&r, &world, 8, &mut rng1);
    let c2 = ray_color(&r, &world, 8, &mut rng2);
    assert_eq!(c1, c2);
}

#[test]
fn empty_scene_returns_background() {
    let world = HittableList::new();
    let mut rng = Prng::new(9);
    // Straight down: pure white.
    let down = Ray::new(
        Point::new(q(0, 1), q(0, 1), q(0, 1)),
        Vec3::new(q(0, 1), q(-1, 1), q(0, 1)),
    );
    let c = ray_color(&down, &world, 4, &mut rng);
    assert_eq!(c, Color::new(q(1, 1), q(1, 1), q(1, 1)));
    // Straight up: the sky-blue endpoint.
    let up = Ray::new(
        Point::new(q(0, 1), q(0, 1), q(0, 1)),
        Vec3::new(q(0, 1), q(1, 1), q(0, 1)),
    );
    let c = ray_color(&up, &world, 4, &mut rng);
    assert_eq!(c, Color::new(q(1, 2), q(7, 10), q(1, 1)));
    // A level ray: the gradient's midpoint, white and sky blue mixed evenly.
    let level = Ray::new(
        Point::new(q(0, 1), q(0, 1), q(0, 1)),
        Vec3::new(q(0, 1), q(0, 1), q(-1, 1)),
    );
    let c = ray_color(&level, &world, 4, &mut rng);
    assert_eq!(c, Color::new(q(3, 4), q(17, 20), q(1, 1)));
}

#[test]
fn averaging_identical_passes_changes_nothing() {
    // A camera with a degenerate basis sends the same ray whatever the
    // jitter, and an empty scene answers it with the background, so every
    // pass is identical and the two-pass average equals one pass.
    let world = HittableList::new();
    let z = q(0, 1);
    let cam = Camera::new(
        Point::new(z, z, z),
        Point::new(z, z, q(-1, 1)),
        Vec3::new(z, z, z),
        Vec3::new(z, z, z),
    );
    let mut rng1 = Prng::new(5);
    let mut rng2 = Prng::new(5);
    let once = run(&world, &cam, 2, 2, 1, 3, 1, &mut rng1);
    let twice = run(&world, &cam, 2, 2, 1, 3, 2, &mut rng2);
    assert_eq!(once.len(), 4);
    assert_eq!(twice.len(), 4);
    for i in 0..4 {
        assert_eq!(once[i], twice[i]);
    }
}

#[test]
fn render_row_has_one_pixel_per_column() {
    let world = HittableList::new();
    let z = q(0, 1);
    let cam = Camera::new(
        Point::new(z, z, z),
        Point::new(z, z, q(-1, 1)),
        Vec3::new(q(2, 1), z, z),
        Vec3::new(z, q(1, 1), z),
    );
    let mut rng = Prng::new(11);
    let row = render_row(&world, &cam, 0, 7, 3, 2, 4, &mut rng);
    assert_eq!(row.len(), 7);
}

#[test]
fn metal_absorbs_into_surface() {
    // A reflection that would re-enter the surface reports absorption.
    let m = Material::Metal(Metal::new(Color::new(q(1, 1), q(1, 1), q(1, 1)), q(0, 1)));
    let r_in = Ray::new(
        Point::new(q(0, 1), q(0, 1), q(0, 1)),
        Vec3::new(q(0, 1), q(0, 1), q(1, 1)),
    );
    let mut rec = HitRecord::default();
    rec.p = Point::new(q(0, 1), q(0, 1), q(1, 1));
    rec.normal = Vec3::new(q(0, 1), q(0, 1), q(1, 1));
    rec.t = q(1, 1);
    let mut attenuation = Color::default();
    let mut scattered = Ray::new(Point::default(), Vec3::default());
    let mut rng = Prng::new(13);
    assert!(!m.scatter(&r_in, &rec, &mut attenuation, &mut scattered, &mut rng));
}

#[test]
fn lambertian_always_scatters_with_albedo() {
    let albedo = Color::new(q(3, 10), q(5, 10), q(7, 10));
    let m = Material::Lambartian(Lambartian::new(albedo));
    let r_in = Ray::new(
        Point::new(q(0, 1), q(0, 1), q(0, 1)),
        Vec3::new(q(0, 1), q(0, 1), q(-1, 1)),
    );
    let mut rec = HitRecord::default();
    rec.p = Point::new(q(0, 1), q(0, 1), q(-1, 1));
    rec.normal = Vec3::new(q(0, 1), q(0, 1), q(1, 1));
    let mut attenuation = Color::default();
    let mut scattered = Ray::new(Point::default(), Vec3::default());
    let mut rng = Prng::new(17);
    assert!(m.scatter(&r_in, &rec, &mut attenuation, &mut scattered, &mut rng));
    assert_eq!(attenuation, albedo);
    assert_eq!(scattered.origin(), rec.p);
}

#[test]
fn dielectric_never_absorbs() {
    let m = Material::Dielectric(Dielectric::new(q(3, 2)));
    let r_in = Ray::new(
        Point::new(q(0, 1), q(0, 1), q(0, 1)),
        Vec3::new(q(0, 1), q(0, 1), q(-1, 1)),
    );
    let mut rec = HitRecord::default();
    rec.p = Point::new(q(0, 1), q(0, 1), q(-1, 1));
    rec.normal = Vec3::new(q(0, 1), q(0, 1), q(1, 1));
    rec.front_face = true;
    let mut attenuation = Color::default();
    let mut scattered = Ray::new(Point::default(), Vec3::default());
    let mut rng = Prng::new(19);
    assert!(m.scatter(&r_in, &rec, &mut attenuation, &mut scattered, &mut rng));
    assert_eq!(attenuation, Color::new(q(1, 1), q(1, 1), q(1, 1)));
}

#[test]
fn reflect_flips_normal_component() {
    let v = Vec3::new(q(1, 1), q(2, 1), q(3, 1));
    let n = Vec3::new(q(0, 1), q(1, 1), q(0, 1));
    assert_eq!(dot(reflect(v, n), n), q(0, 1) - dot(v, n));
    assert_eq!(dot(reflect(v, n), n), q(-2, 1));
}

#[test]
fn unit_vector_of_axis_multiple_is_exact() {
    let v = Vec3::new(q(0, 1), q(0, 1), q(2, 1));
    let u = v.unit_vector();
    assert_eq!(u, Vec3::new(q(0, 1), q(0, 1), q(1, 1)));
    assert_eq!(u.length_squared(), q(1, 1));
}

#[test]
fn unit_vector_length_is_one_within_tolerance() {
    let v = Vec3::new(q(3, 1), q(0, 1), q(4, 1));
    let u = v.unit_vector();
    let s = u.length_squared();
    assert!(s.le(&q(1, 1)));
    assert!(s.gt(&q(999999, 1000000)));
    // Here the length is exact, so the normalization is too.
    assert_eq!(u, Vec3::new(q(3, 5), q(0, 1), q(4, 5)));
    assert_eq!(s, q(1, 1));
    // And the unit vector is the vector divided by its length.
    assert_eq!(u, v / v.length());
}

#[test]
fn gamma_and_scaling_of_quarter_is_128() {
    // (1 * 0.25) ^ (1/2) = 0.5, clamped, scaled by 256.
    assert_eq!(fix_pixel_val(q(1, 4), Q::one()), q(128, 1));
}

#[test]
fn clamp_bounds() {
    assert_eq!(clamp(q(5, 1), q(0, 1), q(999, 1000)), q(999, 1000));
    assert_eq!(clamp(q(-1, 2), q(0, 1), q(999, 1000)), q(0, 1));
    assert_eq!(clamp(q(1, 2), q(0, 1), q(999, 1000)), q(1, 2));
}

#[test]
fn rand_range_stays_in_range() {
    let mut rng = Prng::new(23);
    for _ in 0..32 {
        let r = rand_range(&mut rng, q(2, 1), q(5, 1));
        assert!(r.ge(&q(2, 1)));
        assert!(r.lt(&q(5, 1)));
    }
}

#[test]
fn random_in_unit_sphere_is_inside() {
    let mut rng = Prng::new(29);
    for _ in 0..16 {
        let p = Vec3::random_in_unit_sphere(&mut rng);
        assert!(p.length_squared().lt(&q(1, 1)));
    }
}

#[test]
fn hemisphere_sample_never_opposes_normal() {
    let normal = Vec3::new(q(0, 1), q(0, 1), q(1, 1));
    let mut rng = Prng::new(41);
    for _ in 0..16 {
        let p = normal.random_in_hemisphere(&mut rng);
        let d = dot(p, normal);
        assert!(d.ge(&q(0, 1)));
    }
}

#[test]
fn seeded_generator_is_reproducible() {
    let mut a = Prng::new(31);
    let mut b = Prng::new(31);
    for _ in 0..8 {
        assert_eq!(a.next_u64(), b.next_u64());
    }
}

#[test]
fn camera_ray_spans_image_plane() {
    let z = q(0, 1);
    let cam = Camera::new(
        Point::new(z, z, z),
        Point::new(q(-2, 1), q(-1, 1), q(-1, 1)),
        Vec3::new(q(4, 1), z, z),
        Vec3::new(z, q(2, 1), z),
    );
    let r = cam.get_ray(q(1, 2), q(1, 2));
    assert_eq!(r.origin(), Point::new(z, z, z));
    assert_eq!(r.direction(), Vec3::new(q(0, 1), q(0, 1), q(-1, 1)));
}

#[test]
fn root_on_interval_bound_is_rejected() {
    // The acceptance interval is open: a root exactly at t_min falls to the
    // far root, and a far root exactly at t_max means no hit.
    let s = unit_sphere_scene();
    let r = Ray::new(
        Point::new(q(0, 1), q(0, 1), q(0, 1)),
        Vec3::new(q(0, 1), q(0, 1), q(-1, 1)),
    );
    let mut rec = HitRecord::default();
    assert!(s.hit(&r, q(1, 2), Q::big(), &mut rec));
    assert_eq!(rec.t, q(3, 2));
    let mut rec = HitRecord::default();
    assert!(!s.hit(&r, q(1, 2), q(3, 2), &mut rec));
}

#[test]
fn first_inserted_wins_on_equal_parameter() {
    // Two members with the same geometry hit at exactly equal t; the open
    // upper bound keeps the first-inserted record.
    let center = Point::new(q(0, 1), q(0, 1), q(-1, 1));
    let first = Sphere::new(center, q(1, 2), grey());
    let second = Sphere::new(
        center,
        q(1, 2),
        Material::Metal(Metal::new(Color::new(q(1, 1), q(1, 1), q(1, 1)), q(0, 1))),
    );
    let mut world = HittableList::new();
    world.add(first);
    world.add(second);
    let r = Ray::new(
        Point::new(q(0, 1), q(0, 1), q(0, 1)),
        Vec3::new(q(0, 1), q(0, 1), q(-1, 1)),
    );
    let mut rec = HitRecord::default();
    assert!(world.hit(&r, q(1, 1000), Q::big(), &mut rec));
    assert_eq!(rec.t, q(1, 2));
    assert!(matches!(rec.mat, Some(Material::Lambartian(_))));
}

#[test]
fn ray_at_zero_is_the_origin() {
    // Mixed representations: a thirds origin with a grid-denominator
    // direction; the zero-scaled term leaves the origin's value untouched.
    let r = Ray::new(
        Point::new(q(1, 3), q(2, 3), q(5, 3)),
        Vec3::new(q(1, 4294967296), q(0, 1), q(-1, 1)),
    );
    assert_eq!(r.at(q(0, 1)), r.origin());
}

#[test]
fn metal_without_fuzz_reflects_exactly() {
    // With fuzz zero the perturbation term vanishes and the scattered
    // direction equals the pure mirror reflection, even when the reflected
    // component is off the rounding grid.
    let m = Material::Metal(Metal::new(Color::new(q(1, 1), q(1, 1), q(1, 1)), q(0, 1)));
    let r_in = Ray::new(
        Point::new(q(0, 1), q(0, 1), q(0, 1)),
        Vec3::new(q(0, 1), q(0, 1), q(-1, 3)),
    );
    let mut rec = HitRecord::default();
    rec.p = Point::new(q(0, 1), q(0, 1), q(-1, 1));
    rec.normal = Vec3::new(q(0, 1), q(0, 1), q(1, 1));
    rec.front_face = true;
    let mut attenuation = Color::default();
    let mut scattered = Ray::new(Point::default(), Vec3::default());
    let mut rng = Prng::new(37);
    assert!(m.scatter(&r_in, &rec, &mut attenuation, &mut scattered, &mut rng));
    let expected = reflect(r_in.direction().unit_vector(), rec.normal);
    assert_eq!(scattered.direction(), expected);
}

#[test]
fn ray_at_walks_the_ray() {
    let r = Ray::new(
        Point::new(q(1, 1), q(2, 1), q(3, 1)),
        Vec3::new(q(0, 1), q(0, 1), q(-2, 1)),
    );
    assert_eq!(
        r.at(q(1, 2)),
        Point::new(q(1, 1), q(2, 1), q(2, 1))
    );
}
