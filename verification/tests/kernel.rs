//! End-to-end checks of the tracing kernel: intersection, nearest-hit
//! dispatch, material scattering, the radiance integrator, the camera
//! and the frame loop, on exactly representable fixed-point values.

use ray_tracer::camera::Camera;
use ray_tracer::fx::SCALE;
use ray_tracer::hittable::HitRecord;
use ray_tracer::hittable_list::{random_scene, HittableList};
use ray_tracer::material::{reflectance, Dielectric, Lambertian, Material, Metal};
use ray_tracer::ray::{degrees_to_radians, Ray};
use ray_tracer::render::{render, to_byte};
use ray_tracer::rng::Rng;
use ray_tracer::sphere::Sphere;
use ray_tracer::vec3::Vec3;

#[test]
fn sphere_hit_head_on() {
    let s = Sphere::new(Vec3::new(0, 0, -2 * SCALE), SCALE, 0);
    let r = Ray::new(Vec3::new(0, 0, 0), Vec3::new(0, 0, -SCALE));
    let rec = s.hit(&r, 66, 0x10000000).unwrap();
    assert_eq!(rec.t, SCALE);
    assert_eq!(rec.point, Vec3::new(0, 0, -SCALE));
    assert_eq!(rec.normal, Vec3::new(0, 0, SCALE));
    assert!(rec.front_face);
    assert_eq!(rec.material, 0);
    // Front-face orientation: the stored normal opposes the ray.
    assert!(r.direction.dot(&rec.normal) <= 0);
    // The normal of this exactly-representable hit has exactly unit length.
    assert_eq!(rec.normal.length_squared(), SCALE);
}

#[test]
fn sphere_miss_negative_discriminant() {
    let s = Sphere::new(Vec3::new(0, 0, -2 * SCALE), SCALE, 0);
    let r = Ray::new(Vec3::new(0, 0, 0), Vec3::new(0, SCALE, 0));
    assert!(s.hit(&r, 66, 0x10000000).is_none());
}

#[test]
fn sphere_miss_roots_outside_window() {
    let s = Sphere::new(Vec3::new(0, 0, -2 * SCALE), SCALE, 0);
    // Sphere behind the ray: both roots are negative.
    let away = Ray::new(Vec3::new(0, 0, 0), Vec3::new(0, 0, SCALE));
    assert!(s.hit(&away, 66, 0x10000000).is_none());
    // Window ends before the first root.
    let toward = Ray::new(Vec3::new(0, 0, 0), Vec3::new(0, 0, -SCALE));
    assert!(s.hit(&toward, 66, SCALE / 2).is_none());
}

#[test]
fn scene_nearest_hit_wins() {
    let near = Vec3::new(0, 0, -2 * SCALE);
    let far = Vec3::new(0, 0, -4 * SCALE);
    let r = Ray::new(Vec3::new(0, 0, 0), Vec3::new(0, 0, -SCALE));
    for flipped in [false, true] {
        let mut w = HittableList::new();
        let m_near = w.add_material(Material::Lambertian(Lambertian::new(Vec3::new(
            SCALE, 0, 0,
        ))));
        let m_far = w.add_material(Material::Lambertian(Lambertian::new(Vec3::new(
            0, SCALE, 0,
        ))));
        if flipped {
            w.push(Sphere::new(far, SCALE, m_far));
            w.push(Sphere::new(near, SCALE, m_near));
        } else {
            w.push(Sphere::new(near, SCALE, m_near));
            w.push(Sphere::new(far, SCALE, m_far));
        }
        let rec = w.hit(&r, 66, 0x10000000).unwrap();
        // min(tA, tB): the near sphere's parameter, whatever the order.
        assert_eq!(rec.t, SCALE);
        assert_eq!(rec.material, m_near);
    }
}

#[test]
fn scene_clear_and_push() {
    let mut w = HittableList::new();
    let m = w.add_material(Material::Dielectric(Dielectric::new(98304)));
    w.push(Sphere::new(Vec3::new(0, 0, -2 * SCALE), SCALE, m));
    assert_eq!(w.objects.len(), 1);
    w.clear();
    assert_eq!(w.objects.len(), 0);
    assert_eq!(w.materials.len(), 1);
}

#[test]
fn metal_mirror_reflection() {
    // Fuzz zero, incoming along (1, -1, 0), normal (0, 1, 0): the
    // reflection flips the y component exactly.
    let albedo = Vec3::new(45875, 39322, 32768);
    let m = Material::Metal(Metal::new(albedo, 0));
    let r_in = Ray::new(Vec3::new(0, SCALE, 0), Vec3::new(SCALE, -SCALE, 0));
    let rec = HitRecord {
        point: Vec3::new(0, 0, 0),
        normal: Vec3::new(0, SCALE, 0),
        material: 0,
        t: SCALE,
        front_face: true,
    };
    let mut rng = Rng::new(9);
    let (att, sc) = m.scatter(&r_in, &rec, &mut rng).unwrap();
    assert_eq!(att, albedo);
    assert_eq!(sc.origin, rec.point);
    assert_eq!(sc.direction, Vec3::new(46341, 46341, 0));
    assert!(sc.direction.get(0) == sc.direction.get(1) && sc.direction.get(2) == 0);
}

#[test]
fn metal_absorbs_grazing() {
    // The perturbed mirror ray points into the surface: no scatter.
    let m = Material::Metal(Metal::new(Vec3::new(SCALE, SCALE, SCALE), 0));
    let r_in = Ray::new(Vec3::new(0, 0, 0), Vec3::new(SCALE, SCALE, 0));
    let rec = HitRecord {
        point: Vec3::new(0, 0, 0),
        normal: Vec3::new(0, SCALE, 0),
        material: 0,
        t: SCALE,
        front_face: true,
    };
    let mut rng = Rng::new(9);
    assert!(m.scatter(&r_in, &rec, &mut rng).is_none());
}

#[test]
fn metal_fuzz_is_clamped() {
    let m = Metal::new(Vec3::new(0, 0, 0), 3 * SCALE);
    assert_eq!(m.fuzz, SCALE);
    let m2 = Metal::new(Vec3::new(0, 0, 0), 17);
    assert_eq!(m2.fuzz, 17);
    let m3 = Metal::new(Vec3::new(0, 0, 0), -5);
    assert_eq!(m3.fuzz, 0);
}

#[test]
fn dielectric_matched_index_passes_through() {
    // Index 1: a head-on ray refracts into the unchanged direction,
    // whatever the reflectance draw, and the attenuation is white.
    let d = Material::Dielectric(Dielectric::new(SCALE));
    let r_in = Ray::new(Vec3::new(0, SCALE, 0), Vec3::new(0, -SCALE, 0));
    let rec = HitRecord {
        point: Vec3::new(0, 0, 0),
        normal: Vec3::new(0, SCALE, 0),
        material: 0,
        t: SCALE,
        front_face: true,
    };
    for seed in [1u64, 2, 3, 4, 5] {
        let mut rng = Rng::new(seed);
        let (att, sc) = d.scatter(&r_in, &rec, &mut rng).unwrap();
        assert_eq!(att, Vec3::new(SCALE, SCALE, SCALE));
        assert_eq!(sc.origin, rec.point);
        assert_eq!(sc.direction, Vec3::new(0, -SCALE, 0));
    }
}

#[test]
fn dielectric_always_scatters() {
    let d = Material::Dielectric(Dielectric::new(98304));
    let r_in = Ray::new(Vec3::new(0, SCALE, 0), Vec3::new(SCALE / 2, -SCALE, 0));
    let rec = HitRecord {
        point: Vec3::new(0, 0, 0),
        normal: Vec3::new(0, SCALE, 0),
        material: 0,
        t: SCALE,
        front_face: true,
    };
    let mut rng = Rng::new(42);
    let (att, _sc) = d.scatter(&r_in, &rec, &mut rng).unwrap();
    assert_eq!(att, Vec3::new(SCALE, SCALE, SCALE));
}

#[test]
fn reflectance_at_normal_incidence() {
    // ((1 - 1.5) / (1 + 1.5))^2 = 0.04, which is 2621 raw units.
    assert_eq!(reflectance(SCALE, 98304), 2621);
}

#[test]
fn color_depth_zero_is_black() {
    let w = HittableList::new();
    let r = Ray::new(Vec3::new(0, 0, 0), Vec3::new(3 * SCALE, -SCALE, 7));
    let mut rng = Rng::new(5);
    assert_eq!(r.color(&w, &mut rng, 0), Vec3::new(0, 0, 0));
    assert_eq!(r.color(&w, &mut rng, -3), Vec3::new(0, 0, 0));
}

#[test]
fn color_empty_scene_is_sky() {
    let w = HittableList::new();
    let mut rng = Rng::new(5);
    let up = Ray::new(Vec3::new(0, 0, 0), Vec3::new(0, SCALE, 0));
    assert_eq!(up.color(&w, &mut rng, 10), Vec3::new(32768, 45875, SCALE));
    let down = Ray::new(Vec3::new(0, 0, 0), Vec3::new(0, -SCALE, 0));
    assert_eq!(down.color(&w, &mut rng, 10), Vec3::new(SCALE, SCALE, SCALE));
}

#[test]
fn camera_center_ray_round_trip() {
    // Look from lookat + unit z with a 90-degree field of view, square
    // aspect and a closed lens: the center ray points along
    // lookat - lookfrom, scaled by the focus distance.
    let lookfrom = Vec3::new(0, 0, SCALE);
    let lookat = Vec3::new(0, 0, 0);
    let vup = Vec3::new(0, SCALE, 0);
    let c = Camera::new(lookfrom, lookat, vup, SCALE, SCALE, 0, SCALE);
    let mut rng = Rng::new(11);
    let r = c.ray(SCALE / 2, SCALE / 2, &mut rng);
    assert_eq!(r.origin, lookfrom);
    assert_eq!(r.direction, Vec3::new(0, 0, -SCALE));
}

#[test]
fn camera_lens_offset_is_bounded() {
    let c = Camera::new(
        Vec3::new(0, 0, SCALE),
        Vec3::new(0, 0, 0),
        Vec3::new(0, SCALE, 0),
        SCALE,
        SCALE,
        6554,
        SCALE,
    );
    let mut rng = Rng::new(31);
    for _ in 0..16 {
        let r = c.ray(SCALE / 2, SCALE / 2, &mut rng);
        for i in 0..3usize {
            let off = r.origin.get(i) - c.origin.get(i);
            assert!(-10 * c.lens_radius <= off && off <= 10 * c.lens_radius);
        }
    }
}

#[test]
fn camera_lens_radius_is_half_aperture() {
    let c = Camera::new(
        Vec3::new(0, 0, SCALE),
        Vec3::new(0, 0, 0),
        Vec3::new(0, SCALE, 0),
        SCALE,
        SCALE,
        6554,
        SCALE,
    );
    assert_eq!(c.lens_radius, 3277);
}

#[test]
fn gamma_bytes_exact() {
    assert_eq!(to_byte(0, 1), 0);
    assert_eq!(to_byte(SCALE, 1), 255);
    assert_eq!(to_byte(SCALE / 4, 1), 128);
    assert_eq!(to_byte(SCALE / 2, 2), 128);
}

#[test]
fn color_to_string_formats_bytes() {
    let c = Vec3::new(SCALE, SCALE / 4, 0);
    assert_eq!(c.to_string(1), "255 128 0");
}

#[test]
fn degrees_to_radians_exact() {
    // 180 degrees is pi: 205887 raw units.
    assert_eq!(degrees_to_radians(180 * SCALE), 205887);
    assert_eq!(degrees_to_radians(90 * SCALE), 102943);
    assert_eq!(degrees_to_radians(0), 0);
}

#[test]
fn random_range_is_bounded() {
    let mut rng = Rng::new(7);
    let v = Vec3::new_random_range(&mut rng, 5, 6);
    assert_eq!(v, Vec3::new(5, 5, 5));
    let u = Vec3::new_random(&mut rng);
    for i in 0..3usize {
        assert!(0 <= u.get(i) && u.get(i) < SCALE);
    }
}

#[test]
fn unit_sphere_sample_is_interior() {
    let mut rng = Rng::new(21);
    for _ in 0..32 {
        let p = Vec3::new_random_in_unit_sphere(&mut rng);
        let ls = p.length_squared();
        assert!(0 < ls && ls < SCALE);
    }
}

#[test]
fn unit_sample_has_unit_scale_length() {
    let mut rng = Rng::new(22);
    for _ in 0..32 {
        let u = Vec3::new_random_unit(&mut rng);
        let ls = u.length_squared();
        assert!(SCALE - 1024 <= ls && ls <= SCALE + 1024);
    }
}

#[test]
fn hemisphere_sample_faces_normal() {
    let mut rng = Rng::new(23);
    let n = Vec3::new(0, SCALE, 0);
    for _ in 0..32 {
        let p = Vec3::new_random_in_hemisphere(&mut rng, &n);
        assert!(p.dot(&n) >= 0);
    }
}

#[test]
fn disk_sample_is_flat_and_interior() {
    let mut rng = Rng::new(24);
    for _ in 0..32 {
        let p = Vec3::new_random_in_unit_disk(&mut rng);
        assert_eq!(p.get(2), 0);
        assert!(p.length_squared() < SCALE);
    }
}

#[test]
fn random_scene_is_well_formed() {
    let mut rng = Rng::new(123);
    let w = random_scene(&mut rng);
    assert!(w.objects.len() >= 4 && w.objects.len() <= 488);
    assert!(w.materials.len() >= 4);
    for s in &w.objects {
        assert!(s.material < w.materials.len());
        assert!(s.radius >= 1024);
    }
    let n = w.objects.len();
    assert_eq!(w.objects[0].center, Vec3::new(0, -65536000, 0));
    assert_eq!(w.objects[0].radius, 65536000);
    assert_eq!(w.objects[n - 3].center, Vec3::new(0, SCALE, 0));
    assert_eq!(w.objects[n - 2].center, Vec3::new(-4 * SCALE, SCALE, 0));
    assert_eq!(w.objects[n - 1].center, Vec3::new(4 * SCALE, SCALE, 0));
    assert_eq!(w.objects[n - 1].radius, SCALE);
}

#[test]
fn render_small_frame() {
    let mut rng = Rng::new(77);
    let mut w = HittableList::new();
    let m = w.add_material(Material::Lambertian(Lambertian::new(Vec3::new(
        32768, 32768, 32768,
    ))));
    w.push(Sphere::new(Vec3::new(0, 0, -3 * SCALE), SCALE, m));
    let c = Camera::new(
        Vec3::new(0, 0, SCALE),
        Vec3::new(0, 0, 0),
        Vec3::new(0, SCALE, 0),
        SCALE,
        SCALE,
        0,
        SCALE,
    );
    let v = render(&w, &c, 4, 3, 2, 3, &mut rng);
    assert_eq!(v.len(), 48);
    for p in 0..12usize {
        assert_eq!(v[4 * p + 3], 255);
    }
}
