//! The scene aggregate: an ordered list of spheres plus the table of
//! materials their handles point into. Its hit query returns the
//! nearest intersection over all members, proved as such.

use crate::fx::{fx_mul, SCALE};
use crate::material::{Dielectric, Lambertian, Material, Metal};
use crate::ray::Ray;
use crate::rng::Rng;
use crate::sphere::{hit_t, rec_matches, Sphere};
use crate::hittable::HitRecord;
use crate::vec3::{lemma_vlen2_bounds, vdot, vsub, within, Vec3, Vec3i};
use vstd::prelude::*;

verus! {

pub struct HittableList {
    pub objects: Vec<Sphere>,
    pub materials: Vec<Material>,
}

/// No member of the scene intersects the ray inside the window.
pub open spec fn scene_misses(w: HittableList, r: Ray, t_min: int, t_max: int) -> bool {
    forall|i: int|
        0 <= i < w.objects@.len() ==> hit_t(#[trigger] w.objects@[i], r, t_min, t_max) is None
}

/// Everything the scene query promises of a returned record: it is some
/// member's hit inside the window, no member hits closer, its material
/// handle is valid, its point is in range and its normal opposes the ray.
pub open spec fn scene_hit(w: HittableList, r: Ray, t_min: int, t_max: int, rec: HitRecord) -> bool {
    &&& t_min <= rec.t <= t_max
    &&& exists|i: int|
        0 <= i < w.objects@.len() && rec_matches(#[trigger] w.objects@[i], r, rec) && hit_t(
            w.objects@[i],
            r,
            t_min,
            t_max,
        ) == Some(rec.t as int)
    &&& forall|i: int|
        0 <= i < w.objects@.len() ==> match hit_t(#[trigger] w.objects@[i], r, t_min, t_max) {
            Some(ti) => rec.t as int <= ti,
            None => true,
        }
    &&& rec.material < w.materials@.len()
    &&& within(rec.point@, 0x100000000000)
    &&& vdot(r.direction@, rec.normal@) <= 0
}

impl HittableList {
    /// Every sphere is well formed and points into the material table,
    /// and every material is well formed.
    pub open spec fn wf(self) -> bool {
        &&& forall|i: int| 0 <= i < self.objects@.len() ==> (#[trigger] self.objects@[i]).wf()
        &&& forall|i: int|
            0 <= i < self.objects@.len() ==> (#[trigger] self.objects@[i]).material
                < self.materials@.len()
        &&& forall|i: int| 0 <= i < self.materials@.len() ==> (#[trigger] self.materials@[i]).wf()
    }

    pub fn new() -> (w: Self)
        ensures
            w.wf(),
            w.objects@.len() == 0,
            w.materials@.len() == 0,
    {
        HittableList { objects: Vec::new(), materials: Vec::new() }
    }

    /// Drop every primitive; the material table stays.
    pub fn clear(&mut self)
        ensures
            final(self).objects@.len() == 0,
            final(self).materials == old(self).materials,
            old(self).wf() ==> final(self).wf(),
    {
        self.objects.clear();
    }

    /// Add a primitive whose material handle is already valid.
    pub fn push(&mut self, item: Sphere)
        requires
            old(self).wf(),
            item.wf(),
            item.material < old(self).materials@.len(),
        ensures
            final(self).wf(),
            final(self).objects@ == old(self).objects@.push(item),
            final(self).materials == old(self).materials,
    {
        self.objects.push(item);
    }

    /// Register a material and hand back its handle.
    pub fn add_material(&mut self, m: Material) -> (id: usize)
        requires
            old(self).wf(),
            m.wf(),
        ensures
            final(self).wf(),
            id as int == old(self).materials@.len(),
            final(self).materials@ == old(self).materials@.push(m),
            final(self).objects == old(self).objects,
    {
        let id = self.materials.len();
        self.materials.push(m);
        id
    }

    /// The nearest intersection of the ray with any member inside
    /// `[t_min, t_max]`: none only if every member misses, and never
    /// farther than any member's own hit.
    pub fn hit(&self, r: &Ray, t_min: i64, t_max: i64) -> (res: Option<HitRecord>)
        requires
            self.wf(),
            r.wf(),
            0 <= t_min,
            t_max <= 0x80000000,
        ensures
            match res {
                None => scene_misses(*self, *r, t_min as int, t_max as int),
                Some(rec) => scene_hit(*self, *r, t_min as int, t_max as int, rec),
            },
    {
        let ghost w = *self;
        let ghost ray = *r;
        let mut best: Option<HitRecord> = None;
        let mut closest: i64 = t_max;
        let mut idx: usize = 0;
        let n = self.objects.len();
        while idx < n
            invariant
                n == self.objects@.len(),
                0 <= idx <= n,
                self.wf(),
                r.wf(),
                w == *self,
                ray == *r,
                0 <= t_min,
                t_max <= 0x80000000,
                match best {
                    None => closest == t_max && (forall|j: int|
                        0 <= j < idx ==> hit_t(
                            #[trigger] self.objects@[j],
                            *r,
                            t_min as int,
                            t_max as int,
                        ) is None),
                    Some(rec) => {
                        &&& closest == rec.t
                        &&& t_min <= rec.t <= t_max
                        &&& exists|i: int|
                            0 <= i < self.objects@.len() && rec_matches(
                                #[trigger] self.objects@[i],
                                *r,
                                rec,
                            ) && hit_t(self.objects@[i], *r, t_min as int, t_max as int) == Some(
                                rec.t as int,
                            )
                        &&& forall|j: int|
                            0 <= j < idx ==> match hit_t(
                                #[trigger] self.objects@[j],
                                *r,
                                t_min as int,
                                t_max as int,
                            ) {
                                Some(tj) => rec.t as int <= tj,
                                None => true,
                            }
                        &&& rec.material < self.materials@.len()
                        &&& within(rec.point@, 0x100000000000)
                        &&& vdot(r.direction@, rec.normal@) <= 0
                    },
                },
            decreases n - idx,
        {
            proof {
                crate::sphere::lemma_hit_t_window(
                    self.objects@[idx as int],
                    ray,
                    t_min as int,
                    closest as int,
                    t_max as int,
                );
            }
            let obj = &self.objects[idx];
            match obj.hit(r, t_min, closest) {
                Some(rec) => {
                    closest = rec.t;
                    best = Some(rec);
                },
                None => {
                },
            }
            idx = idx + 1;
        }
        best
    }
}

/// A member of the demo scene's random grid: radius 0.2, resting at
/// height 0.2, and farther than 0.9 from the metal showpiece's base.
pub open spec fn grid_sphere(s: Sphere) -> bool {
    &&& s.radius == 13107
    &&& s.center@.y == 13107
    &&& crate::vec3::vlen(vsub(s.center@, Vec3i { x: 262144, y: 13107, z: 0 })) > 58982
}

/// The demo scene: a large diffuse ground sphere, a grid of small
/// randomly placed and randomly shaded spheres, and three large ones of
/// each material kind. The constants are the scene's real-valued
/// parameters at fixed-point scale: a ground sphere of radius 1000, a
/// grid of radius-0.2 spheres jittered by up to 0.9 around integer
/// positions and kept at distance over 0.9 from the metal showpiece,
/// diffuse below a 0.8 draw, metal below 0.95, glass of index 1.5
/// otherwise.
pub fn random_scene(rng: &mut Rng) -> (w: HittableList)
    ensures
        w.wf(),
        4 <= w.objects@.len() <= 488,
        w.objects@[0].center@ == (Vec3i { x: 0, y: -65536000, z: 0 }),
        w.objects@[0].radius == 65536000,
        w.materials@[w.objects@[0].material as int] == Material::Lambertian(
            Lambertian { albedo: Vec3 { x: 32768, y: 32768, z: 32768 } },
        ),
        forall|i: int| 1 <= i < w.objects@.len() - 3 ==> grid_sphere(#[trigger] w.objects@[i]),
        ({
            let n = w.objects@.len() as int;
            &&& w.objects@[n - 3].center@ == (Vec3i { x: 0, y: 65536, z: 0 })
            &&& w.objects@[n - 3].radius == 65536
            &&& w.materials@[w.objects@[n - 3].material as int] == Material::Dielectric(
                Dielectric { index_of_refraction: 98304 },
            )
            &&& w.objects@[n - 2].center@ == (Vec3i { x: -262144, y: 65536, z: 0 })
            &&& w.objects@[n - 2].radius == 65536
            &&& w.materials@[w.objects@[n - 2].material as int] == Material::Lambertian(
                Lambertian { albedo: Vec3 { x: 26214, y: 13107, z: 6554 } },
            )
            &&& w.objects@[n - 1].center@ == (Vec3i { x: 262144, y: 65536, z: 0 })
            &&& w.objects@[n - 1].radius == 65536
            &&& w.materials@[w.objects@[n - 1].material as int] == Material::Metal(
                Metal { albedo: Vec3 { x: 45875, y: 39322, z: 32768 }, fuzz: 0 },
            )
        }),
{
    let mut w = HittableList::new();
    let ground = w.add_material(
        Material::Lambertian(Lambertian::new(Vec3::new(32768, 32768, 32768))),
    );
    w.push(Sphere::new(Vec3::new(0, -65536000, 0), 65536000, ground));
    let ghost ground_sphere = w.objects@[0];
    let ghost ground_material = w.materials@[0];
    let mut a: i64 = -11;
    while a < 11
        invariant
            w.wf(),
            w.objects@.len() >= 1,
            w.objects@.len() <= 1 + (a + 11) * 22,
            w.objects@[0] == ground_sphere,
            forall|i: int| 1 <= i < w.objects@.len() ==> grid_sphere(#[trigger] w.objects@[i]),
            w.materials@.len() >= 1,
            w.materials@[0] == ground_material,
            -11 <= a <= 11,
        decreases 11 - a,
    {
        let mut b: i64 = -11;
        while b < 11
            invariant
                w.wf(),
                w.objects@.len() >= 1,
                w.objects@.len() <= 1 + (a + 11) * 22 + (b + 11),
                w.objects@[0] == ground_sphere,
                forall|i: int| 1 <= i < w.objects@.len() ==> grid_sphere(#[trigger] w.objects@[i]),
                w.materials@.len() >= 1,
                w.materials@[0] == ground_material,
                -11 <= a <= 11,
                -11 <= b <= 11,
            decreases 11 - b,
        {
            let choose_mat = rng.gen_range(0, SCALE);
            let jx = rng.gen_range(0, SCALE);
            let jz = rng.gen_range(0, SCALE);
            proof {
                crate::fx::lemma_fmul_abs_bound(58982, jx as int, 58982, 0x10000);
                crate::fx::lemma_fmul_abs_bound(58982, jz as int, 58982, 0x10000);
            }
            let center = Vec3::new(
                a * SCALE + fx_mul(58982, jx),
                13107,
                b * SCALE + fx_mul(58982, jz),
            );
            let offset = center.sub(&Vec3::new(262144, 13107, 0));
            proof {
                lemma_vlen2_bounds(offset@, 0x200000);
            }
            let dist = offset.length();
            if dist > 58982 {
                let mat_id: usize;
                if choose_mat < 52429 {
                    let p = Vec3::new_random(rng);
                    let q = Vec3::new_random(rng);
                    proof {
                        lemma_unit_products(p@.x, q@.x);
                        lemma_unit_products(p@.y, q@.y);
                        lemma_unit_products(p@.z, q@.z);
                    }
                    let albedo = p.mul(&q);
                    mat_id = w.add_material(Material::Lambertian(Lambertian::new(albedo)));
                } else if choose_mat < 62259 {
                    let albedo = Vec3::new_random_range(rng, 32768, 65537);
                    let fuzz = rng.gen_range(0, 32769);
                    mat_id = w.add_material(Material::Metal(Metal::new(albedo, fuzz)));
                } else {
                    mat_id = w.add_material(Material::Dielectric(Dielectric::new(98304)));
                }
                w.push(Sphere::new(center, 13107, mat_id));
            }
            b = b + 1;
        }
        a = a + 1;
    }
    let glass = w.add_material(Material::Dielectric(Dielectric::new(98304)));
    w.push(Sphere::new(Vec3::new(0, 65536, 0), 65536, glass));
    let clay = w.add_material(
        Material::Lambertian(Lambertian::new(Vec3::new(26214, 13107, 6554))),
    );
    w.push(Sphere::new(Vec3::new(-262144, 65536, 0), 65536, clay));
    let steel = w.add_material(
        Material::Metal(Metal::new(Vec3::new(45875, 39322, 32768), 0)),
    );
    w.push(Sphere::new(Vec3::new(262144, 65536, 0), 65536, steel));
    w
}

/// A scene with no primitives misses every ray in every window.
pub proof fn lemma_empty_scene_misses(w: HittableList, r: Ray, t_min: int, t_max: int)
    requires
        w.objects@.len() == 0,
    ensures
        scene_misses(w, r, t_min, t_max),
{
}

/// A product of two factors from `[0, 1)` stays in `[0, 1)`.
proof fn lemma_unit_products(a: int, b: int)
    requires
        0 <= a < SCALE as int,
        0 <= b < SCALE as int,
    ensures
        0 <= crate::fx::fmul(a, b) < SCALE as int,
{
    assert(0 <= a * b <= 0xffffffff) by (nonlinear_arith)
        requires
            0 <= a < 0x10000,
            0 <= b < 0x10000,
    ;
    crate::fx::lemma_tdiv_ordered(a * b, 0xffffffffint, SCALE as int);
}

} // verus!
