//! Rays: an origin and a direction, with point-at-parameter evaluation
//! and the background sky gradient that a missing ray picks up.

use crate::fx::{
    fmul, fx_div, fx_mul, lemma_fmul_unit_interval, sabs, tdiv, tdiv_i64, SCALE,
};
use crate::hittable::HitRecord;
use crate::hittable_list::{scene_hit, scene_misses, HittableList};
use crate::material::{attenuated_by, color_wf, material_albedo};
use crate::rng::Rng;
use crate::vec3::{
    lemma_vlen2_bounds, lemma_vscale_within, lemma_vunit_within, vadd, vlen2, vmul, vscale, vunit,
    within, Vec3, Vec3i,
};
use vstd::prelude::*;

verus! {

/// Largest component magnitude of a well-formed ray.
pub const RAY_BOUND: i64 = 0x10000000;

/// Near clipping: hits closer than about 0.001 are ignored, which
/// suppresses self-intersection of a just-scattered ray.
pub const T_NEAR: i64 = 66;

/// Far clipping: the finite stand-in for an unbounded reach. It lies
/// farther than any scene point lies from any well-formed ray origin,
/// so only a ray slower than unit speed can have geometry clipped.
pub const T_FAR: i64 = 0x80000000;

#[derive(Clone, Copy, Debug, PartialEq, Eq, Structural)]
pub struct Ray {
    pub origin: Vec3,
    pub direction: Vec3,
}

impl Ray {
    /// A ray the tracer can work on: components within range and a
    /// direction that is not degenerate at the fixed-point granularity.
    pub open spec fn wf(self) -> bool {
        &&& within(self.origin@, RAY_BOUND as int)
        &&& within(self.direction@, RAY_BOUND as int)
        &&& vlen2(self.direction@) >= 1
    }

    pub fn new(origin: Vec3, direction: Vec3) -> (r: Self)
        ensures
            r.origin == origin,
            r.direction == direction,
    {
        Ray { origin, direction }
    }

    /// Decides `wf` at run time, so callers can refuse degenerate rays
    /// instead of passing them on.
    pub fn wf_check(&self) -> (r: bool)
        ensures
            r == self.wf(),
    {
        let ob = self.origin.x >= -RAY_BOUND && self.origin.x <= RAY_BOUND && self.origin.y
            >= -RAY_BOUND && self.origin.y <= RAY_BOUND && self.origin.z >= -RAY_BOUND
            && self.origin.z <= RAY_BOUND;
        let db = self.direction.x >= -RAY_BOUND && self.direction.x <= RAY_BOUND
            && self.direction.y >= -RAY_BOUND && self.direction.y <= RAY_BOUND && self.direction.z
            >= -RAY_BOUND && self.direction.z <= RAY_BOUND;
        if ob && db {
            proof {
                lemma_vlen2_bounds(self.direction@, RAY_BOUND as int);
            }
            let l2 = self.direction.length_squared();
            l2 >= 1
        } else {
            false
        }
    }

    /// The point `origin + t * direction`.
    pub fn at(&self, t: i64) -> (r: Vec3)
        requires
            within(self.origin@, 0x100000000000),
            within(self.direction@, 0x10000000),
            -0x80000000 <= t <= 0x80000000,
        ensures
            r@ == vadd(self.origin@, vscale(self.direction@, t as int)),
            within(r@, 0x180000000000),
    {
        proof {
            lemma_vscale_within(self.direction@, t as int, 0x10000000, 0x80000000);
        }
        self.origin.add(&self.direction.scale(t))
    }

    /// The radiance arriving along this ray, estimated by tracing at
    /// most `depth` bounces: black once the budget is spent or a path is
    /// absorbed, the sky gradient where nothing is hit inside
    /// `[T_NEAR, T_FAR]`, and otherwise the scattered ray's radiance
    /// attenuated by the hit material's color, per `traced_hit_outcome`.
    /// A hit whose geometry left the ranges the scatter arithmetic needs
    /// — which no well-formed scene produces — is treated as absorbed
    /// rather than traced further.
    pub fn color(&self, world: &HittableList, rng: &mut Rng, depth: i64) -> (c: Vec3)
        requires
            self.wf(),
            world.wf(),
        ensures
            color_wf(c@),
            depth <= 0 ==> c@ == (Vec3i { x: 0, y: 0, z: 0 }),
            depth > 0 && scene_misses(*world, *self, T_NEAR as int, T_FAR as int) ==> c@ == sky_at(
                vunit(self.direction@),
            ),
            depth > 0 && !scene_misses(*world, *self, T_NEAR as int, T_FAR as int)
                ==> traced_hit_outcome(*world, *self, c@),
        decreases depth,
    {
        if depth <= 0 {
            return Vec3::new(0, 0, 0);
        }
        match world.hit(self, T_NEAR, T_FAR) {
            Some(rec) => {
                let ghost black = Vec3i { x: 0, y: 0, z: 0 };
                let tame = rec.normal.x >= -0x100000 && rec.normal.x <= 0x100000 && rec.normal.y
                    >= -0x100000 && rec.normal.y <= 0x100000 && rec.normal.z >= -0x100000
                    && rec.normal.z <= 0x100000;
                if !tame {
                    proof {
                        assert(traced_hit_outcome(*world, *self, black));
                    }
                    return Vec3::new(0, 0, 0);
                }
                let mat = world.materials[rec.material];
                match mat.scatter(self, &rec, rng) {
                    Some((att, sc)) => {
                        if sc.wf_check() {
                            let bounced = sc.color(world, rng, depth - 1);
                            proof {
                                lemma_fmul_unit_interval(att@.x, bounced@.x);
                                lemma_fmul_unit_interval(att@.y, bounced@.y);
                                lemma_fmul_unit_interval(att@.z, bounced@.z);
                                assert(att@ == material_albedo(mat));
                                assert(vmul(att@, bounced@) == vmul(material_albedo(mat), bounced@));
                                assert(attenuated_by(material_albedo(mat), vmul(att@, bounced@)));
                                assert(traced_hit_outcome(*world, *self, vmul(att@, bounced@)));
                            }
                            att.mul(&bounced)
                        } else {
                            proof {
                                assert(traced_hit_outcome(*world, *self, black));
                            }
                            Vec3::new(0, 0, 0)
                        }
                    },
                    None => {
                        proof {
                            assert(traced_hit_outcome(*world, *self, black));
                        }
                        Vec3::new(0, 0, 0)
                    },
                }
            },
            None => sky_color(&self.direction),
        }
    }
}

/// What a traced ray that met geometry may return: some record the
/// scene query stands behind, and either black — the path was absorbed,
/// there or deeper — or that record's material color attenuating some
/// color the scattered ray gathered.
pub open spec fn traced_hit_outcome(w: HittableList, r: Ray, c: Vec3i) -> bool {
    exists|rec: HitRecord|
        #[trigger] scene_hit(w, r, T_NEAR as int, T_FAR as int, rec) && (c == (Vec3i {
            x: 0,
            y: 0,
            z: 0,
        }) || attenuated_by(material_albedo(w.materials@[rec.material as int]), c))
}

/// The background gradient: a blend from white `(1, 1, 1)` at the
/// horizon to the sky blue `(0.5, 0.7, 1)` of the zenith, driven by the
/// y component of the unit direction. The blend parameter is clamped
/// into `[0, 1]` as a defense against directions that normalization
/// left slightly off unit length.
pub open spec fn sky_at(u: Vec3i) -> Vec3i {
    let t = sky_blend(u);
    Vec3i {
        x: fmul(SCALE as int - t, SCALE as int) + fmul(t, 32768),
        y: fmul(SCALE as int - t, SCALE as int) + fmul(t, 45875),
        z: fmul(SCALE as int - t, SCALE as int) + fmul(t, SCALE as int),
    }
}

/// The blend parameter `0.5 * (u.y + 1)`, clamped into `[0, 1]`.
pub open spec fn sky_blend(u: Vec3i) -> int {
    let t0 = tdiv(u.y + SCALE as int, 2);
    if t0 < 0 {
        0
    } else if t0 > SCALE as int {
        SCALE as int
    } else {
        t0
    }
}

/// What a ray that hits nothing contributes: the sky gradient for its
/// unit direction.
pub fn sky_color(direction: &Vec3) -> (c: Vec3)
    requires
        within(direction@, 0x40000000),
        1 <= vlen2(direction@),
    ensures
        c@ == sky_at(vunit(direction@)),
        0 <= c@.x <= SCALE as int,
        0 <= c@.y <= SCALE as int,
        0 <= c@.z <= SCALE as int,
{
    proof {
        lemma_vunit_within(direction@);
        lemma_vlen2_bounds(direction@, 0x40000000);
    }
    let u = direction.unit();
    let t0 = tdiv_i64(u.y + SCALE, 2);
    let t = if t0 < 0 {
        0
    } else if t0 > SCALE {
        SCALE
    } else {
        t0
    };
    proof {
        assert(t == sky_blend(vunit(direction@)));
        lemma_blend_range(t as int, 32768);
        lemma_blend_range(t as int, 45875);
        lemma_blend_range(t as int, SCALE as int);
    }
    let w = SCALE - t;
    Vec3::new(
        fx_mul(w, SCALE) + fx_mul(t, 32768),
        fx_mul(w, SCALE) + fx_mul(t, 45875),
        fx_mul(w, SCALE) + fx_mul(t, SCALE),
    )
}

/// A convex blend of two colors in `[0, 1]` stays in `[0, 1]`.
proof fn lemma_blend_range(t: int, b: int)
    requires
        0 <= t <= SCALE as int,
        0 <= b <= SCALE as int,
    ensures
        0 <= fmul(SCALE as int - t, SCALE as int) + fmul(t, b) <= SCALE as int,
        sabs(fmul(SCALE as int - t, SCALE as int)) <= SCALE as int,
        sabs(fmul(t, b)) <= SCALE as int,
{
    let s = SCALE as int;
    assert(fmul(s - t, s) == s - t) by (nonlinear_arith)
        requires
            0 <= t <= s,
            s == 0x10000,
    ;
    assert(0 <= t * b <= t * s) by (nonlinear_arith)
        requires
            0 <= t,
            0 <= b <= s,
    ;
    crate::fx::lemma_tdiv_ordered(t * b, t * s, s);
    assert(tdiv(t * s, s) == t) by (nonlinear_arith)
        requires
            0 <= t,
            s == 0x10000,
    ;
    assert(tdiv(t * b, s) >= 0) by (nonlinear_arith)
        requires
            t * b >= 0,
            s == 0x10000,
    ;
}

/// The parameter of a ray's first meeting with a sphere, ignoring any
/// window, or -1 for a miss: the bare quadratic, kept alongside the
/// windowed `Sphere::hit` that supersedes it.
#[allow(dead_code)]
fn hit_sphere(center: &Vec3, radius: i64, r: &Ray) -> (t: i64)
    requires
        within(center@, 0x10000000),
        crate::sphere::SPHERE_MIN_RADIUS <= radius <= 0x10000000,
        r.wf(),
    ensures
        ({
            let s = crate::sphere::Sphere { center: *center, radius, material: 0 };
            if crate::sphere::hit_disc2(s, *r) < 0 {
                t == -SCALE
            } else {
                t as int == crate::sphere::hit_root0(s, *r)
            }
        }),
{
    let ghost s = crate::sphere::Sphere { center: *center, radius, material: 0 };
    let oc = r.origin.sub(center);
    proof {
        lemma_vlen2_bounds(r.direction@, 0x10000000);
        lemma_vlen2_bounds(oc@, 0x20000000);
        crate::vec3::lemma_vdot_abs_bound(oc@, r.direction@, 0x20000000, 0x10000000);
        crate::fx::lemma_fmul_abs_bound(radius as int, radius as int, 0x10000000, 0x10000000);
    }
    let a = r.direction.length_squared();
    let half_b = oc.dot(&r.direction);
    let c = oc.length_squared() - fx_mul(radius, radius);
    proof {
        assert(0 <= (half_b as int) * (half_b as int) <= 0x2400000000000000000000 && sabs(
            (a as int) * (c as int),
        ) <= 0x2700000000000000000000) by (nonlinear_arith)
            requires
                sabs(half_b as int) <= 0x60000000000,
                0 <= a <= 0x30000000000,
                sabs(c as int) <= 0xd0000000000,
        ;
    }
    let disc2: i128 = (half_b as i128) * (half_b as i128) - (a as i128) * (c as i128);
    if disc2 < 0 {
        -SCALE
    } else {
        let sqrtd: i128 = crate::fx::isqrt(disc2 as u128) as i128;
        proof {
            assert(sqrtd * sqrtd <= disc2) by {
                crate::fx::lemma_sqrt_floor((disc2 as u128) as nat);
            }
            assert(0 <= sqrtd <= 0x100000000000) by (nonlinear_arith)
                requires
                    sqrtd * sqrtd <= disc2,
                    disc2 <= 0x4b00000000000000000000,
                    sqrtd >= 0,
            ;
        }
        let num: i128 = (-(half_b as i128) - sqrtd) * (SCALE as i128);
        let root: i128 = crate::fx::tdiv_i128(num, a as i128);
        proof {
            crate::fx::lemma_tdiv_abs_bound(num as int, a as int, 0x1600000000000000);
        }
        root as i64
    }
}

/// The sky gradient's anchor values: a ray straight up picks up the sky
/// blue of the zenith, a ray straight down the white of the horizon.
pub proof fn lemma_sky_poles()
    ensures
        sky_at(Vec3i { x: 0, y: SCALE as int, z: 0 }) == (Vec3i {
            x: 32768,
            y: 45875,
            z: SCALE as int,
        }),
        sky_at(Vec3i { x: 0, y: -SCALE as int, z: 0 }) == (Vec3i {
            x: SCALE as int,
            y: SCALE as int,
            z: SCALE as int,
        }),
{
    crate::fx::lemma_fmul_one(32768);
    crate::fx::lemma_fmul_one(45875);
    crate::fx::lemma_fmul_one(SCALE as int);
    assert(sky_blend(Vec3i { x: 0, y: SCALE as int, z: 0 }) == SCALE as int);
    assert(sky_blend(Vec3i { x: 0, y: -SCALE as int, z: 0 }) == 0);
}

/// Angle conversion: degrees times pi over 180, in fixed point.
pub fn degrees_to_radians(degrees: i64) -> (r: i64)
    requires
        -0x10000000000 <= degrees <= 0x10000000000,
    ensures
        r == tdiv(fmul(degrees as int, 205887) * SCALE as int, 180 * SCALE as int),
{
    proof {
        crate::fx::lemma_fmul_abs_bound(degrees as int, 205887, 0x10000000000, 205887);
        assert(sabs(fmul(degrees as int, 205887) * SCALE as int) <= 0x10000000000 * 205887)
            by (nonlinear_arith)
            requires
                sabs(fmul(degrees as int, 205887)) <= 0x10000000000 * 205887 / 0x10000,
        ;
        crate::fx::lemma_tdiv_abs_bound(
            fmul(degrees as int, 205887) * SCALE as int,
            180 * SCALE as int,
            0x10000000000int * 205887,
        );
    }
    let p = fx_mul(degrees, 205887);
    fx_div(p, 180 * SCALE)
}

} // verus!
