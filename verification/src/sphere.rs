//! The one primitive: a sphere, with ray intersection by the half-b
//! form of the quadratic. The discriminant is formed at double scale
//! with no intermediate rounding, so its sign is exact; the contract
//! states the returned parameter and record fields precisely.

use crate::fx::{
    fmul, fx_mul, isqrt, lemma_fmul_abs_bound, lemma_tdiv_abs_bound, sabs, sqrt_floor, tdiv,
    tdiv_i128, SCALE,
};
use crate::hittable::{lemma_oriented_normal_opposes, oriented_normal, HitRecord};
use crate::ray::Ray;
use crate::vec3::{
    lemma_vdot_abs_bound, lemma_vlen2_bounds, vadd, vdivs, vdot, vlen2, vscale, vsub, within, Vec3,
    Vec3i,
};
use vstd::prelude::*;

verus! {

/// Largest component magnitude of a well-formed sphere center or radius.
pub const SPHERE_BOUND: i64 = 0x10000000;

/// Smallest well-formed radius (1/64): below it the outward normal's
/// division would leave machine range.
pub const SPHERE_MIN_RADIUS: i64 = 1024;

#[derive(Clone, Copy, Debug, PartialEq, Eq, Structural)]
pub struct Sphere {
    pub center: Vec3,
    pub radius: i64,
    /// Handle into the scene's material table.
    pub material: usize,
}

/// The vector from the sphere's center to the ray's origin.
pub open spec fn hit_oc(s: Sphere, r: Ray) -> Vec3i {
    vsub(r.origin@, s.center@)
}

/// Leading coefficient of the intersection quadratic.
pub open spec fn hit_a(r: Ray) -> int {
    vlen2(r.direction@)
}

/// Half the linear coefficient of the intersection quadratic.
pub open spec fn hit_half_b(s: Sphere, r: Ray) -> int {
    vdot(hit_oc(s, r), r.direction@)
}

/// Constant coefficient of the intersection quadratic.
pub open spec fn hit_c(s: Sphere, r: Ray) -> int {
    vlen2(hit_oc(s, r)) - fmul(s.radius as int, s.radius as int)
}

/// The discriminant `half_b^2 - a*c`, carried at double scale: it is a
/// plain integer product of the coefficients, with no rounding of its own.
pub open spec fn hit_disc2(s: Sphere, r: Ray) -> int {
    hit_half_b(s, r) * hit_half_b(s, r) - hit_a(r) * hit_c(s, r)
}

/// Floor square root of the discriminant, back at single scale.
pub open spec fn hit_sqrtd(s: Sphere, r: Ray) -> int {
    sqrt_floor(hit_disc2(s, r) as nat) as int
}

/// The smaller root of the quadratic.
pub open spec fn hit_root0(s: Sphere, r: Ray) -> int {
    tdiv((-hit_half_b(s, r) - hit_sqrtd(s, r)) * SCALE as int, hit_a(r))
}

/// The larger root of the quadratic.
pub open spec fn hit_root1(s: Sphere, r: Ray) -> int {
    tdiv((-hit_half_b(s, r) + hit_sqrtd(s, r)) * SCALE as int, hit_a(r))
}

/// The parameter at which the ray first meets the sphere inside
/// `[t_min, t_max]`: the smaller root if it lies in the interval, else
/// the larger root if it does, else nothing.
pub open spec fn hit_t(s: Sphere, r: Ray, t_min: int, t_max: int) -> Option<int> {
    if hit_disc2(s, r) < 0 {
        None
    } else if t_min <= hit_root0(s, r) <= t_max {
        Some(hit_root0(s, r))
    } else if t_min <= hit_root1(s, r) <= t_max {
        Some(hit_root1(s, r))
    } else {
        None
    }
}

/// Where the ray stands at parameter `t`.
pub open spec fn hit_point(s: Sphere, r: Ray, t: int) -> Vec3i {
    vadd(r.origin@, vscale(r.direction@, t))
}

/// The outward surface normal at the hit point.
pub open spec fn hit_outward(s: Sphere, r: Ray, t: int) -> Vec3i {
    vdivs(vsub(hit_point(s, r, t), s.center@), s.radius as int)
}

/// Every field a returned record must hold, given its parameter `t`.
pub open spec fn rec_matches(s: Sphere, r: Ray, rec: HitRecord) -> bool {
    &&& rec.point@ == hit_point(s, r, rec.t as int)
    &&& rec.front_face == (vdot(r.direction@, hit_outward(s, r, rec.t as int)) < 0)
    &&& rec.normal@ == oriented_normal(r.direction@, hit_outward(s, r, rec.t as int))
    &&& rec.material == s.material
}

impl Sphere {
    /// A sphere the tracer can work on: center within range and radius
    /// neither degenerate nor out of range.
    pub open spec fn wf(self) -> bool {
        &&& within(self.center@, SPHERE_BOUND as int)
        &&& SPHERE_MIN_RADIUS as int <= self.radius as int <= SPHERE_BOUND as int
    }

    pub fn new(center: Vec3, radius: i64, material: usize) -> (s: Self)
        ensures
            s.center == center,
            s.radius == radius,
            s.material == material,
    {
        Sphere { center, radius, material }
    }

    /// Intersect a ray with this sphere inside `[t_min, t_max]`.
    pub fn hit(&self, r: &Ray, t_min: i64, t_max: i64) -> (res: Option<HitRecord>)
        requires
            self.wf(),
            r.wf(),
            0 <= t_min,
            t_max <= 0x80000000,
        ensures
            match res {
                None => hit_t(*self, *r, t_min as int, t_max as int) is None,
                Some(rec) => {
                    &&& hit_t(*self, *r, t_min as int, t_max as int) == Some(rec.t as int)
                    &&& t_min <= rec.t <= t_max
                    &&& rec_matches(*self, *r, rec)
                    &&& within(rec.point@, 0x100000000000)
                    &&& vdot(r.direction@, rec.normal@) <= 0
                },
            },
    {
        let ghost s = *self;
        let ghost ray = *r;
        let oc = r.origin.sub(&self.center);
        proof {
            lemma_vlen2_bounds(r.direction@, 0x10000000);
            lemma_vlen2_bounds(oc@, 0x20000000);
            lemma_vdot_abs_bound(oc@, r.direction@, 0x20000000, 0x10000000);
            lemma_fmul_abs_bound(self.radius as int, self.radius as int, 0x10000000, 0x10000000);
        }
        let a = r.direction.length_squared();
        let half_b = oc.dot(&r.direction);
        let c = oc.length_squared() - fx_mul(self.radius, self.radius);
        proof {
            assert(a == hit_a(ray) && half_b == hit_half_b(s, ray) && c == hit_c(s, ray));
            assert(0 <= (half_b as int) * (half_b as int) <= 0x2400000000000000000000 && sabs(
                (a as int) * (c as int),
            ) <= 0x2700000000000000000000) by (nonlinear_arith)
                requires
                    sabs(half_b as int) <= 0x60000000000,
                    0 <= a <= 0x30000000000,
                    sabs(c as int) <= 0xd0000000000,
            ;
        }
        let disc2: i128 = (half_b as i128) * (half_b as i128) - (a as i128) * (c as i128);
        if disc2 < 0 {
            return None;
        }
        let sqrtd: i128 = isqrt(disc2 as u128) as i128;
        proof {
            assert(sqrtd == hit_sqrtd(s, ray));
            assert(sqrtd * sqrtd <= disc2) by {
                crate::fx::lemma_sqrt_floor(disc2 as nat);
            }
            assert(0 <= sqrtd <= 0x100000000000) by (nonlinear_arith)
                requires
                    sqrtd * sqrtd <= disc2,
                    disc2 <= 0x4b00000000000000000000,
                    sqrtd >= 0,
            ;
        }
        let num0: i128 = (-(half_b as i128) - sqrtd) * (SCALE as i128);
        let root0: i128 = tdiv_i128(num0, a as i128);
        proof {
            assert(root0 == hit_root0(s, ray));
        }
        let root: i64;
        if t_min as i128 <= root0 && root0 <= t_max as i128 {
            root = root0 as i64;
        } else {
            let num1: i128 = (-(half_b as i128) + sqrtd) * (SCALE as i128);
            let root1: i128 = tdiv_i128(num1, a as i128);
            proof {
                assert(root1 == hit_root1(s, ray));
            }
            if t_min as i128 <= root1 && root1 <= t_max as i128 {
                root = root1 as i64;
            } else {
                return None;
            }
        }
        proof {
            assert(hit_t(s, ray, t_min as int, t_max as int) == Some(root as int));
        }
        let point = r.at(root);
        proof {
            crate::vec3::lemma_vscale_within(
                ray.direction@,
                root as int,
                0x10000000,
                0x80000000,
            );
        }
        let op = point.sub(&self.center);
        proof {
            lemma_fdiv_shrinks(op@.x, self.radius as int);
            lemma_fdiv_shrinks(op@.y, self.radius as int);
            lemma_fdiv_shrinks(op@.z, self.radius as int);
        }
        let outward = op.div(self.radius);
        let mut rec = HitRecord {
            point,
            normal: Vec3::new(0, 0, SCALE),
            material: self.material,
            t: root,
            front_face: false,
        };
        rec.set_face_normal(r, &outward);
        proof {
            lemma_oriented_normal_opposes(ray.direction@, outward@);
        }
        Some(rec)
    }
}

/// No intersection is reported when the discriminant is negative, nor
/// when both roots of the quadratic lie outside the query window.
pub proof fn lemma_no_hit_conditions(s: Sphere, r: Ray, t_min: int, t_max: int)
    ensures
        hit_disc2(s, r) < 0 ==> hit_t(s, r, t_min, t_max) is None,
        !(t_min <= hit_root0(s, r) <= t_max) && !(t_min <= hit_root1(s, r) <= t_max) ==> hit_t(
            s,
            r,
            t_min,
            t_max,
        ) is None,
{
}

/// The two roots are ordered: the first one tried is never the farther one.
pub proof fn lemma_roots_ordered(s: Sphere, r: Ray)
    requires
        hit_a(r) >= 1,
        hit_disc2(s, r) >= 0,
    ensures
        hit_root0(s, r) <= hit_root1(s, r),
{
    crate::fx::lemma_tdiv_ordered(
        (-hit_half_b(s, r) - hit_sqrtd(s, r)) * SCALE as int,
        (-hit_half_b(s, r) + hit_sqrtd(s, r)) * SCALE as int,
        hit_a(r),
    );
}

/// Shrinking the far end of the query window never changes which hit a
/// sphere reports inside the narrow window, and anything the wide window
/// finds that the narrow one missed lies beyond the narrow window's end.
pub proof fn lemma_hit_t_window(s: Sphere, r: Ray, t_min: int, t_mid: int, t_max: int)
    requires
        hit_a(r) >= 1,
        t_mid <= t_max,
    ensures
        hit_t(s, r, t_min, t_mid) matches Some(t) ==> hit_t(s, r, t_min, t_max) == Some(t),
        hit_t(s, r, t_min, t_mid) is None ==> (hit_t(s, r, t_min, t_max) matches Some(t) ==> t
            > t_mid),
{
    if hit_disc2(s, r) >= 0 {
        lemma_roots_ordered(s, r);
    }
}

/// Dividing by a radius of at least `SPHERE_MIN_RADIUS` multiplies a
/// magnitude by at most `SCALE / SPHERE_MIN_RADIUS`.
proof fn lemma_fdiv_shrinks(a: int, b: int)
    requires
        sabs(a) <= 0x80020000000,
        SPHERE_MIN_RADIUS as int <= b,
    ensures
        sabs(crate::fx::fdiv(a, b)) <= 0x2000800000000,
{
    lemma_tdiv_abs_bound(a * SCALE as int, b, 0x80020000000int * 0x10000);
    assert(sabs(a * SCALE as int) <= 0x80020000000 * 0x10000);
    assert(0x800200000000000int / b <= 0x2000800000000) by (nonlinear_arith)
        requires
            b >= 1024,
    ;
}

} // verus!
