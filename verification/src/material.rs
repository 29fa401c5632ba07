//! Surface materials as a closed sum: diffuse, metal, dielectric. The
//! scatter contract pins down, for each variant, exactly how the
//! outgoing ray is built from the one value the sampler drew; which
//! value was drawn stays existentially quantified.

use crate::fx::{
    fdiv, fmul, fsqrt, fx_div, fx_mul, fx_sqrt, lemma_fmul_abs_bound,
    lemma_tdiv_ordered, sabs, tdiv, SCALE,
};
use crate::hittable::HitRecord;
use crate::ray::Ray;
use crate::rng::Rng;
use crate::vec3::{
    lemma_vdot_abs_bound, lemma_vlen2_bounds, lemma_vscale_within, lemma_vunit_within, near_zero,
    sclamp, vadd, vdot, vlen2, vmul, vneg, vreflect, vrefract, vscale, vunit, within, Vec3, Vec3i,
};
use vstd::prelude::*;

verus! {

/// A color with every channel in `[0, 1]`.
pub open spec fn color_wf(c: Vec3i) -> bool {
    &&& 0 <= c.x <= SCALE as int
    &&& 0 <= c.y <= SCALE as int
    &&& 0 <= c.z <= SCALE as int
}

/// The color white: a dielectric absorbs nothing.
pub open spec fn white() -> Vec3i {
    Vec3i { x: SCALE as int, y: SCALE as int, z: SCALE as int }
}

#[derive(Clone, Copy, Debug, PartialEq, Eq, Structural)]
pub struct Lambertian {
    pub albedo: Vec3,
}

#[derive(Clone, Copy, Debug, PartialEq, Eq, Structural)]
pub struct Metal {
    pub albedo: Vec3,
    pub fuzz: i64,
}

#[derive(Clone, Copy, Debug, PartialEq, Eq, Structural)]
pub struct Dielectric {
    pub index_of_refraction: i64,
}

impl Lambertian {
    pub fn new(albedo: Vec3) -> (m: Self)
        ensures
            m.albedo == albedo,
    {
        Lambertian { albedo }
    }
}

impl Metal {
    /// Fuzz is clamped into `[0, 1]`, as the roughness model requires.
    pub fn new(albedo: Vec3, fuzz: i64) -> (m: Self)
        ensures
            m.albedo == albedo,
            m.fuzz == (if fuzz < 0 {
                0
            } else if fuzz < SCALE {
                fuzz
            } else {
                SCALE
            }),
    {
        Metal {
            albedo,
            fuzz: if fuzz < 0 {
                0
            } else if fuzz < SCALE {
                fuzz
            } else {
                SCALE
            },
        }
    }
}

impl Dielectric {
    pub fn new(index_of_refraction: i64) -> (m: Self)
        ensures
            m.index_of_refraction == index_of_refraction,
    {
        Dielectric { index_of_refraction }
    }
}

#[derive(Clone, Copy, Debug, PartialEq, Eq, Structural)]
pub enum Material {
    Lambertian(Lambertian),
    Metal(Metal),
    Dielectric(Dielectric),
}

/// Fifth power of a fixed-point value.
pub open spec fn fpow5(x: int) -> int {
    fmul(fmul(fmul(fmul(x, x), x), x), x)
}

/// Schlick's reflectance approximation at a dielectric interface.
pub open spec fn schlick(cos: int, ratio: int) -> int {
    let q = fdiv(SCALE as int - ratio, SCALE as int + ratio);
    let r0 = fmul(q, q);
    r0 + fmul(SCALE as int - r0, fpow5(SCALE as int - cos))
}

/// The index ratio across the interface: inverted when the ray enters
/// from outside.
pub open spec fn dielectric_ratio(d: Dielectric, front_face: bool) -> int {
    if front_face {
        fdiv(SCALE as int, d.index_of_refraction as int)
    } else {
        d.index_of_refraction as int
    }
}

/// The direction a diffuse surface scatters into, given the sampled unit
/// vector `u`: the normal plus `u`, or the bare normal if that sum
/// degenerates to near zero.
pub open spec fn lambertian_dir(n: Vec3i, u: Vec3i) -> Vec3i {
    if near_zero(vadd(n, u)) {
        n
    } else {
        vadd(n, u)
    }
}

/// The direction a metal scatters into, given the sampled ball point `u`:
/// the mirror direction perturbed by `fuzz * u`.
pub open spec fn metal_dir(m: Metal, r_in: Ray, rec: HitRecord, u: Vec3i) -> Vec3i {
    vadd(vreflect(vunit(r_in.direction@), rec.normal@), vscale(u, m.fuzz as int))
}

/// The direction a dielectric scatters into, given the reflectance draw:
/// mirror reflection under total internal reflection or a winning draw,
/// Snell refraction otherwise. The incidence cosine is clamped into
/// `[-1, 1]` as a defense against off-unit inputs.
pub open spec fn dielectric_dir(d: Dielectric, r_in: Ray, rec: HitRecord, draw: int) -> Vec3i {
    let ud = vunit(r_in.direction@);
    let n = rec.normal@;
    let ratio = dielectric_ratio(d, rec.front_face);
    let cos = sclamp(vdot(vneg(ud), n), SCALE as int);
    let sin = fsqrt(SCALE as int - fmul(cos, cos));
    if fmul(ratio, sin) > SCALE as int || schlick(cos, ratio) > draw {
        vreflect(ud, n)
    } else {
        vrefract(ud, n, ratio)
    }
}

/// What scattering on a diffuse surface may produce, given the drawn
/// unit vector `u`, whose squared length is within `1/64` of one.
pub open spec fn lambertian_outcome(
    l: Lambertian,
    rec: HitRecord,
    u: Vec3i,
    res: Option<(Vec3, Ray)>,
) -> bool {
    &&& within(u, 0x20000)
    &&& SCALE as int - 1024 <= vlen2(u) <= SCALE as int + 1024
    &&& match res {
        Some((att, sc)) => att == l.albedo && sc.origin == rec.point && sc.direction@
            == lambertian_dir(rec.normal@, u),
        None => false,
    }
}

/// What scattering on a metal may produce, given the drawn ball point
/// `u`: the perturbed mirror ray, or absorption when it points into the
/// surface.
pub open spec fn metal_outcome(
    m: Metal,
    r_in: Ray,
    rec: HitRecord,
    u: Vec3i,
    res: Option<(Vec3, Ray)>,
) -> bool {
    &&& within(u, SCALE as int)
    &&& 0 < vlen2(u) < SCALE as int
    &&& if vdot(metal_dir(m, r_in, rec, u), rec.normal@) > 0 {
        match res {
            Some((att, sc)) => att == m.albedo && sc.origin == rec.point && sc.direction@
                == metal_dir(m, r_in, rec, u),
            None => false,
        }
    } else {
        res is None
    }
}

/// What scattering in a dielectric produces, given the reflectance draw:
/// always a ray, attenuated by nothing.
pub open spec fn dielectric_outcome(
    d: Dielectric,
    r_in: Ray,
    rec: HitRecord,
    draw: int,
    res: Option<(Vec3, Ray)>,
) -> bool {
    &&& 0 <= draw < SCALE as int
    &&& match res {
        Some((att, sc)) => att@ == white() && sc.origin == rec.point && sc.direction@
            == dielectric_dir(d, r_in, rec, draw),
        None => false,
    }
}

/// The color a material multiplies into whatever its scattered ray goes
/// on to gather: the albedo for diffuse and metal surfaces, white for a
/// dielectric.
pub open spec fn material_albedo(m: Material) -> Vec3i {
    match m {
        Material::Lambertian(l) => l.albedo@,
        Material::Metal(mm) => mm.albedo@,
        Material::Dielectric(_) => white(),
    }
}

/// `c` is `albedo` attenuating some color in `[0, 1]^3`.
pub open spec fn attenuated_by(albedo: Vec3i, c: Vec3i) -> bool {
    exists|b: Vec3i| color_wf(b) && c == #[trigger] vmul(albedo, b)
}

impl Material {
    /// Channels in range, fuzz in `[0, 1]`, refraction index in `[1/8, 8]`:
    /// what the arithmetic of scattering needs to stay in machine range.
    pub open spec fn wf(self) -> bool {
        match self {
            Material::Lambertian(l) => color_wf(l.albedo@),
            Material::Metal(m) => color_wf(m.albedo@) && 0 <= m.fuzz <= SCALE,
            Material::Dielectric(d) => 8192 <= d.index_of_refraction <= 0x80000,
        }
    }

    /// Decide how a ray continues after the hit `rec`: `None` means the
    /// path is absorbed, otherwise the attenuation color and the
    /// scattered ray come back. Which sample the generator drew is left
    /// open; everything that follows from it is stated exactly.
    pub fn scatter(&self, r_in: &Ray, rec: &HitRecord, rng: &mut Rng) -> (res: Option<
        (Vec3, Ray),
    >)
        requires
            self.wf(),
            r_in.wf(),
            within(rec.normal@, 0x100000),
            within(rec.point@, 0x100000000000),
        ensures
            res matches Some((att, sc)) ==> color_wf(att@) && sc.origin == rec.point,
            match *self {
                Material::Lambertian(l) => exists|u: Vec3i| lambertian_outcome(l, *rec, u, res),
                Material::Metal(m) => exists|u: Vec3i| metal_outcome(m, *r_in, *rec, u, res),
                Material::Dielectric(d) => exists|draw: int|
                    dielectric_outcome(d, *r_in, *rec, draw, res),
            },
            *self matches Material::Metal(m) ==> (m.fuzz == 0 ==> {
                let reflected = vreflect(vunit(r_in.direction@), rec.normal@);
                if vdot(reflected, rec.normal@) > 0 {
                    res matches Some((att, sc)) && att == m.albedo && sc.direction@ == reflected
                } else {
                    res is None
                }
            }),
    {
        match self {
            Material::Lambertian(l) => {
                let u = Vec3::new_random_unit(rng);
                let mut direction = rec.normal.add(&u);
                if direction.is_near_zero() {
                    direction = rec.normal;
                }
                let res = Some((l.albedo, Ray::new(rec.point, direction)));
                proof {
                    assert(lambertian_outcome(*l, *rec, u@, res));
                }
                res
            },
            Material::Metal(m) => {
                proof {
                    lemma_vunit_within(r_in.direction@);
                    lemma_vlen2_bounds(r_in.direction@, 0x10000000);
                }
                let ud = r_in.direction.unit();
                let reflected = ud.reflect(&rec.normal);
                let u = Vec3::new_random_in_unit_sphere(rng);
                proof {
                    lemma_vscale_within(u@, m.fuzz as int, SCALE as int, SCALE as int);
                }
                let fuzzed = u.scale(m.fuzz);
                let direction = reflected.add(&fuzzed);
                proof {
                    lemma_vdot_abs_bound(direction@, rec.normal@, 0x1000010000, 0x100000);
                }
                let res = if direction.dot(&rec.normal) > 0 {
                    Some((m.albedo, Ray::new(rec.point, direction)))
                } else {
                    None
                };
                proof {
                    assert(metal_outcome(*m, *r_in, *rec, u@, res));
                    if m.fuzz == 0 {
                        lemma_scale_zero(u@);
                    }
                }
                res
            },
            Material::Dielectric(d) => {
                let ratio: i64 = if rec.front_face {
                    proof {
                        lemma_inverted_ratio(d.index_of_refraction as int);
                    }
                    fx_div(SCALE, d.index_of_refraction)
                } else {
                    d.index_of_refraction
                };
                proof {
                    lemma_vunit_within(r_in.direction@);
                    lemma_vlen2_bounds(r_in.direction@, 0x10000000);
                }
                let ud = r_in.direction.unit();
                proof {
                    lemma_vdot_abs_bound(vneg(ud@), rec.normal@, 0x20000, 0x100000);
                }
                let cos0 = ud.neg().dot(&rec.normal);
                let cos = if cos0 > SCALE {
                    SCALE
                } else if cos0 < -SCALE {
                    -SCALE
                } else {
                    cos0
                };
                proof {
                    lemma_cos_sq_range(cos as int);
                }
                let sin = fx_sqrt(SCALE - fx_mul(cos, cos));
                proof {
                    crate::vec3::lemma_fsqrt_abs_bound(
                        SCALE as int - fmul(cos as int, cos as int),
                        SCALE as int,
                    );
                    crate::fx::lemma_fsqrt_one();
                    lemma_fmul_abs_bound(ratio as int, sin as int, 0x80000, SCALE as int);
                }
                let cannot_refract = fx_mul(ratio, sin) > SCALE;
                let draw = rng.gen_range(0, SCALE);
                let direction = if cannot_refract || reflectance(cos, ratio) > draw {
                    ud.reflect(&rec.normal)
                } else {
                    ud.refract(&rec.normal, ratio)
                };
                let res = Some((Vec3::new(SCALE, SCALE, SCALE), Ray::new(rec.point, direction)));
                proof {
                    assert(dielectric_outcome(*d, *r_in, *rec, draw as int, res));
                }
                res
            },
        }
    }
}

/// Schlick's reflectance, exactly per `schlick`.
pub fn reflectance(cosine: i64, ratio: i64) -> (r: i64)
    requires
        -SCALE <= cosine <= SCALE,
        0 < ratio <= 0x80000,
    ensures
        r == schlick(cosine as int, ratio as int),
        r >= 0,
{
    proof {
        lemma_ratio_quotient(ratio as int);
    }
    let q = fx_div(SCALE - ratio, SCALE + ratio);
    proof {
        lemma_cos_sq_range(q as int);
    }
    let r0 = fx_mul(q, q);
    let x = SCALE - cosine;
    proof {
        lemma_fmul_abs_bound(x as int, x as int, 2 * SCALE as int, 2 * SCALE as int);
        lemma_fmul_nonneg(x as int, x as int);
    }
    let x2 = fx_mul(x, x);
    proof {
        lemma_fmul_abs_bound(x2 as int, x as int, 4 * SCALE as int, 2 * SCALE as int);
        lemma_fmul_nonneg(x2 as int, x as int);
    }
    let x3 = fx_mul(x2, x);
    proof {
        lemma_fmul_abs_bound(x3 as int, x as int, 8 * SCALE as int, 2 * SCALE as int);
        lemma_fmul_nonneg(x3 as int, x as int);
    }
    let x4 = fx_mul(x3, x);
    proof {
        lemma_fmul_abs_bound(x4 as int, x as int, 16 * SCALE as int, 2 * SCALE as int);
        lemma_fmul_nonneg(x4 as int, x as int);
    }
    let x5 = fx_mul(x4, x);
    proof {
        lemma_fmul_abs_bound(SCALE as int - r0 as int, x5 as int, SCALE as int, 32 * SCALE as int);
        lemma_fmul_nonneg(SCALE as int - r0 as int, x5 as int);
    }
    r0 + fx_mul(SCALE - r0, x5)
}

/// A dielectric whose index matches the surrounding medium never
/// reflects internally: its index ratio is one, so the total-internal-
/// reflection test cannot pass, whatever the incidence.
pub proof fn lemma_matched_index_no_tir(d: Dielectric, r_in: Ray, rec: HitRecord)
    requires
        d.index_of_refraction == SCALE,
    ensures
        dielectric_ratio(d, rec.front_face) == SCALE as int,
        ({
            let ud = vunit(r_in.direction@);
            let cos = sclamp(vdot(vneg(ud), rec.normal@), SCALE as int);
            let sin = fsqrt(SCALE as int - fmul(cos, cos));
            fmul(dielectric_ratio(d, rec.front_face), sin) <= SCALE as int
        }),
{
    crate::fx::lemma_tdiv_multiple(SCALE as int, SCALE as int);
    let ud = vunit(r_in.direction@);
    let cos = sclamp(vdot(vneg(ud), rec.normal@), SCALE as int);
    lemma_cos_sq_range(cos);
    crate::vec3::lemma_fsqrt_abs_bound(SCALE as int - fmul(cos, cos), SCALE as int);
    crate::fx::lemma_fsqrt_one();
    let sin = fsqrt(SCALE as int - fmul(cos, cos));
    crate::fx::lemma_fmul_one(sin);
}

/// Into a matched medium a head-on ray passes through unchanged: for an
/// exactly unit normal met square on, every reflectance draw leaves the
/// scattered direction equal to the incoming unit direction.
pub proof fn lemma_matched_index_head_on(d: Dielectric, r_in: Ray, rec: HitRecord, draw: int)
    requires
        d.index_of_refraction == SCALE,
        vlen2(rec.normal@) == SCALE as int,
        vunit(r_in.direction@) == vneg(rec.normal@),
        0 <= draw,
    ensures
        dielectric_dir(d, r_in, rec, draw) == vunit(r_in.direction@),
{
    crate::fx::lemma_tdiv_multiple(SCALE as int, SCALE as int);
    let n = rec.normal@;
    let ud = vunit(r_in.direction@);
    assert(vneg(ud) == n);
    let cos = sclamp(vdot(vneg(ud), n), SCALE as int);
    assert(cos == SCALE as int);
    assert(fmul(SCALE as int, SCALE as int) == SCALE as int);
    assert(fsqrt(0) == 0) by {
        assert((0 * SCALE as int) as nat == 0nat);
    }
    assert(fmul(SCALE as int, 0) == 0);
    assert(schlick(SCALE as int, SCALE as int) == 0) by {
        assert(fdiv(0, 2 * SCALE as int) == 0);
        assert(fmul(0, 0) == 0);
        assert(fpow5(0) == 0);
        assert(fmul(SCALE as int - 0, 0) == 0);
    }
    crate::fx::lemma_fmul_one(n.x);
    crate::fx::lemma_fmul_one(n.y);
    crate::fx::lemma_fmul_one(n.z);
    assert(vscale(n, SCALE as int) == n);
    assert(vadd(ud, n) == (Vec3i { x: 0, y: 0, z: 0 }));
    let zero = Vec3i { x: 0, y: 0, z: 0 };
    assert(vscale(zero, SCALE as int) == zero);
    assert(vlen2(zero) == 0);
    crate::fx::lemma_fsqrt_one();
    crate::fx::lemma_tdiv_multiple(-n.x, SCALE as int);
    crate::fx::lemma_tdiv_multiple(-n.y, SCALE as int);
    crate::fx::lemma_tdiv_multiple(-n.z, SCALE as int);
    assert(vscale(n, -(SCALE as int)) == vneg(n));
    assert(vrefract(ud, n, SCALE as int) == vadd(zero, vneg(n)));
    assert(vadd(zero, vneg(n)) == ud);
}

/// A perfect mirror over a front face never absorbs, up to fixed-point
/// granularity: with zero fuzz, a nearly unit normal and an incidence
/// cosine clearing a margin of about one thousandth, every outcome the
/// scatter contract permits is a scattered ray.
pub proof fn lemma_mirror_never_absorbs(
    m: Metal,
    r_in: Ray,
    rec: HitRecord,
    u: Vec3i,
    res: Option<(Vec3, Ray)>,
)
    requires
        m.fuzz == 0,
        r_in.wf(),
        within(rec.normal@, 0x100000),
        SCALE as int - 1024 <= vlen2(rec.normal@) <= SCALE as int + 1024,
        vdot(vunit(r_in.direction@), rec.normal@) <= -64,
        metal_outcome(m, r_in, rec, u, res),
    ensures
        res is Some,
{
    lemma_vunit_within(r_in.direction@);
    crate::vec3::lemma_mirror_margin(vunit(r_in.direction@), rec.normal@);
    lemma_scale_zero(u);
    assert(metal_dir(m, r_in, rec, u) == vreflect(vunit(r_in.direction@), rec.normal@));
}

/// A product of nonnegative values is nonnegative.
proof fn lemma_fmul_nonneg(a: int, b: int)
    requires
        a >= 0,
        b >= 0,
    ensures
        fmul(a, b) >= 0,
{
    assert(a * b >= 0) by (nonlinear_arith)
        requires
            a >= 0,
            b >= 0,
    ;
}

/// The square of a value within unit range stays within unit range.
proof fn lemma_cos_sq_range(cos: int)
    requires
        sabs(cos) <= SCALE as int,
    ensures
        0 <= fmul(cos, cos) <= SCALE as int,
{
    assert(0 <= cos * cos <= 0x10000 * 0x10000) by (nonlinear_arith)
        requires
            sabs(cos) <= 0x10000,
    ;
    lemma_tdiv_ordered(cos * cos, 0x10000int * 0x10000, SCALE as int);
}

/// The inverted index ratio `1 / ir` stays within the range `refract`
/// accepts, for a well-formed index.
proof fn lemma_inverted_ratio(ir: int)
    requires
        8192 <= ir <= 0x80000,
    ensures
        1 <= fdiv(SCALE as int, ir) <= 0x80000,
{
    let q = (SCALE as int * SCALE as int) / ir;
    vstd::arithmetic::div_mod::lemma_fundamental_div_mod(SCALE as int * SCALE as int, ir);
    assert(1 <= q <= 0x80000) by (nonlinear_arith)
        requires
            0x100000000int == ir * q + 0x100000000int % ir,
            0 <= 0x100000000int % ir < ir,
            8192 <= ir <= 0x80000,
    ;
}

/// The Schlick base term's quotient stays within unit range.
proof fn lemma_ratio_quotient(ratio: int)
    requires
        0 < ratio <= 0x80000,
    ensures
        sabs(fdiv(SCALE as int - ratio, SCALE as int + ratio)) <= SCALE as int,
{
    let num = sabs((SCALE as int - ratio) * SCALE as int);
    assert(num <= (SCALE as int + ratio) * SCALE as int) by (nonlinear_arith)
        requires
            0 < ratio,
            num == sabs((0x10000 - ratio) * 0x10000),
    ;
    lemma_tdiv_ordered(num, (SCALE as int + ratio) * SCALE as int, SCALE as int + ratio);
    assert(tdiv((SCALE as int + ratio) * SCALE as int, SCALE as int + ratio) == SCALE as int)
        by (nonlinear_arith)
        requires
            ratio > 0,
    ;
}

/// Scaling by a zero factor gives the zero vector.
proof fn lemma_scale_zero(u: Vec3i)
    ensures
        vscale(u, 0) == (Vec3i { x: 0, y: 0, z: 0 }),
{
    assert(u.x * 0 == 0 && u.y * 0 == 0 && u.z * 0 == 0) by (nonlinear_arith);
}

} // verus!
