//! The camera: a derived, immutable configuration that maps normalized
//! image-plane coordinates (and a lens offset, for depth of field) to a
//! world-space ray. The half-height of the viewport is the tangent of
//! half the vertical field of view; deriving it from an angle is the
//! caller's concern, as is every other scene parameter.

use crate::fx::{fmul, fx_mul, lemma_fmul_abs_bound, tdiv, tdiv_i64, SCALE};
use crate::ray::Ray;
use crate::rng::Rng;
use crate::vec3::{
    lemma_vcross_within, lemma_vlen2_bounds, lemma_vscale_within, lemma_vunit_within, vadd, vcross,
    vdivs, vlen2, vscale, vsub, vunit, within, Vec3, Vec3i,
};
use vstd::prelude::*;

verus! {

/// The camera's viewing basis vector pointing back along the gaze.
pub open spec fn cam_w(lookfrom: Vec3i, lookat: Vec3i) -> Vec3i {
    vunit(vsub(lookfrom, lookat))
}

/// The camera's horizontal basis vector.
pub open spec fn cam_u(vup: Vec3i, lookfrom: Vec3i, lookat: Vec3i) -> Vec3i {
    vunit(vcross(vup, cam_w(lookfrom, lookat)))
}

/// The camera's vertical basis vector.
pub open spec fn cam_v(vup: Vec3i, lookfrom: Vec3i, lookat: Vec3i) -> Vec3i {
    vcross(cam_w(lookfrom, lookat), cam_u(vup, lookfrom, lookat))
}

/// The viewport edge spanned by `basis`, at the focus plane.
pub open spec fn cam_edge(basis: Vec3i, focus_dist: int, extent: int) -> Vec3i {
    vscale(basis, fmul(focus_dist, extent))
}

/// Lens offset for a sampled disk point.
pub open spec fn cam_offset(c: Camera, rd: Vec3i) -> Vec3i {
    let rdl = vscale(rd, c.lens_radius as int);
    vadd(vscale(c.u@, rdl.x), vscale(c.v@, rdl.y))
}

/// The direction of the ray through image-plane coordinates `(s, t)`,
/// before the lens offset is subtracted.
pub open spec fn cam_dir0(c: Camera, s: int, t: int) -> Vec3i {
    vsub(
        vadd(vadd(c.lower_left_corner@, vscale(c.horizontal@, s)), vscale(c.vertical@, t)),
        c.origin@,
    )
}

/// What one generated ray must be, given the sampled disk point `rd`:
/// the lens offset moves the origin by at most a small multiple of the
/// lens radius in each component.
pub open spec fn cam_ray_outcome(c: Camera, s: int, t: int, rd: Vec3i, r: Ray) -> bool {
    &&& within(rd, SCALE as int)
    &&& rd.z == 0
    &&& 0 <= vlen2(rd) < SCALE as int
    &&& within(cam_offset(c, rd), 10 * c.lens_radius)
    &&& r.origin@ == vadd(c.origin@, cam_offset(c, rd))
    &&& r.direction@ == vsub(cam_dir0(c, s, t), cam_offset(c, rd))
}

pub struct Camera {
    pub origin: Vec3,
    pub lower_left_corner: Vec3,
    pub horizontal: Vec3,
    pub vertical: Vec3,
    pub u: Vec3,
    pub v: Vec3,
    pub w: Vec3,
    pub lens_radius: i64,
}

impl Camera {
    /// Field bounds that keep ray generation inside machine range;
    /// `new` establishes them.
    pub open spec fn wf(self) -> bool {
        &&& within(self.origin@, 0x4000000)
        &&& within(self.lower_left_corner@, 0x2000000000)
        &&& within(self.horizontal@, 0x1000000000)
        &&& within(self.vertical@, 0x1000000000)
        &&& within(self.u@, 0x20000)
        &&& within(self.v@, 0x80000)
        &&& within(self.w@, 0x20000)
        &&& 0 <= self.lens_radius <= 0x800000
    }

    /// Derive the viewing configuration. `half_height` is the tangent of
    /// half the vertical field of view; the gaze must not be degenerate
    /// and `vup` must not be parallel to it, at fixed-point granularity.
    pub fn new(
        lookfrom: Vec3,
        lookat: Vec3,
        vup: Vec3,
        half_height: i64,
        aspect_ratio: i64,
        aperture: i64,
        focus_dist: i64,
    ) -> (c: Camera)
        requires
            within(lookfrom@, 0x4000000),
            within(lookat@, 0x4000000),
            within(vup@, 0x100000),
            1 <= vlen2(vsub(lookfrom@, lookat@)),
            1 <= vlen2(vcross(vup@, cam_w(lookfrom@, lookat@))),
            1 <= half_height <= 0x100000,
            1 <= aspect_ratio <= 0x100000,
            0 <= aperture <= 0x1000000,
            1 <= focus_dist <= 0x4000000,
        ensures
            c.wf(),
            c.origin == lookfrom,
            c.w@ == cam_w(lookfrom@, lookat@),
            c.u@ == cam_u(vup@, lookfrom@, lookat@),
            c.v@ == cam_v(vup@, lookfrom@, lookat@),
            c.horizontal@ == cam_edge(
                cam_u(vup@, lookfrom@, lookat@),
                focus_dist as int,
                fmul(aspect_ratio as int, 2 * half_height as int),
            ),
            c.vertical@ == cam_edge(
                cam_v(vup@, lookfrom@, lookat@),
                focus_dist as int,
                2 * half_height as int,
            ),
            c.lower_left_corner@ == vsub(
                vsub(
                    vsub(lookfrom@, vdivs(c.horizontal@, 2 * SCALE as int)),
                    vdivs(c.vertical@, 2 * SCALE as int),
                ),
                vscale(cam_w(lookfrom@, lookat@), focus_dist as int),
            ),
            c.lens_radius as int == tdiv(aperture as int, 2),
    {
        let viewport_height = 2 * half_height;
        proof {
            lemma_fmul_abs_bound(aspect_ratio as int, viewport_height as int, 0x100000, 0x200000);
        }
        let viewport_width = fx_mul(aspect_ratio, viewport_height);
        let gaze = lookfrom.sub(&lookat);
        proof {
            lemma_vunit_within(gaze@);
            lemma_vlen2_bounds(gaze@, 0x8000000);
        }
        let w = gaze.unit();
        let wings = vup.cross(&w);
        proof {
            lemma_vcross_within(vup@, w@, 0x100000, 0x20000);
            lemma_vunit_within(wings@);
            lemma_vlen2_bounds(wings@, 0x400000);
        }
        let u = wings.unit();
        let v = w.cross(&u);
        proof {
            lemma_vcross_within(w@, u@, 0x20000, 0x20000);
            lemma_fmul_abs_bound(focus_dist as int, viewport_width as int, 0x4000000, 0x2000000);
            lemma_fmul_abs_bound(focus_dist as int, viewport_height as int, 0x4000000, 0x200000);
        }
        let span_h = fx_mul(focus_dist, viewport_width);
        let span_v = fx_mul(focus_dist, viewport_height);
        proof {
            lemma_vscale_within(u@, span_h as int, 0x20000, 0x800000000);
            lemma_vscale_within(v@, span_v as int, 0x80000, 0x80000000);
            lemma_vscale_within(w@, focus_dist as int, 0x20000, 0x4000000);
        }
        let horizontal = u.scale(span_h);
        let vertical = v.scale(span_v);
        proof {
            lemma_half_span(horizontal@.x);
            lemma_half_span(horizontal@.y);
            lemma_half_span(horizontal@.z);
            lemma_half_span(vertical@.x);
            lemma_half_span(vertical@.y);
            lemma_half_span(vertical@.z);
        }
        let lower_left_corner = lookfrom.sub(&horizontal.div(2 * SCALE)).sub(
            &vertical.div(2 * SCALE),
        ).sub(&w.scale(focus_dist));
        let lens_radius = tdiv_i64(aperture, 2);
        Camera { origin: lookfrom, lower_left_corner, horizontal, vertical, u, v, w, lens_radius }
    }

    /// The ray through image-plane coordinates `(s, t)`, its origin
    /// offset within the lens disk. With a zero lens radius the ray is
    /// a deterministic function of `(s, t)`.
    pub fn ray(&self, s: i64, t: i64, rng: &mut Rng) -> (r: Ray)
        requires
            self.wf(),
            0 <= s <= 2 * SCALE,
            0 <= t <= 2 * SCALE,
        ensures
            exists|rd: Vec3i| cam_ray_outcome(*self, s as int, t as int, rd, r),
            self.lens_radius == 0 ==> r.origin == self.origin && r.direction@ == cam_dir0(
                *self,
                s as int,
                t as int,
            ),
    {
        let rd = Vec3::new_random_in_unit_disk(rng);
        proof {
            lemma_vscale_within(rd@, self.lens_radius as int, SCALE as int, 0x800000);
            lemma_vscale_within(rd@, self.lens_radius as int, SCALE as int, self.lens_radius as int);
            vstd::arithmetic::div_mod::lemma_div_multiples_vanish(
                self.lens_radius as int,
                SCALE as int,
            );
        }
        let rdl = rd.scale(self.lens_radius);
        proof {
            lemma_vscale_within(self.u@, rdl@.x as int, 0x20000, 0x800000);
            lemma_vscale_within(self.v@, rdl@.y as int, 0x80000, 0x800000);
            lemma_vscale_within(self.u@, rdl@.x as int, 0x20000, self.lens_radius as int);
            lemma_vscale_within(self.v@, rdl@.y as int, 0x80000, self.lens_radius as int);
            vstd::arithmetic::div_mod::lemma_div_multiples_vanish(
                2 * self.lens_radius as int,
                SCALE as int,
            );
            vstd::arithmetic::div_mod::lemma_div_multiples_vanish(
                8 * self.lens_radius as int,
                SCALE as int,
            );
        }
        let offset = self.u.scale(rdl.x).add(&self.v.scale(rdl.y));
        proof {
            lemma_vscale_within(self.horizontal@, s as int, 0x1000000000, 0x20000);
            lemma_vscale_within(self.vertical@, t as int, 0x1000000000, 0x20000);
        }
        let direction = self.lower_left_corner.add(&self.horizontal.scale(s)).add(
            &self.vertical.scale(t),
        ).sub(&self.origin).sub(&offset);
        let r = Ray::new(self.origin.add(&offset), direction);
        proof {
            assert(cam_ray_outcome(*self, s as int, t as int, rd@, r));
            if self.lens_radius == 0 {
                lemma_zero_offset(*self, rd@);
            }
        }
        r
    }
}

/// The round trip through the camera: looking from one unit along +z
/// toward `lookat`, with a 90-degree field of view (half-height one),
/// square aspect and a closed lens, the ray through the exact image
/// center points exactly along `lookat - lookfrom`, scaled by the focus
/// distance. The preconditions are the field values `new` ensures for
/// those inputs.
pub proof fn lemma_center_ray_points_back(c: Camera, lookat: Vec3i, f: int)
    requires
        1 <= f <= 0x4000000,
        ({
            let lookfrom = vadd(lookat, Vec3i { x: 0, y: 0, z: SCALE as int });
            let vup = Vec3i { x: 0, y: SCALE as int, z: 0 };
            &&& c.origin@ == lookfrom
            &&& c.horizontal@ == cam_edge(
                cam_u(vup, lookfrom, lookat),
                f,
                fmul(SCALE as int, 2 * SCALE as int),
            )
            &&& c.vertical@ == cam_edge(cam_v(vup, lookfrom, lookat), f, 2 * SCALE as int)
            &&& c.lower_left_corner@ == vsub(
                vsub(
                    vsub(lookfrom, vdivs(c.horizontal@, 2 * SCALE as int)),
                    vdivs(c.vertical@, 2 * SCALE as int),
                ),
                vscale(cam_w(lookfrom, lookat), f),
            )
        }),
    ensures
        cam_dir0(c, 32768, 32768) == (Vec3i { x: 0, y: 0, z: -f }),
{
    let lookfrom = vadd(lookat, Vec3i { x: 0, y: 0, z: SCALE as int });
    let vup = Vec3i { x: 0, y: SCALE as int, z: 0 };
    let gaze = vsub(lookfrom, lookat);
    assert(gaze == (Vec3i { x: 0, y: 0, z: SCALE as int }));
    crate::fx::lemma_fsqrt_one();
    crate::fx::lemma_tdiv_multiple(SCALE as int, SCALE as int);
    assert(vlen2(gaze) == SCALE as int);
    let w = cam_w(lookfrom, lookat);
    assert(w == (Vec3i { x: 0, y: 0, z: SCALE as int }));
    let wing = vcross(vup, w);
    assert(wing == (Vec3i { x: SCALE as int, y: 0, z: 0 }));
    let u = cam_u(vup, lookfrom, lookat);
    assert(vlen2(wing) == SCALE as int);
    assert(u == (Vec3i { x: SCALE as int, y: 0, z: 0 }));
    let v = cam_v(vup, lookfrom, lookat);
    assert(v == (Vec3i { x: 0, y: SCALE as int, z: 0 }));
    crate::fx::lemma_tdiv_multiple(2 * SCALE as int, SCALE as int);
    assert(fmul(SCALE as int, 2 * SCALE as int) == 2 * SCALE as int);
    crate::fx::lemma_tdiv_multiple(2 * f, SCALE as int);
    assert(fmul(f, 2 * SCALE as int) == 2 * f) by {
        assert(f * (2 * SCALE as int) == (2 * f) * SCALE as int) by (nonlinear_arith);
    }
    crate::fx::lemma_fmul_one(2 * f);
    crate::fx::lemma_fmul_zero(2 * f);
    crate::fx::lemma_fmul_zero(f);
    assert(c.horizontal@ == (Vec3i { x: 2 * f, y: 0, z: 0 }));
    assert(c.vertical@ == (Vec3i { x: 0, y: 2 * f, z: 0 }));
    crate::fx::lemma_tdiv_multiple(f, 2 * SCALE as int);
    assert(crate::fx::fdiv(2 * f, 2 * SCALE as int) == f) by {
        assert((2 * f) * SCALE as int == f * (2 * SCALE as int)) by (nonlinear_arith);
    }
    assert(crate::fx::fdiv(0, 2 * SCALE as int) == 0);
    crate::fx::lemma_fmul_one(f);
    assert(vscale(w, f) == (Vec3i { x: 0, y: 0, z: f }));
    assert(c.lower_left_corner@ == (Vec3i {
        x: lookfrom.x - f,
        y: lookfrom.y - f,
        z: lookfrom.z - f,
    }));
    crate::fx::lemma_tdiv_multiple(f, SCALE as int);
    assert(fmul(2 * f, 32768) == f) by {
        assert((2 * f) * 32768 == f * SCALE as int) by (nonlinear_arith);
    }
    assert(fmul(0, 32768) == 0);
    assert(vscale(c.horizontal@, 32768) == (Vec3i { x: f, y: 0, z: 0 }));
    assert(vscale(c.vertical@, 32768) == (Vec3i { x: 0, y: f, z: 0 }));
}

/// Halving a span keeps it in machine range.
proof fn lemma_half_span(x: int)
    requires
        crate::fx::sabs(x) <= 0x1000000000,
    ensures
        i64::MIN <= crate::fx::fdiv(x, 2 * SCALE as int) <= i64::MAX,
        crate::fx::sabs(crate::fx::fdiv(x, 2 * SCALE as int)) <= 0x1000000000,
{
    crate::fx::lemma_tdiv_abs_bound(x * SCALE as int, 2 * SCALE as int, 0x1000000000int * 0x10000);
    assert(0x1000000000int * 0x10000 / (2 * SCALE as int) == 0x800000000) by (nonlinear_arith);
}

/// With the lens closed, the sampled disk point contributes nothing.
proof fn lemma_zero_offset(c: Camera, rd: Vec3i)
    requires
        c.lens_radius == 0,
    ensures
        cam_offset(c, rd) == (Vec3i { x: 0, y: 0, z: 0 }),
{
    assert(rd.x * 0 == 0 && rd.y * 0 == 0 && rd.z * 0 == 0) by (nonlinear_arith);
    let rdl = vscale(rd, 0);
    assert(rdl.x == 0 && rdl.y == 0);
    assert(c.u@.x * 0 == 0 && c.u@.y * 0 == 0 && c.u@.z * 0 == 0 && c.v@.x * 0 == 0 && c.v@.y * 0
        == 0 && c.v@.z * 0 == 0) by (nonlinear_arith);
}

} // verus!
