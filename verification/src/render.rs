//! The frame loop: for each pixel, average the radiance of jittered
//! camera rays, apply the square-root gamma convention, clamp, and emit
//! RGBA bytes. The pixel values depend on the sampler's draws; the shape
//! of the buffer and the gamma arithmetic are stated exactly.

use crate::camera::{cam_w, Camera};
use crate::fx::{
    fsqrt, fx_sqrt, lemma_fsqrt_one, lemma_sqrt_floor_unique, lemma_tdiv_ordered, tdiv, tdiv_i64,
    SCALE,
};
use crate::hittable_list::{random_scene, HittableList};
use crate::rng::Rng;
use crate::vec3::{lemma_fsqrt_abs_bound, vcross, vlen2, vsub, Vec3, Vec3i};
use vstd::prelude::*;

verus! {

/// One display channel: the accumulated channel divided by the sample
/// count, square-root gamma corrected, clamped just under 1, and scaled
/// to a byte.
pub open spec fn gamma_byte(sum: int, samples: int) -> int {
    let avg = tdiv(sum, samples);
    let g = fsqrt(avg);
    let gc = if g > 65470 {
        65470
    } else {
        g
    };
    tdiv(256 * gc, SCALE as int)
}

/// Turn an accumulated channel into its display byte, exactly per
/// `gamma_byte`.
pub fn to_byte(sum: i64, samples: i64) -> (r: u8)
    requires
        1 <= samples <= 0x10000,
        0 <= sum <= samples * SCALE,
    ensures
        r as int == gamma_byte(sum as int, samples as int),
{
    proof {
        lemma_tdiv_ordered(sum as int, (samples * SCALE) as int, samples as int);
        assert(tdiv(samples * SCALE as int, samples as int) == SCALE as int) by (nonlinear_arith)
            requires
                samples >= 1,
        ;
    }
    let avg = tdiv_i64(sum, samples);
    proof {
        lemma_fsqrt_abs_bound(avg as int, SCALE as int);
        lemma_fsqrt_one();
    }
    let g = fx_sqrt(avg);
    let gc = if g > 65470 {
        65470
    } else {
        g
    };
    proof {
        lemma_tdiv_ordered(0, 256 * gc as int, SCALE as int);
        lemma_tdiv_ordered(256 * gc as int, 256 * 65470int, SCALE as int);
    }
    tdiv_i64(256 * gc, SCALE) as u8
}

/// `b` is what the gamma pipeline emits for some accumulated channel
/// sum of `samples` radiance samples in `[0, 1]` each.
pub open spec fn is_gamma_byte(b: u8, samples: int) -> bool {
    exists|s: int| 0 <= s <= samples * SCALE && b as int == #[trigger] gamma_byte(s, samples)
}

/// The four bytes of pixel `p`: three gamma-pipeline channels and an
/// opaque alpha.
pub open spec fn gamma_pixel(v: Seq<u8>, p: int, samples: int) -> bool {
    &&& is_gamma_byte(v[4 * p], samples)
    &&& is_gamma_byte(v[4 * p + 1], samples)
    &&& is_gamma_byte(v[4 * p + 2], samples)
    &&& v[4 * p + 3] == 255
}

/// Render `width` by `height` pixels, top row first, `samples` jittered
/// rays per pixel, into an RGBA byte buffer with a fully opaque alpha
/// channel. A generated ray that fails the well-formedness check — which
/// a well-formed camera never produces for a sane viewport — contributes
/// black rather than being traced.
pub fn render(
    world: &HittableList,
    camera: &Camera,
    width: usize,
    height: usize,
    samples: i64,
    depth: i64,
    rng: &mut Rng,
) -> (v: Vec<u8>)
    requires
        world.wf(),
        camera.wf(),
        2 <= width <= 4096,
        2 <= height <= 4096,
        1 <= samples <= 0x10000,
    ensures
        v@.len() == 4 * (width * height),
        forall|p: int| 0 <= p < width * height ==> #[trigger] v@[4 * p + 3] == 255,
        forall|p: int|
            0 <= p < width * height ==> #[trigger] gamma_pixel(v@, p, samples as int),
{
    let mut v: Vec<u8> = Vec::new();
    let mut j: usize = height;
    while j > 0
        invariant
            world.wf(),
            camera.wf(),
            2 <= width <= 4096,
            2 <= height <= 4096,
            1 <= samples <= 0x10000,
            j <= height,
            v@.len() == 4 * (width * (height - j)),
            forall|p: int| 0 <= p < width * (height - j) ==> #[trigger] v@[4 * p + 3] == 255,
            forall|p: int|
                0 <= p < width * (height - j) ==> #[trigger] gamma_pixel(v@, p, samples as int),
        decreases j,
    {
        j = j - 1;
        let mut i: usize = 0;
        while i < width
            invariant
                world.wf(),
                camera.wf(),
                2 <= width <= 4096,
                2 <= height <= 4096,
                1 <= samples <= 0x10000,
                j < height,
                i <= width,
                v@.len() == 4 * (width * (height - j - 1) + i),
                forall|p: int| 0 <= p < width * (height - j - 1) + i ==> #[trigger] v@[4 * p + 3] == 255,
                forall|p: int|
                    0 <= p < width * (height - j - 1) + i ==> #[trigger] gamma_pixel(
                        v@,
                        p,
                        samples as int,
                    ),
            decreases width - i,
        {
            let mut sx: i64 = 0;
            let mut sy: i64 = 0;
            let mut sz: i64 = 0;
            let mut k: i64 = 0;
            while k < samples
                invariant
                    world.wf(),
                    camera.wf(),
                    2 <= width <= 4096,
                    2 <= height <= 4096,
                    1 <= samples <= 0x10000,
                    j < height,
                    i < width,
                    0 <= k <= samples,
                    0 <= sx <= k * SCALE,
                    0 <= sy <= k * SCALE,
                    0 <= sz <= k * SCALE,
                decreases samples - k,
            {
                let ru = rng.gen_range(0, SCALE);
                let rv = rng.gen_range(0, SCALE);
                proof {
                    lemma_jitter_bound(i as int, width as int, ru as int);
                    lemma_jitter_bound(j as int, height as int, rv as int);
                }
                let su = tdiv_i64((i as i64) * SCALE + ru, (width as i64) - 1);
                let sv = tdiv_i64((j as i64) * SCALE + rv, (height as i64) - 1);
                let ray = camera.ray(su, sv, rng);
                let sample = if ray.wf_check() {
                    ray.color(world, rng, depth)
                } else {
                    Vec3::new(0, 0, 0)
                };
                sx = sx + sample.x;
                sy = sy + sample.y;
                sz = sz + sample.z;
                k = k + 1;
            }
            let ghost old_v = v@;
            v.push(to_byte(sx, samples));
            v.push(to_byte(sy, samples));
            v.push(to_byte(sz, samples));
            v.push(255);
            proof {
                assert forall|p: int| 0 <= p < width * (height - j - 1) + i + 1 implies #[trigger] v@[
                    4 * p + 3] == 255 by {
                    if p < width * (height - j - 1) + i {
                        assert(v@[4 * p + 3] == 255);
                    }
                }
                assert forall|p: int| 0 <= p < width * (height - j - 1) + i + 1 implies #[trigger] gamma_pixel(
                    v@,
                    p,
                    samples as int,
                ) by {
                    if p < width * (height - j - 1) + i {
                        assert(gamma_pixel(old_v, p, samples as int));
                        assert(v@[4 * p] == old_v[4 * p] && v@[4 * p + 1] == old_v[4 * p + 1] && v@[
                            4 * p + 2] == old_v[4 * p + 2] && v@[4 * p + 3] == old_v[4 * p + 3]);
                    } else {
                        assert(is_gamma_byte(v@[4 * p], samples as int));
                        assert(is_gamma_byte(v@[4 * p + 1], samples as int));
                        assert(is_gamma_byte(v@[4 * p + 2], samples as int));
                    }
                }
            }
            i = i + 1;
        }
        proof {
            assert(width * (height - j - 1) + width == width * (height - j)) by (nonlinear_arith);
        }
    }
    v
}

/// A jittered pixel coordinate stays within twice the unit interval.
proof fn lemma_jitter_bound(i: int, w: int, r: int)
    requires
        0 <= i < w,
        2 <= w <= 4096,
        0 <= r < SCALE,
    ensures
        0 <= tdiv(i * SCALE + r, w - 1) <= 2 * SCALE,
{
    assert(i * SCALE + r <= 2 * (w - 1) * SCALE) by (nonlinear_arith)
        requires
            0 <= i < w,
            2 <= w,
            0 <= r < SCALE,
    ;
    lemma_tdiv_ordered(0, i * SCALE + r, w - 1);
    lemma_tdiv_ordered(i * SCALE + r, 2 * (w - 1) * SCALE, w - 1);
    assert(tdiv(2 * (w - 1) * SCALE as int, w - 1) == 2 * SCALE as int) by (nonlinear_arith)
        requires
            w >= 2,
    ;
}

/// Render the demo scene: 300 by 200 pixels, 500 samples per pixel, a
/// bounce budget of 50, from a fixed seed.
pub fn process() -> (v: Vec<u8>)
    ensures
        v@.len() == 240000,
        forall|p: int| 0 <= p < 60000 ==> #[trigger] v@[4 * p + 3] == 255,
        forall|p: int| 0 <= p < 60000 ==> #[trigger] gamma_pixel(v@, p, 500),
{
    let mut rng = Rng::new(123);
    let world = random_scene(&mut rng);
    let lookfrom = Vec3::new(851968, 131072, 196608);
    let lookat = Vec3::new(0, 0, 0);
    let vup = Vec3::new(0, 65536, 0);
    proof {
        lemma_demo_camera_ok();
    }
    // Vertical field of view of 20 degrees: half-height tan(10 deg),
    // aspect 3:2, aperture 0.1, focus distance 10.
    let camera = Camera::new(lookfrom, lookat, vup, 11556, 98304, 6554, 655360);
    render(&world, &camera, 300, 200, 500, 50, &mut rng)
}

/// The demo viewpoint is not degenerate: the gaze has positive length
/// and the up direction is not parallel to it.
proof fn lemma_demo_camera_ok()
    ensures
        ({
            let lookfrom = Vec3i { x: 851968, y: 131072, z: 196608 };
            let lookat = Vec3i { x: 0, y: 0, z: 0 };
            let vup = Vec3i { x: 0, y: 65536, z: 0 };
            1 <= vlen2(vsub(lookfrom, lookat)) && 1 <= vlen2(
                vcross(vup, cam_w(lookfrom, lookat)),
            )
        }),
{
    let lookfrom = Vec3i { x: 851968, y: 131072, z: 196608 };
    let lookat = Vec3i { x: 0, y: 0, z: 0 };
    let vup = Vec3i { x: 0, y: 65536, z: 0 };
    let gaze = vsub(lookfrom, lookat);
    assert(851968 * 851968 + 131072 * 131072 + 196608 * 196608 == 781684047872int)
        by (nonlinear_arith);
    assert(vlen2(gaze) == 11927552);
    assert(884128 * 884128 <= 11927552 * 65536 < 884129 * 884129int) by (nonlinear_arith);
    lemma_sqrt_floor_unique((11927552 * SCALE as int) as nat, 884128nat);
    assert(crate::vec3::vlen(gaze) == 884128);
    let w = cam_w(lookfrom, lookat);
    assert(w == (Vec3i { x: 63152, y: 9715, z: 14573 }));
    let c = vcross(vup, w);
    assert(c == (Vec3i { x: 14573, y: 0, z: -63152 }));
    assert((14573int) * 14573 + (0int) * 0 + (-63152int) * (-63152) == 4200547433int)
        by (nonlinear_arith);
    assert(vlen2(c) == tdiv(4200547433int, SCALE as int));

}

} // verus!
