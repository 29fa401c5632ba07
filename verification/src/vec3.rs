//! Three-component fixed-point vectors, used as points, directions and
//! colors. The mathematical model is `Vec3i`, the same triple over
//! unbounded integers; every operation's contract states the result
//! exactly in terms of the fixed-point primitives in `fx`.

use crate::fx::{
    fdiv, fmul, fsqrt, fx_div, fx_mul, fx_sqrt, lemma_fmul_abs_bound, lemma_sqrt_floor,
    lemma_tdiv_abs_bound, sabs, sqrt_floor, tdiv, SCALE,
};
use crate::rng::Rng;
use vstd::prelude::*;

verus! {

/// Components smaller than this (about 0.004) count as zero when a
/// scatter direction degenerates.
pub const NEAR_ZERO_EPS: i64 = 256;

/// The mathematical value of a `Vec3`: its components as unbounded integers.
pub ghost struct Vec3i {
    pub x: int,
    pub y: int,
    pub z: int,
}

#[derive(Clone, Copy, Debug, PartialEq, Eq, Structural)]
pub struct Vec3 {
    pub x: i64,
    pub y: i64,
    pub z: i64,
}

impl View for Vec3 {
    type V = Vec3i;

    open spec fn view(&self) -> Vec3i {
        Vec3i { x: self.x as int, y: self.y as int, z: self.z as int }
    }
}

/// All three components lie in `[-m, m]`.
pub open spec fn within(v: Vec3i, m: int) -> bool {
    &&& -m <= v.x <= m
    &&& -m <= v.y <= m
    &&& -m <= v.z <= m
}

pub open spec fn vadd(a: Vec3i, b: Vec3i) -> Vec3i {
    Vec3i { x: a.x + b.x, y: a.y + b.y, z: a.z + b.z }
}

pub open spec fn vsub(a: Vec3i, b: Vec3i) -> Vec3i {
    Vec3i { x: a.x - b.x, y: a.y - b.y, z: a.z - b.z }
}

pub open spec fn vneg(a: Vec3i) -> Vec3i {
    Vec3i { x: -a.x, y: -a.y, z: -a.z }
}

/// Scale by a fixed-point factor.
pub open spec fn vscale(a: Vec3i, k: int) -> Vec3i {
    Vec3i { x: fmul(a.x, k), y: fmul(a.y, k), z: fmul(a.z, k) }
}

/// Component-wise fixed-point product (used for colors).
pub open spec fn vmul(a: Vec3i, b: Vec3i) -> Vec3i {
    Vec3i { x: fmul(a.x, b.x), y: fmul(a.y, b.y), z: fmul(a.z, b.z) }
}

/// Divide by a positive fixed-point scalar.
pub open spec fn vdivs(a: Vec3i, k: int) -> Vec3i
    recommends
        k > 0,
{
    Vec3i { x: fdiv(a.x, k), y: fdiv(a.y, k), z: fdiv(a.z, k) }
}

/// Divide by any nonzero fixed-point scalar: negation commutes with the
/// truncating division, so a negative divisor divides the negated vector.
pub open spec fn vdivs_signed(a: Vec3i, k: int) -> Vec3i
    recommends
        k != 0,
{
    if k > 0 {
        vdivs(a, k)
    } else {
        vdivs(vneg(a), -k)
    }
}

/// Fixed-point dot product: the raw products are summed before the one
/// truncating division, so the result is as exact as the representation
/// allows.
pub open spec fn vdot(a: Vec3i, b: Vec3i) -> int {
    tdiv(a.x * b.x + a.y * b.y + a.z * b.z, SCALE as int)
}

pub open spec fn vcross(a: Vec3i, b: Vec3i) -> Vec3i {
    Vec3i {
        x: fmul(a.y, b.z) - fmul(a.z, b.y),
        y: fmul(a.z, b.x) - fmul(a.x, b.z),
        z: fmul(a.x, b.y) - fmul(a.y, b.x),
    }
}

pub open spec fn vlen2(a: Vec3i) -> int {
    vdot(a, a)
}

/// Fixed-point length: the floor square root of the squared length.
pub open spec fn vlen(a: Vec3i) -> int {
    fsqrt(vlen2(a))
}

/// The vector rescaled to length one (up to truncation).
pub open spec fn vunit(a: Vec3i) -> Vec3i
    recommends
        vlen(a) > 0,
{
    vdivs(a, vlen(a))
}

pub open spec fn near_zero(a: Vec3i) -> bool {
    &&& sabs(a.x) < NEAR_ZERO_EPS as int
    &&& sabs(a.y) < NEAR_ZERO_EPS as int
    &&& sabs(a.z) < NEAR_ZERO_EPS as int
}

/// Mirror `v` about the normal `n`: `v - 2 (v . n) n`.
pub open spec fn vreflect(v: Vec3i, n: Vec3i) -> Vec3i {
    vsub(v, vscale(n, 2 * vdot(v, n)))
}

/// Clamp a scalar into `[-m, m]`.
pub open spec fn sclamp(a: int, m: int) -> int {
    if a < -m {
        -m
    } else if a > m {
        m
    } else {
        a
    }
}

/// Snell refraction of the unit direction `uv` at normal `n` with index
/// ratio `eta`, decomposed into perpendicular and parallel parts. The
/// incidence cosine is clamped to `[-1, 1]` as a defense against inputs
/// that are not quite unit length.
pub open spec fn vrefract(uv: Vec3i, n: Vec3i, eta: int) -> Vec3i {
    let cos = sclamp(vdot(vneg(uv), n), SCALE as int);
    let perp = vscale(vadd(uv, vscale(n, cos)), eta);
    let k = SCALE as int - vlen2(perp);
    let par = vscale(n, -fsqrt(sabs(k)));
    vadd(perp, par)
}

impl Vec3 {
    pub fn new(x: i64, y: i64, z: i64) -> (r: Self)
        ensures
            r@ == (Vec3i { x: x as int, y: y as int, z: z as int }),
    {
        Vec3 { x, y, z }
    }

    pub fn get(&self, i: usize) -> (r: i64)
        requires
            i < 3,
        ensures
            i == 0 ==> r == self.x,
            i == 1 ==> r == self.y,
            i == 2 ==> r == self.z,
    {
        if i == 0 {
            self.x
        } else if i == 1 {
            self.y
        } else {
            self.z
        }
    }

    pub fn set(&mut self, i: usize, val: i64)
        requires
            i < 3,
        ensures
            final(self).x == (if i == 0 { val } else { old(self).x }),
            final(self).y == (if i == 1 { val } else { old(self).y }),
            final(self).z == (if i == 2 { val } else { old(self).z }),
    {
        if i == 0 {
            self.x = val;
        } else if i == 1 {
            self.y = val;
        } else {
            self.z = val;
        }
    }

    pub fn neg(&self) -> (r: Self)
        requires
            self.x > i64::MIN,
            self.y > i64::MIN,
            self.z > i64::MIN,
        ensures
            r@ == vneg(self@),
    {
        Vec3 { x: -self.x, y: -self.y, z: -self.z }
    }

    pub fn add(&self, o: &Vec3) -> (r: Self)
        requires
            i64::MIN <= self@.x + o@.x <= i64::MAX,
            i64::MIN <= self@.y + o@.y <= i64::MAX,
            i64::MIN <= self@.z + o@.z <= i64::MAX,
        ensures
            r@ == vadd(self@, o@),
    {
        Vec3 { x: self.x + o.x, y: self.y + o.y, z: self.z + o.z }
    }

    pub fn sub(&self, o: &Vec3) -> (r: Self)
        requires
            i64::MIN <= self@.x - o@.x <= i64::MAX,
            i64::MIN <= self@.y - o@.y <= i64::MAX,
            i64::MIN <= self@.z - o@.z <= i64::MAX,
        ensures
            r@ == vsub(self@, o@),
    {
        Vec3 { x: self.x - o.x, y: self.y - o.y, z: self.z - o.z }
    }

    pub fn scale(&self, k: i64) -> (r: Self)
        requires
            i64::MIN <= fmul(self@.x, k as int) <= i64::MAX,
            i64::MIN <= fmul(self@.y, k as int) <= i64::MAX,
            i64::MIN <= fmul(self@.z, k as int) <= i64::MAX,
        ensures
            r@ == vscale(self@, k as int),
    {
        Vec3 { x: fx_mul(self.x, k), y: fx_mul(self.y, k), z: fx_mul(self.z, k) }
    }

    pub fn mul(&self, o: &Vec3) -> (r: Self)
        requires
            i64::MIN <= fmul(self@.x, o@.x) <= i64::MAX,
            i64::MIN <= fmul(self@.y, o@.y) <= i64::MAX,
            i64::MIN <= fmul(self@.z, o@.z) <= i64::MAX,
        ensures
            r@ == vmul(self@, o@),
    {
        Vec3 { x: fx_mul(self.x, o.x), y: fx_mul(self.y, o.y), z: fx_mul(self.z, o.z) }
    }

    pub fn div(&self, k: i64) -> (r: Self)
        requires
            k != 0,
            k > i64::MIN,
            k < 0 ==> self.x > i64::MIN && self.y > i64::MIN && self.z > i64::MIN,
            i64::MIN <= vdivs_signed(self@, k as int).x <= i64::MAX,
            i64::MIN <= vdivs_signed(self@, k as int).y <= i64::MAX,
            i64::MIN <= vdivs_signed(self@, k as int).z <= i64::MAX,
        ensures
            r@ == vdivs_signed(self@, k as int),
    {
        if k > 0 {
            Vec3 { x: fx_div(self.x, k), y: fx_div(self.y, k), z: fx_div(self.z, k) }
        } else {
            Vec3 { x: fx_div(-self.x, -k), y: fx_div(-self.y, -k), z: fx_div(-self.z, -k) }
        }
    }

    pub fn dot(&self, o: &Vec3) -> (r: i64)
        requires
            within(self@, 0x4000000000000000),
            within(o@, 0x4000000000000000),
            i64::MIN <= vdot(self@, o@) <= i64::MAX,
        ensures
            r == vdot(self@, o@),
    {
        proof {
            let m: int = 0x4000000000000000;
            assert(sabs(self@.x * o@.x) <= m * m && sabs(self@.y * o@.y) <= m * m && sabs(
                self@.z * o@.z,
            ) <= m * m) by (nonlinear_arith)
                requires
                    within(self@, m),
                    within(o@, m),
            ;
        }
        let p: i128 = (self.x as i128) * (o.x as i128) + (self.y as i128) * (o.y as i128) + (
        self.z as i128) * (o.z as i128);
        crate::fx::tdiv_scale(p)
    }

    pub fn length_squared(&self) -> (r: i64)
        requires
            within(self@, 0x4000000000000000),
            vlen2(self@) <= i64::MAX,
        ensures
            r == vlen2(self@),
            r >= 0,
    {
        proof {
            assert(self@.x * self@.x >= 0 && self@.y * self@.y >= 0 && self@.z * self@.z >= 0)
                by (nonlinear_arith);
        }
        self.dot(self)
    }

    pub fn length(&self) -> (r: i64)
        requires
            within(self@, 0x4000000000000000),
            vlen2(self@) <= i64::MAX,
        ensures
            r == vlen(self@),
            r >= 0,
    {
        let l2 = self.length_squared();
        fx_sqrt(l2)
    }

    /// The same direction with length one, up to truncation.
    pub fn unit(&self) -> (r: Self)
        requires
            within(self@, 0x4000000000000000),
            vlen2(self@) <= i64::MAX,
            vlen(self@) > 0,
            i64::MIN <= fdiv(self@.x, vlen(self@)) <= i64::MAX,
            i64::MIN <= fdiv(self@.y, vlen(self@)) <= i64::MAX,
            i64::MIN <= fdiv(self@.z, vlen(self@)) <= i64::MAX,
        ensures
            r@ == vunit(self@),
    {
        let len = self.length();
        self.div(len)
    }

    pub fn cross(&self, o: &Vec3) -> (r: Self)
        requires
            within(self@, 0x80000000),
            within(o@, 0x80000000),
        ensures
            r@ == vcross(self@, o@),
    {
        proof {
            let m: int = 0x80000000;
            lemma_fmul_abs_bound(self@.x, o@.y, m, m);
            lemma_fmul_abs_bound(self@.x, o@.z, m, m);
            lemma_fmul_abs_bound(self@.y, o@.x, m, m);
            lemma_fmul_abs_bound(self@.y, o@.z, m, m);
            lemma_fmul_abs_bound(self@.z, o@.x, m, m);
            lemma_fmul_abs_bound(self@.z, o@.y, m, m);
        }
        Vec3 {
            x: fx_mul(self.y, o.z) - fx_mul(self.z, o.y),
            y: fx_mul(self.z, o.x) - fx_mul(self.x, o.z),
            z: fx_mul(self.x, o.y) - fx_mul(self.y, o.x),
        }
    }

    pub fn is_near_zero(&self) -> (r: bool)
        ensures
            r == near_zero(self@),
    {
        let ax = if self.x >= 0 {
            self.x
        } else if self.x == i64::MIN {
            i64::MAX
        } else {
            -self.x
        };
        let ay = if self.y >= 0 {
            self.y
        } else if self.y == i64::MIN {
            i64::MAX
        } else {
            -self.y
        };
        let az = if self.z >= 0 {
            self.z
        } else if self.z == i64::MIN {
            i64::MAX
        } else {
            -self.z
        };
        ax < NEAR_ZERO_EPS && ay < NEAR_ZERO_EPS && az < NEAR_ZERO_EPS
    }

    /// Mirror about a normal.
    pub fn reflect(&self, n: &Vec3) -> (r: Self)
        requires
            within(self@, 0x1000000),
            within(n@, 0x100000),
        ensures
            r@ == vreflect(self@, n@),
            within(r@, 0x1000000000),
    {
        proof {
            lemma_reflect_bounds(self@, n@);
        }
        let d = self.dot(n);
        let r = self.sub(&n.scale(2 * d));
        r
    }

    /// Snell refraction with index ratio `eta`, per `vrefract`.
    pub fn refract(&self, n: &Vec3, eta: i64) -> (r: Self)
        requires
            within(self@, 0x1000000),
            within(n@, 0x100000),
            0 < eta <= 0x80000,
        ensures
            r@ == vrefract(self@, n@, eta as int),
            within(r@, 0x1000000000),
    {
        proof {
            lemma_vdot_abs_bound(vneg(self@), n@, 0x1000000, 0x100000);
            lemma_refract_bounds(self@, n@, eta as int);
        }
        let mut cos = self.neg().dot(n);
        if cos > SCALE {
            cos = SCALE;
        }
        if cos < -SCALE {
            cos = -SCALE;
        }
        let perp = self.add(&n.scale(cos)).scale(eta);
        let l2 = perp.length_squared();
        let k = SCALE - l2;
        let ka = if k >= 0 {
            k
        } else {
            -k
        };
        let par = n.scale(-fx_sqrt(ka));
        perp.add(&par)
    }
}

impl Vec3 {
    /// One uniform draw per component, each in `[0, 1)`.
    pub fn new_random(rng: &mut Rng) -> (r: Self)
        ensures
            0 <= r@.x < SCALE as int,
            0 <= r@.y < SCALE as int,
            0 <= r@.z < SCALE as int,
    {
        let x = rng.gen_range(0, SCALE);
        let y = rng.gen_range(0, SCALE);
        let z = rng.gen_range(0, SCALE);
        Vec3::new(x, y, z)
    }

    /// One uniform draw per component, each in `[lo, hi)`.
    pub fn new_random_range(rng: &mut Rng, lo: i64, hi: i64) -> (r: Self)
        requires
            lo < hi,
        ensures
            lo <= r@.x < hi,
            lo <= r@.y < hi,
            lo <= r@.z < hi,
    {
        let x = rng.gen_range(lo, hi);
        let y = rng.gen_range(lo, hi);
        let z = rng.gen_range(lo, hi);
        Vec3::new(x, y, z)
    }

    /// Rejection-sample a point interior to the unit ball. The number of
    /// retries is capped and an exactly-zero sample is rejected too, so a
    /// nonzero interior point always comes back; the cap falls back to a
    /// fixed interior point, which a draw reaches only with vanishing
    /// probability.
    pub fn new_random_in_unit_sphere(rng: &mut Rng) -> (r: Self)
        ensures
            within(r@, SCALE as int),
            0 < vlen2(r@) < SCALE as int,
    {
        let mut tries: u32 = 0;
        while tries < 64
            invariant
                tries <= 64,
            decreases 64 - tries,
        {
            let p = Vec3::new_random_range(rng, -SCALE, SCALE);
            proof {
                lemma_vlen2_bounds(p@, SCALE as int);
            }
            let l2 = p.length_squared();
            if 0 < l2 && l2 < SCALE {
                return p;
            }
            tries = tries + 1;
        }
        let q = Vec3::new(SCALE / 2, 0, 0);
        proof {
            assert(vlen2(q@) == tdiv(32768int * 32768, SCALE as int));
        }
        q
    }

    /// A unit vector drawn by normalizing a point of the unit ball.
    /// Points with squared length below `1/64` are re-rolled: that close
    /// to the origin, fixed-point normalization loses its accuracy. The
    /// result's squared length is within `1/64` of one.
    pub fn new_random_unit(rng: &mut Rng) -> (r: Self)
        ensures
            within(r@, 0x20000),
            SCALE as int - 1024 <= vlen2(r@) <= SCALE as int + 1024,
            exists|p: Vec3i|
                within(p, SCALE as int) && 1024 <= vlen2(p) < SCALE as int && r@ == vunit(p),
    {
        let mut tries: u32 = 0;
        while tries < 64
            invariant
                tries <= 64,
            decreases 64 - tries,
        {
            let p = Vec3::new_random_in_unit_sphere(rng);
            proof {
                lemma_vlen2_bounds(p@, SCALE as int);
            }
            let l2 = p.length_squared();
            if l2 >= 1024 {
                proof {
                    lemma_vunit_within(p@);
                    lemma_vunit_near_unit(p@);
                }
                let u = p.unit();
                proof {
                    assert(within(p@, SCALE as int) && 1024 <= vlen2(p@) < SCALE as int && u@
                        == vunit(p@));
                }
                return u;
            }
            tries = tries + 1;
        }
        let q = Vec3::new(SCALE / 2, 0, 0);
        proof {
            assert(vlen2(q@) == tdiv(32768int * 32768, SCALE as int));
            lemma_vunit_within(q@);
            lemma_vunit_near_unit(q@);
        }
        let u = q.unit();
        proof {
            assert(within(q@, SCALE as int) && 1024 <= vlen2(q@) < SCALE as int && u@ == vunit(
                q@,
            ));
        }
        u
    }

    /// A unit-ball point flipped, if needed, into the half-space of `normal`.
    pub fn new_random_in_hemisphere(rng: &mut Rng, normal: &Vec3) -> (r: Self)
        requires
            within(normal@, 0x1000000000000),
        ensures
            within(r@, SCALE as int),
            0 < vlen2(r@) < SCALE as int,
            vdot(r@, normal@) >= 0,
    {
        let p = Vec3::new_random_in_unit_sphere(rng);
        proof {
            lemma_vdot_abs_bound(p@, normal@, SCALE as int, 0x1000000000000);
            lemma_vneg_dot(p@, normal@);
        }
        if p.dot(normal) > 0 {
            p
        } else {
            p.neg()
        }
    }

    /// Rejection-sample a point of the unit disk in the xy-plane, with the
    /// same capped retries as the ball sampler; the fallback here is the
    /// disk's center, which is a valid lens offset.
    pub fn new_random_in_unit_disk(rng: &mut Rng) -> (r: Self)
        ensures
            within(r@, SCALE as int),
            r@.z == 0,
            0 <= vlen2(r@) < SCALE as int,
    {
        let mut tries: u32 = 0;
        while tries < 64
            invariant
                tries <= 64,
            decreases 64 - tries,
        {
            let x = rng.gen_range(-SCALE, SCALE + 1);
            let y = rng.gen_range(-SCALE, SCALE + 1);
            let p = Vec3::new(x, y, 0);
            proof {
                lemma_vlen2_bounds(p@, SCALE as int);
            }
            let l2 = p.length_squared();
            if l2 < SCALE {
                return p;
            }
            tries = tries + 1;
        }
        Vec3::new(0, 0, 0)
    }
}

/// The character of one decimal digit.
pub open spec fn digit_char(d: int) -> char {
    if d == 0 {
        '0'
    } else if d == 1 {
        '1'
    } else if d == 2 {
        '2'
    } else if d == 3 {
        '3'
    } else if d == 4 {
        '4'
    } else if d == 5 {
        '5'
    } else if d == 6 {
        '6'
    } else if d == 7 {
        '7'
    } else if d == 8 {
        '8'
    } else {
        '9'
    }
}

/// The decimal numeral of a byte value, most significant digit first,
/// without leading zeros.
pub open spec fn decimal_u8(n: int) -> Seq<char>
    recommends
        0 <= n < 256,
{
    if n < 10 {
        seq![digit_char(n)]
    } else if n < 100 {
        seq![digit_char(n / 10), digit_char(n % 10)]
    } else {
        seq![digit_char(n / 100), digit_char((n / 10) % 10), digit_char(n % 10)]
    }
}

/// Relies on the `format!` macro: it renders each byte as its decimal
/// numeral without leading zeros, the three separated by single spaces.
#[verifier::external_body]
fn format_triplet(a: u8, b: u8, c: u8) -> (s: String)
    ensures
        s@ == decimal_u8(a as int) + seq![' '] + decimal_u8(b as int) + seq![' '] + decimal_u8(
            c as int,
        ),
{
    format!("{} {} {}", a, b, c)
}

impl Vec3 {
    /// Render an accumulated color as the space-separated display bytes
    /// of its channels, averaged over the sample count and gamma
    /// corrected per `crate::render::gamma_byte`.
    pub fn to_string(&self, samples_per_pixel: i64) -> (s: String)
        requires
            1 <= samples_per_pixel <= 0x10000,
            0 <= self@.x <= samples_per_pixel * SCALE,
            0 <= self@.y <= samples_per_pixel * SCALE,
            0 <= self@.z <= samples_per_pixel * SCALE,
        ensures
            s@ == decimal_u8(crate::render::gamma_byte(self@.x, samples_per_pixel as int)) + seq![
                ' ',
            ] + decimal_u8(crate::render::gamma_byte(self@.y, samples_per_pixel as int)) + seq![
                ' ',
            ] + decimal_u8(crate::render::gamma_byte(self@.z, samples_per_pixel as int)),
    {
        let a = crate::render::to_byte(self.x, samples_per_pixel);
        let b = crate::render::to_byte(self.y, samples_per_pixel);
        let c = crate::render::to_byte(self.z, samples_per_pixel);
        format_triplet(a, b, c)
    }
}

/// Negation flips a dot product and keeps a squared length.
pub proof fn lemma_vneg_dot(a: Vec3i, b: Vec3i)
    ensures
        vdot(vneg(a), b) == -vdot(a, b),
        vlen2(vneg(a)) == vlen2(a),
{
    assert((-a.x) * b.x == -(a.x * b.x) && (-a.y) * b.y == -(a.y * b.y) && (-a.z) * b.z == -(a.z
        * b.z)) by (nonlinear_arith);
    assert((-a.x) * (-a.x) == a.x * a.x && (-a.y) * (-a.y) == a.y * a.y && (-a.z) * (-a.z) == a.z
        * a.z) by (nonlinear_arith);
}

/// One component of a normalized vector is at most twice unit scale:
/// the length dominates every component, up to the one truncation.
proof fn lemma_unit_comp_bound(c: int, l2: int, len: int)
    requires
        sabs(c) <= 0x40000000,
        1 <= l2,
        l2 * SCALE >= c * c - SCALE + 1,
        l2 * SCALE <= 0x7fffffffffffffff * 0x10000,
        len == sqrt_floor((l2 * SCALE) as nat) as int,
    ensures
        len >= 256,
        sabs(fdiv(c, len)) <= 0x20000,
{
    lemma_sqrt_floor((l2 * SCALE) as nat);
    assert(len >= 256) by (nonlinear_arith)
        requires
            (len + 1) * (len + 1) > l2 * SCALE,
            l2 * SCALE >= 65536,
            len >= 0,
    ;
    let a = sabs(c) * SCALE as int;
    let q = a / len;
    vstd::arithmetic::div_mod::lemma_fundamental_div_mod(a, len);
    assert(0 <= a % len < len);
    assert(sabs(fdiv(c, len)) == q) by {
        assert(fdiv(c, len) == tdiv(c * SCALE as int, len));
        if c >= 0 {
            assert(c * SCALE as int == a);
        } else {
            assert(c * SCALE as int == -a) by (nonlinear_arith)
                requires
                    c < 0,
                    a == sabs(c) * SCALE as int,
            ;
        }
    }
    assert(sabs(c) * sabs(c) == c * c) by (nonlinear_arith);
    assert(q <= 0x20000) by (nonlinear_arith)
        requires
            a == sabs(c) * SCALE as int,
            a == len * q + a % len,
            0 <= a % len < len,
            len * len <= l2 * SCALE,
            l2 * SCALE < (len + 1) * (len + 1),
            l2 * SCALE >= c * c - SCALE + 1,
            sabs(c) * sabs(c) == c * c,
            len >= 256,
            SCALE == 0x10000,
    ;
}

/// One component's floor quotient, squared, brackets the exact ratio.
proof fn lemma_unit_comp_sq(x: int, l: int)
    requires
        l > 0,
    ensures
        ({
            let a = sabs(fdiv(x, l));
            &&& a * l <= sabs(x) * SCALE as int
            &&& sabs(x) * (SCALE as int) < (a + 1) * l
            &&& a * a * (l * l) <= (x * x) * (SCALE as int * SCALE as int)
            &&& (x * x) * (SCALE as int * SCALE as int) < a * a * (l * l) + (2 * a + 1) * (l * l)
        }),
{
    let s = SCALE as int;
    let w = sabs(x) * s;
    let a = sabs(fdiv(x, l));
    assert(w >= 0) by (nonlinear_arith)
        requires
            w == sabs(x) * s,
            s == 0x10000,
    ;
    assert(a == w / l) by {
        assert(sabs(fdiv(x, l)) == tdiv(sabs(x * s), l));
        assert(sabs(x * s) == sabs(x) * s) by (nonlinear_arith)
            requires
                s == 0x10000,
        ;
    }
    vstd::arithmetic::div_mod::lemma_fundamental_div_mod(w, l);
    assert(a * l <= w && w < (a + 1) * l) by (nonlinear_arith)
        requires
            w == l * a + w % l,
            0 <= w % l < l,
    ;
    assert(a >= 0);
    assert(a * a * (l * l) <= w * w && w * w < a * a * (l * l) + (2 * a + 1) * (l * l))
        by (nonlinear_arith)
        requires
            0 <= a * l <= w,
            w < (a + 1) * l,
            l > 0,
            a >= 0,
    ;
    assert(w * w == (x * x) * (s * s)) by (nonlinear_arith)
        requires
            w == sabs(x) * s,
    ;
}

/// Normalizing any vector of length at least `1/8` yields a vector
/// whose squared length is within `1/64` of one: the unit-length
/// guarantee of `vunit` at fixed-point granularity.
pub proof fn lemma_vunit_near_unit(v: Vec3i)
    requires
        within(v, 0x10000000),
        1024 <= vlen2(v),
    ensures
        SCALE as int - 1024 <= vlen2(vunit(v)) <= SCALE as int + 1024,
{
    let s = SCALE as int;
    let sum = v.x * v.x + v.y * v.y + v.z * v.z;
    assert(sum >= v.x * v.x >= 0 && sum >= v.y * v.y >= 0 && sum >= v.z * v.z >= 0)
        by (nonlinear_arith)
        requires
            sum == v.x * v.x + v.y * v.y + v.z * v.z,
    ;
    assert(sum <= 3 * 0x10000000 * 0x10000000) by (nonlinear_arith)
        requires
            sum == v.x * v.x + v.y * v.y + v.z * v.z,
            -0x10000000 <= v.x <= 0x10000000,
            -0x10000000 <= v.y <= 0x10000000,
            -0x10000000 <= v.z <= 0x10000000,
    ;
    let l2 = vlen2(v);
    assert(l2 == sum / s);
    vstd::arithmetic::div_mod::lemma_fundamental_div_mod(sum, s);
    assert(l2 * s <= sum && sum < l2 * s + s);
    let l = vlen(v);
    lemma_sqrt_floor((l2 * s) as nat);
    assert(l * l <= l2 * s && l2 * s < (l + 1) * (l + 1));
    assert(l >= 8192) by (nonlinear_arith)
        requires
            (l + 1) * (l + 1) > l2 * s,
            l2 * s >= 1024 * 0x10000,
            l >= 0,
    ;
    assert(l < 0x20000000) by (nonlinear_arith)
        requires
            l * l <= l2 * s,
            l2 * s <= 3 * 0x10000000 * 0x10000000,
            l >= 0,
    ;
    assert((l + 1) * (l + 1) == l * l + 2 * l + 1) by (nonlinear_arith);
    assert(l * l <= sum && sum <= l * l + 2 * l + s - 1);
    lemma_unit_comp_sq(v.x, l);
    lemma_unit_comp_sq(v.y, l);
    lemma_unit_comp_sq(v.z, l);
    let ax = sabs(fdiv(v.x, l));
    let ay = sabs(fdiv(v.y, l));
    let az = sabs(fdiv(v.z, l));
    assert(ax <= 65636 && ay <= 65636 && az <= 65636) by (nonlinear_arith)
        requires
            ax * ax * (l * l) <= (v.x * v.x) * (SCALE as int * SCALE as int),
            ay * ay * (l * l) <= (v.y * v.y) * (SCALE as int * SCALE as int),
            az * az * (l * l) <= (v.z * v.z) * (SCALE as int * SCALE as int),
            v.x * v.x <= sum,
            v.y * v.y <= sum,
            v.z * v.z <= sum,
            sum <= l * l + 2 * l + SCALE as int - 1,
            l >= 8192,
            ax >= 0,
            ay >= 0,
            az >= 0,
    ;
    let q = ax * ax + ay * ay + az * az;
    assert(q * (l * l) == ax * ax * (l * l) + ay * ay * (l * l) + az * az * (l * l))
        by (nonlinear_arith)
        requires
            q == ax * ax + ay * ay + az * az,
    ;
    assert(sum * (s * s) == (v.x * v.x) * (s * s) + (v.y * v.y) * (s * s) + (v.z * v.z) * (s * s))
        by (nonlinear_arith)
        requires
            sum == v.x * v.x + v.y * v.y + v.z * v.z,
    ;
    // Lower bound: the three truncations cost at most 2 * 65636 + 1 each.
    assert(q * (l * l) > sum * (s * s) - 393819 * (l * l)) by (nonlinear_arith)
        requires
            sum * (s * s) < q * (l * l) + (2 * ax + 1) * (l * l) + (2 * ay + 1) * (l * l) + (2 * az
                + 1) * (l * l),
            ax <= 65636,
            ay <= 65636,
            az <= 65636,
            l * l >= 0,
    ;
    assert(sum * (s * s) >= (l * l) * (s * s)) by (nonlinear_arith)
        requires
            sum >= l * l,
    ;
    assert(q > s * s - 393819) by (nonlinear_arith)
        requires
            q * (l * l) > (l * l) * (s * s) - 393819 * (l * l),
            l * l > 0,
    ;
    // Upper bound: the length estimate undershoots by at most 2l + s - 1,
    // which the square of the quotient inflates by less than 0x800000.
    assert((2 * l + s - 1) * (s * s) <= 0x800000 * (l * l)) by (nonlinear_arith)
        requires
            l >= 8192,
            s == 0x10000,
    ;
    assert(q * (l * l) <= (l * l) * (s * s) + (2 * l + s - 1) * (s * s)) by (nonlinear_arith)
        requires
            q * (l * l) <= sum * (s * s),
            sum <= l * l + 2 * l + s - 1,
            s * s >= 0,
    ;
    assert(q <= s * s + 0x800000) by (nonlinear_arith)
        requires
            q * (l * l) <= (l * l) * (s * s) + 0x800000 * (l * l),
            l * l > 0,
    ;
    assert(vlen2(vunit(v)) == tdiv(q, s)) by {
        let u = vunit(v);
        assert(u.x * u.x == ax * ax && u.y * u.y == ay * ay && u.z * u.z == az * az)
            by (nonlinear_arith)
            requires
                ax == sabs(u.x),
                ay == sabs(u.y),
                az == sabs(u.z),
        ;
    }
    crate::fx::lemma_tdiv_ordered(s * s - 393818, q, s);
    crate::fx::lemma_tdiv_ordered(q, s * s + 0x800000, s);
    assert(tdiv(s * s - 393818, s) == 65529 && tdiv(s * s + 0x800000, s) == 65664)
        by (nonlinear_arith)
        requires
            s == 0x10000,
    ;
}

/// A normalized vector has components of roughly unit scale, and the
/// length that divides them is itself at least `1/256`.
pub proof fn lemma_vunit_within(v: Vec3i)
    requires
        within(v, 0x40000000),
        1 <= vlen2(v),
    ensures
        vlen(v) >= 256,
        within(vunit(v), 0x20000),
{
    let sum = v.x * v.x + v.y * v.y + v.z * v.z;
    assert(sum >= v.x * v.x && sum >= v.y * v.y && sum >= v.z * v.z && sum >= 0)
        by (nonlinear_arith)
        requires
            sum == v.x * v.x + v.y * v.y + v.z * v.z,
    ;
    assert(sum <= 3 * 0x40000000 * 0x40000000) by (nonlinear_arith)
        requires
            sum == v.x * v.x + v.y * v.y + v.z * v.z,
            -0x40000000 <= v.x <= 0x40000000,
            -0x40000000 <= v.y <= 0x40000000,
            -0x40000000 <= v.z <= 0x40000000,
    ;
    let l2 = vlen2(v);
    assert(l2 == sum / SCALE as int);
    vstd::arithmetic::div_mod::lemma_fundamental_div_mod(sum, SCALE as int);
    assert(l2 * SCALE >= sum - SCALE + 1);
    assert(l2 * SCALE <= 0x7fffffffffffffff * 0x10000);
    assert(sabs(v.x) * sabs(v.x) == v.x * v.x && sabs(v.y) * sabs(v.y) == v.y * v.y && sabs(v.z)
        * sabs(v.z) == v.z * v.z) by (nonlinear_arith);
    lemma_unit_comp_bound(v.x, l2, vlen(v));
    lemma_unit_comp_bound(v.y, l2, vlen(v));
    lemma_unit_comp_bound(v.z, l2, vlen(v));
}

/// A mirror bounce off a nearly unit normal points away from the
/// surface whenever the incidence cosine clears a margin of `64`
/// (about one thousandth): the truncations in the fixed-point dot
/// product and reflection cost less than that margin recovers.
pub proof fn lemma_mirror_margin(ud: Vec3i, n: Vec3i)
    requires
        within(ud, 0x20000),
        within(n, 0x100000),
        SCALE as int - 1024 <= vlen2(n) <= SCALE as int + 1024,
        vdot(ud, n) <= -64,
    ensures
        vdot(vreflect(ud, n), n) > 0,
{
    let s = SCALE as int;
    let k = vdot(ud, n);
    let sum1 = ud.x * n.x + ud.y * n.y + ud.z * n.z;
    crate::fx::lemma_tdiv_mul_error(sum1, s);
    let rho1 = sum1 - k * s;
    assert(sabs(rho1) < s);
    let sum2 = n.x * n.x + n.y * n.y + n.z * n.z;
    assert(sum2 >= n.x * n.x >= 0 && sum2 >= n.y * n.y >= 0 && sum2 >= n.z * n.z >= 0)
        by (nonlinear_arith)
        requires
            sum2 == n.x * n.x + n.y * n.y + n.z * n.z,
    ;
    assert(vlen2(n) == sum2 / s);
    vstd::arithmetic::div_mod::lemma_fundamental_div_mod(sum2, s);
    assert((s - 1024) * s <= sum2 && sum2 < (s + 1024) * s + s);
    assert(sabs(n.x) <= 66050 && sabs(n.y) <= 66050 && sabs(n.z) <= 66050) by (nonlinear_arith)
        requires
            n.x * n.x <= sum2,
            n.y * n.y <= sum2,
            n.z * n.z <= sum2,
            sum2 < (0x10000 + 1024) * 0x10000 + 0x10000,
    ;
    let ex = fmul(n.x, 2 * k);
    let ey = fmul(n.y, 2 * k);
    let ez = fmul(n.z, 2 * k);
    crate::fx::lemma_tdiv_mul_error(n.x * (2 * k), s);
    crate::fx::lemma_tdiv_mul_error(n.y * (2 * k), s);
    crate::fx::lemma_tdiv_mul_error(n.z * (2 * k), s);
    let sx = ex * s - n.x * (2 * k);
    let sy = ey * s - n.y * (2 * k);
    let sz = ez * s - n.z * (2 * k);
    let num = (ud.x - ex) * n.x + (ud.y - ey) * n.y + (ud.z - ez) * n.z;
    assert(num * s == ((ud.x - ex) * n.x) * s + ((ud.y - ey) * n.y) * s + ((ud.z - ez) * n.z)
        * s) by (nonlinear_arith)
        requires
            num == (ud.x - ex) * n.x + (ud.y - ey) * n.y + (ud.z - ez) * n.z,
    ;
    assert(((ud.x - ex) * n.x) * s == (ud.x * n.x) * s - (ex * n.x) * s) by (nonlinear_arith);
    assert(((ud.y - ey) * n.y) * s == (ud.y * n.y) * s - (ey * n.y) * s) by (nonlinear_arith);
    assert(((ud.z - ez) * n.z) * s == (ud.z * n.z) * s - (ez * n.z) * s) by (nonlinear_arith);
    assert(sum1 * s == (ud.x * n.x) * s + (ud.y * n.y) * s + (ud.z * n.z) * s)
        by (nonlinear_arith)
        requires
            sum1 == ud.x * n.x + ud.y * n.y + ud.z * n.z,
    ;
    assert(num * s == sum1 * s - ((ex * n.x) * s + (ey * n.y) * s + (ez * n.z) * s));
    assert((ex * n.x) * s == (2 * k) * (n.x * n.x) + sx * n.x) by (nonlinear_arith)
        requires
            sx == ex * s - n.x * (2 * k),
    ;
    assert((ey * n.y) * s == (2 * k) * (n.y * n.y) + sy * n.y) by (nonlinear_arith)
        requires
            sy == ey * s - n.y * (2 * k),
    ;
    assert((ez * n.z) * s == (2 * k) * (n.z * n.z) + sz * n.z) by (nonlinear_arith)
        requires
            sz == ez * s - n.z * (2 * k),
    ;
    assert((2 * k) * (n.x * n.x) + (2 * k) * (n.y * n.y) + (2 * k) * (n.z * n.z) == 2 * (k
        * sum2)) by (nonlinear_arith)
        requires
            sum2 == n.x * n.x + n.y * n.y + n.z * n.z,
    ;
    assert(sum1 * s == k * (s * s) + rho1 * s) by (nonlinear_arith)
        requires
            rho1 == sum1 - k * s,
    ;
    assert(num * s == k * (s * s) + rho1 * s - 2 * (k * sum2) - (sx * n.x + sy * n.y + sz * n.z));
    assert(sabs(sx * n.x) < s * 66051 && sabs(sy * n.y) < s * 66051 && sabs(sz * n.z) < s * 66051)
        by (nonlinear_arith)
        requires
            sabs(sx) < s,
            sabs(sy) < s,
            sabs(sz) < s,
            sabs(n.x) <= 66050,
            sabs(n.y) <= 66050,
            sabs(n.z) <= 66050,
            s == 0x10000,
    ;
    assert(k * (s * s) - 2 * (k * sum2) >= (-k) * (s * s) - 2048 * ((-k) * s)) by (nonlinear_arith)
        requires
            k <= -64,
            (s - 1024) * s <= sum2,
            s == 0x10000,
    ;
    assert(num * s >= 64 * ((s - 2048) * s) - s * s - 3 * (s * 66051)) by (nonlinear_arith)
        requires
            num * s >= (-k) * (s * s) - 2048 * ((-k) * s) + rho1 * s - (sx * n.x + sy * n.y + sz
                * n.z),
            sabs(rho1) < s,
            sabs(sx * n.x) < s * 66051,
            sabs(sy * n.y) < s * 66051,
            sabs(sz * n.z) < s * 66051,
            k <= -64,
            s == 0x10000,
    ;
    assert(num >= s) by (nonlinear_arith)
        requires
            num * s >= 64 * ((s - 2048) * s) - s * s - 3 * (s * 66051),
            s == 0x10000,
    ;
    crate::fx::lemma_tdiv_ordered(s, num, s);
    assert(vdot(vreflect(ud, n), n) == tdiv(num, s));
}

/// All intermediate values of `vreflect` stay in machine range for the
/// operand bounds `reflect` requires.
proof fn lemma_reflect_bounds(v: Vec3i, n: Vec3i)
    requires
        within(v, 0x1000000),
        within(n, 0x100000),
    ensures
        sabs(vdot(v, n)) <= 0x30000000,
        within(vscale(n, 2 * vdot(v, n)), 0x1000000000),
        within(vreflect(v, n), 0x1000000000),
{
    lemma_vdot_abs_bound(v, n, 0x1000000, 0x100000);
    lemma_vscale_within(n, 2 * vdot(v, n), 0x100000, 0x60000000);
}

/// All intermediate values of `vrefract` stay in machine range for the
/// operand bounds `refract` requires.
proof fn lemma_refract_bounds(uv: Vec3i, n: Vec3i, eta: int)
    requires
        within(uv, 0x1000000),
        within(n, 0x100000),
        0 < eta <= 0x80000,
    ensures
        sabs(sclamp(vdot(vneg(uv), n), SCALE as int)) <= SCALE as int,
        within(vscale(n, sclamp(vdot(vneg(uv), n), SCALE as int)), 0x100000),
        within(vadd(uv, vscale(n, sclamp(vdot(vneg(uv), n), SCALE as int))), 0x1100000),
        within(
            vscale(vadd(uv, vscale(n, sclamp(vdot(vneg(uv), n), SCALE as int))), eta),
            0x8800000,
        ),
        0 <= vlen2(vscale(vadd(uv, vscale(n, sclamp(vdot(vneg(uv), n), SCALE as int))), eta))
            <= 0xd8c0000000,
        0 <= fsqrt(sabs(
            SCALE as int - vlen2(
                vscale(vadd(uv, vscale(n, sclamp(vdot(vneg(uv), n), SCALE as int))), eta),
            ),
        )) < 0x10000000,
        within(
            vscale(
                n,
                -fsqrt(sabs(
                    SCALE as int - vlen2(
                        vscale(vadd(uv, vscale(n, sclamp(vdot(vneg(uv), n), SCALE as int))), eta),
                    ),
                )),
            ),
            0x100000000,
        ),
        within(vrefract(uv, n, eta), 0x1000000000),
{
    let cos = sclamp(vdot(vneg(uv), n), SCALE as int);
    lemma_vscale_within(n, cos, 0x100000, SCALE as int);
    let inner = vadd(uv, vscale(n, cos));
    lemma_vscale_within(inner, eta, 0x1100000, 0x80000);
    let perp = vscale(inner, eta);
    lemma_vlen2_bounds(perp, 0x8800000);
    let k = SCALE as int - vlen2(perp);
    assert(0 <= sabs(k) <= 0xd8c0010000);
    crate::fx::lemma_fsqrt_upper(sabs(k), 0x10000000);
    assert(fsqrt(sabs(k)) >= 0) by {
        lemma_sqrt_floor((sabs(k) * SCALE as int) as nat);
    }
    let sq = fsqrt(sabs(k));
    lemma_vscale_within(n, -sq, 0x100000, 0x10000000);
}

/// Bound on the dot product from bounds on the operands.
pub proof fn lemma_vdot_abs_bound(a: Vec3i, b: Vec3i, m1: int, m2: int)
    requires
        within(a, m1),
        within(b, m2),
    ensures
        sabs(vdot(a, b)) <= 3 * m1 * m2 / SCALE as int,
        sabs(vdot(a, b)) <= 3 * m1 * m2,
{
    assert(sabs(a.x * b.x + a.y * b.y + a.z * b.z) <= 3 * m1 * m2) by (nonlinear_arith)
        requires
            within(a, m1),
            within(b, m2),
    ;
    lemma_tdiv_abs_bound(a.x * b.x + a.y * b.y + a.z * b.z, SCALE as int, 3 * m1 * m2);
}

/// Bound on a scaled vector from bounds on vector and factor.
pub proof fn lemma_vscale_within(a: Vec3i, k: int, m1: int, m2: int)
    requires
        within(a, m1),
        sabs(k) <= m2,
    ensures
        within(vscale(a, k), m1 * m2 / SCALE as int),
{
    lemma_fmul_abs_bound(a.x, k, m1, m2);
    lemma_fmul_abs_bound(a.y, k, m1, m2);
    lemma_fmul_abs_bound(a.z, k, m1, m2);
}

/// Bound on a cross product from bounds on the operands.
pub proof fn lemma_vcross_within(a: Vec3i, b: Vec3i, m1: int, m2: int)
    requires
        within(a, m1),
        within(b, m2),
    ensures
        within(vcross(a, b), 2 * (m1 * m2 / SCALE as int)),
{
    lemma_fmul_abs_bound(a.x, b.y, m1, m2);
    lemma_fmul_abs_bound(a.x, b.z, m1, m2);
    lemma_fmul_abs_bound(a.y, b.x, m1, m2);
    lemma_fmul_abs_bound(a.y, b.z, m1, m2);
    lemma_fmul_abs_bound(a.z, b.x, m1, m2);
    lemma_fmul_abs_bound(a.z, b.y, m1, m2);
}

/// The squared length is nonnegative and bounded by the component bound.
pub proof fn lemma_vlen2_bounds(a: Vec3i, m: int)
    requires
        within(a, m),
    ensures
        0 <= vlen2(a) <= m * m * 3 / SCALE as int,
{
    assert(0 <= a.x * a.x + a.y * a.y + a.z * a.z <= 3 * m * m) by (nonlinear_arith)
        requires
            within(a, m),
    ;
    lemma_tdiv_abs_bound(a.x * a.x + a.y * a.y + a.z * a.z, SCALE as int, 3 * m * m);
    assert(3 * m * m == m * m * 3) by (nonlinear_arith);
}

/// Bound on a fixed-point square root from a bound on its argument.
pub proof fn lemma_fsqrt_abs_bound(a: int, m: int)
    requires
        0 <= a <= m,
    ensures
        0 <= fsqrt(a) <= fsqrt(m),
{
    crate::fx::lemma_sqrt_floor_monotone((a * SCALE as int) as nat, (m * SCALE as int) as nat);
}

} // verus!
