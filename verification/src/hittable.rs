//! The record of a ray-surface intersection: where it happened, the
//! oriented surface normal, the handle of the surface's material, and
//! the ray parameter of the hit.

use crate::ray::Ray;
use crate::vec3::{lemma_vdot_abs_bound, lemma_vneg_dot, vdot, vneg, within, Vec3, Vec3i};
use vstd::prelude::*;

verus! {

#[derive(Clone, Copy, Debug, PartialEq, Eq, Structural)]
pub struct HitRecord {
    pub point: Vec3,
    pub normal: Vec3,
    /// Handle into the scene's material table.
    pub material: usize,
    pub t: i64,
    pub front_face: bool,
}

/// The normal a hit record must carry: the outward normal when the ray
/// arrives from outside, its negation when from inside, so that the
/// stored normal always opposes the incoming ray.
pub open spec fn oriented_normal(d: Vec3i, outward: Vec3i) -> Vec3i {
    if vdot(d, outward) < 0 {
        outward
    } else {
        vneg(outward)
    }
}

impl HitRecord {
    /// Store `outward` oriented against the ray and remember which side
    /// the ray came from.
    pub fn set_face_normal(&mut self, r: &Ray, outward_normal: &Vec3)
        requires
            within(r.direction@, 0x10000000),
            within(outward_normal@, 0x2000800000000),
        ensures
            final(self).front_face == (vdot(r.direction@, outward_normal@) < 0),
            final(self).normal@ == oriented_normal(r.direction@, outward_normal@),
            final(self).point == old(self).point,
            final(self).t == old(self).t,
            final(self).material == old(self).material,
    {
        proof {
            lemma_vdot_abs_bound(r.direction@, outward_normal@, 0x10000000, 0x2000800000000);
        }
        self.front_face = r.direction.dot(outward_normal) < 0;
        self.normal = if self.front_face {
            *outward_normal
        } else {
            outward_normal.neg()
        };
    }
}

/// The stored normal never points along the incoming ray: the orientation
/// invariant of every hit record a scene query returns.
pub proof fn lemma_oriented_normal_opposes(d: Vec3i, outward: Vec3i)
    ensures
        vdot(d, oriented_normal(d, outward)) <= 0,
{
    lemma_vneg_dot(outward, d);
    lemma_vdot_symmetric(d, outward);
    lemma_vdot_symmetric(d, vneg(outward));
}

/// The dot product does not depend on the order of its operands.
pub proof fn lemma_vdot_symmetric(a: Vec3i, b: Vec3i)
    ensures
        vdot(a, b) == vdot(b, a),
{
    assert(a.x * b.x == b.x * a.x && a.y * b.y == b.y * a.y && a.z * b.z == b.z * a.z)
        by (nonlinear_arith);
}

} // verus!
