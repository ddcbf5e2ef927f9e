//! Rays, hit records and the intersection capability.

use vstd::prelude::*;

use crate::fixed::{div_i128, tdiv, SCALE};
use crate::math::{
    dot_full, dot_full_e, surrounds_s, vec_ok, vneg, wide_ok, Interval, Point3, SpecInterval,
    SpecVec3, Vec3,
};

verus! {

/// Mathematical model of a ray.
pub struct SpecRay {
    pub origin: SpecVec3,
    pub direction: SpecVec3,
}

/// A half-line: origin plus a scalar multiple of the direction.
#[derive(Clone, Copy, Debug)]
pub struct Ray {
    pub origin: Point3,
    pub direction: Vec3,
}

impl View for Ray {
    type V = SpecRay;

    open spec fn view(&self) -> SpecRay {
        SpecRay { origin: self.origin@, direction: self.direction@ }
    }
}

/// The point the ray reaches at parameter `t`.
pub open spec fn at_s(r: SpecRay, t: int) -> SpecVec3 {
    SpecVec3 {
        x: r.origin.x + tdiv(t * r.direction.x, SCALE as int),
        y: r.origin.y + tdiv(t * r.direction.y, SCALE as int),
        z: r.origin.z + tdiv(t * r.direction.z, SCALE as int),
    }
}

/// A ray the intersection arithmetic accepts: coordinates within the world
/// bound and a direction of at least unit length, which keeps every
/// intermediate within machine range.
pub open spec fn ray_ok(r: SpecRay) -> bool {
    &&& vec_ok(r.origin)
    &&& vec_ok(r.direction)
    &&& dot_full(r.direction, r.direction) >= (SCALE as int) * (SCALE as int)
}

impl Ray {
    pub fn new(origin: Point3, direction: Vec3) -> (r: Ray)
        ensures
            r.origin == origin,
            r.direction == direction,
    {
        Ray { origin, direction }
    }

    pub fn origin(&self) -> (r: Point3)
        ensures
            r == self.origin,
    {
        self.origin
    }

    pub fn direction(&self) -> (r: Vec3)
        ensures
            r == self.direction,
    {
        self.direction
    }

    /// The point at parameter `t`.
    pub fn at(&self, t: i64) -> (p: Point3)
        requires
            i64::MIN <= at_s(self@, t as int).x <= i64::MAX,
            i64::MIN <= at_s(self@, t as int).y <= i64::MAX,
            i64::MIN <= at_s(self@, t as int).z <= i64::MAX,
        ensures
            p@ == at_s(self@, t as int),
    {
        proof {
            crate::fixed::lemma_mul_bound(
                t as int,
                self@.direction.x,
                0x8000_0000_0000_0000,
                0x8000_0000_0000_0000,
            );
            crate::fixed::lemma_mul_bound(
                t as int,
                self@.direction.y,
                0x8000_0000_0000_0000,
                0x8000_0000_0000_0000,
            );
            crate::fixed::lemma_mul_bound(
                t as int,
                self@.direction.z,
                0x8000_0000_0000_0000,
                0x8000_0000_0000_0000,
            );
        }
        let qx = div_i128((t as i128) * (self.direction.x as i128), SCALE as i128);
        let qy = div_i128((t as i128) * (self.direction.y as i128), SCALE as i128);
        let qz = div_i128((t as i128) * (self.direction.z as i128), SCALE as i128);
        Vec3 {
            x: ((self.origin.x as i128) + qx) as i64,
            y: ((self.origin.y as i128) + qy) as i64,
            z: ((self.origin.z as i128) + qz) as i64,
        }
    }
}

/// Mathematical model of a hit record.
pub struct SpecHit {
    pub p: SpecVec3,
    pub n: SpecVec3,
    pub t: int,
    pub front_face: bool,
}

/// Where and how a ray first meets a surface: the point, the corrected
/// normal, the ray parameter, and whether the ray arrived from outside.
pub struct Hit {
    pub p: Point3,
    pub n: Vec3,
    pub t: i64,
    pub front_face: bool,
}

impl View for Hit {
    type V = SpecHit;

    open spec fn view(&self) -> SpecHit {
        SpecHit { p: self.p@, n: self.n@, t: self.t as int, front_face: self.front_face }
    }
}

/// The hit record built from an outward normal: the normal is flipped when
/// the ray arrives from inside, so that it always opposes the ray.
pub open spec fn hit_new_s(p: SpecVec3, outward: SpecVec3, t: int, dir: SpecVec3) -> SpecHit {
    let front = dot_full(dir, outward) < 0;
    SpecHit { p, n: if front { outward } else { vneg(outward) }, t, front_face: front }
}

/// The corrected normal never points with the ray: its product with the
/// direction is never positive.
pub proof fn lemma_hit_normal_opposes(p: SpecVec3, outward: SpecVec3, t: int, dir: SpecVec3)
    ensures
        dot_full(dir, hit_new_s(p, outward, t, dir).n) <= 0,
{
    if !(dot_full(dir, outward) < 0) {
        assert(dot_full(dir, vneg(outward)) == -dot_full(dir, outward)) by (nonlinear_arith)
            requires
                dot_full(dir, vneg(outward)) == dir.x * -outward.x + dir.y * -outward.y + dir.z
                    * -outward.z,
                dot_full(dir, outward) == dir.x * outward.x + dir.y * outward.y + dir.z
                    * outward.z,
        ;
    }
}

/// The orientation correction never changes the normal's length: the
/// corrected normal's squared length equals the outward normal's, so a unit
/// outward normal stays unit.
pub proof fn lemma_hit_normal_length_preserved(
    p: SpecVec3,
    outward: SpecVec3,
    t: int,
    dir: SpecVec3,
)
    ensures
        dot_full(hit_new_s(p, outward, t, dir).n, hit_new_s(p, outward, t, dir).n) == dot_full(
            outward,
            outward,
        ),
{
    let n = hit_new_s(p, outward, t, dir).n;
    if !(dot_full(dir, outward) < 0) {
        assert(dot_full(n, n) == dot_full(outward, outward)) by (nonlinear_arith)
            requires
                n.x == -outward.x,
                n.y == -outward.y,
                n.z == -outward.z,
                dot_full(n, n) == n.x * n.x + n.y * n.y + n.z * n.z,
                dot_full(outward, outward) == outward.x * outward.x + outward.y * outward.y
                    + outward.z * outward.z,
        ;
    }
}

impl Hit {
    /// Builds the record, orienting the normal against the ray.
    pub fn new(hit_point: Point3, outward_normal: Vec3, t: i64, ray: &Ray) -> (h: Hit)
        requires
            wide_ok(ray.direction@),
            wide_ok(outward_normal@),
            outward_normal.x > i64::MIN,
            outward_normal.y > i64::MIN,
            outward_normal.z > i64::MIN,
        ensures
            h@ == hit_new_s(hit_point@, outward_normal@, t as int, ray.direction@),
    {
        let s = dot_full_e(&ray.direction, &outward_normal);
        let is_front_facing = s < 0;
        let normal: Vec3 = if is_front_facing {
            outward_normal
        } else {
            outward_normal.neg()
        };
        Hit { p: hit_point, n: normal, t, front_face: is_front_facing }
    }

    pub fn t(&self) -> (r: i64)
        ensures
            r == self.t,
    {
        self.t
    }

    pub fn n(&self) -> (r: Vec3)
        ensures
            r == self.n,
    {
        self.n
    }

    pub fn p(&self) -> (r: Point3)
        ensures
            r == self.p,
    {
        self.p
    }
}

/// The capability of being intersected by a ray.
pub trait Hittable {
    /// The model of this entity's intersection test.
    spec fn hit_s(&self, ray: SpecRay, t_interval: SpecInterval) -> Option<SpecHit>;

    /// The well-formedness the intersection test relies on.
    spec fn hittable_wf(&self) -> bool;

    /// The nearest hit strictly inside `t_interval`, for this entity alone.
    /// Any returned hit carries a parameter strictly inside the interval and
    /// a bounded normal that never points with the ray.
    fn is_hit_by(&self, ray: &Ray, t_interval: Interval) -> (r: Option<Hit>)
        requires
            self.hittable_wf(),
            ray_ok(ray@),
        ensures
            match r {
                Some(h) => {
                    &&& self.hit_s(ray@, t_interval@) == Some(h@)
                    &&& -SCALE <= h.n.x <= SCALE
                    &&& -SCALE <= h.n.y <= SCALE
                    &&& -SCALE <= h.n.z <= SCALE
                    &&& dot_full(ray@.direction, h@.n) <= 0
                    &&& surrounds_s(t_interval@, h@.t)
                },
                None => self.hit_s(ray@, t_interval@) is None,
            },
    ;
}

} // verus!
