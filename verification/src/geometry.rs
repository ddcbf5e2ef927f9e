//! Geometric entities and the scene: ray–sphere intersection and the
//! nearest-hit query.

use vstd::prelude::*;

use crate::fixed::{
    div_i128, isqrt, lemma_mul_bound, lemma_tdiv_ratio_bound, sqrt_floor, tdiv, SCALE,
};
use crate::math::{
    dot_full, lemma_norm_positive, lemma_norm_zero, surrounds_s, unit_or_zero, vec_ok, vsub,
    Interval, Point3, SpecInterval, SpecVec3, Vec3, MAX_COORD,
};
use crate::ray::{at_s, hit_new_s, ray_ok, Hit, Hittable, Ray, SpecHit, SpecRay};

verus! {

/// A geometric primitive.
#[derive(Clone, Copy, Debug)]
pub enum Entity {
    Sphere { center: Point3, radius: i64 },
}

/// The squared direction length, `SCALE * SCALE` times the true value.
pub open spec fn sphere_a2(ray: SpecRay) -> int {
    dot_full(ray.direction, ray.direction)
}

/// The direction–to-center product, `SCALE * SCALE` times the true value.
pub open spec fn sphere_h2(center: SpecVec3, ray: SpecRay) -> int {
    dot_full(ray.direction, vsub(center, ray.origin))
}

/// Center distance squared minus radius squared, `SCALE * SCALE` times the
/// true value.
pub open spec fn sphere_c2(center: SpecVec3, radius: int, ray: SpecRay) -> int {
    dot_full(vsub(center, ray.origin), vsub(center, ray.origin)) - radius * radius
}

/// The discriminant of the intersection quadratic; negative exactly when the
/// ray's line misses the sphere.
pub open spec fn sphere_disc(center: SpecVec3, radius: int, ray: SpecRay) -> int {
    sphere_h2(center, ray) * sphere_h2(center, ray) - sphere_a2(ray) * sphere_c2(
        center,
        radius,
        ray,
    )
}

/// The nearer root of the quadratic: the entry point of the ray.
pub open spec fn sphere_root_near(center: SpecVec3, radius: int, ray: SpecRay) -> int {
    tdiv(
        (sphere_h2(center, ray) - sqrt_floor(sphere_disc(center, radius, ray))) * (SCALE as int),
        sphere_a2(ray),
    )
}

/// The farther root of the quadratic: the exit point of the ray.
pub open spec fn sphere_root_far(center: SpecVec3, radius: int, ray: SpecRay) -> int {
    tdiv(
        (sphere_h2(center, ray) + sqrt_floor(sphere_disc(center, radius, ray))) * (SCALE as int),
        sphere_a2(ray),
    )
}

/// The parameter of the accepted hit: the nearer root when it lies strictly
/// inside the interval, else the farther root, else none.
pub open spec fn sphere_hit_t(
    center: SpecVec3,
    radius: int,
    ray: SpecRay,
    itv: SpecInterval,
) -> Option<int> {
    if sphere_disc(center, radius, ray) < 0 {
        None
    } else if surrounds_s(itv, sphere_root_near(center, radius, ray)) {
        Some(sphere_root_near(center, radius, ray))
    } else if surrounds_s(itv, sphere_root_far(center, radius, ray)) {
        Some(sphere_root_far(center, radius, ray))
    } else {
        None
    }
}

/// The full hit record of the accepted parameter: the reached point, and the
/// outward unit normal oriented against the ray.
pub open spec fn sphere_hit_s(
    center: SpecVec3,
    radius: int,
    ray: SpecRay,
    itv: SpecInterval,
) -> Option<SpecHit> {
    match sphere_hit_t(center, radius, ray, itv) {
        None => None,
        Some(t) => {
            let p = at_s(ray, t);
            let outward = unit_or_zero(vsub(p, center));
            Some(hit_new_s(p, outward, t, ray.direction))
        },
    }
}

impl Entity {
    pub fn new_sphere(center: Point3, radius: i64) -> (e: Entity)
        requires
            vec_ok(center@),
            1 <= radius <= MAX_COORD,
        ensures
            e == (Entity::Sphere { center, radius }),
            e.hittable_wf(),
    {
        Entity::Sphere { center, radius }
    }
}

impl Hittable for Entity {
    /// A sphere's intersection model.
    open spec fn hit_s(&self, ray: SpecRay, t_interval: SpecInterval) -> Option<SpecHit> {
        match *self {
            Entity::Sphere { center, radius } => sphere_hit_s(
                center@,
                radius as int,
                ray,
                t_interval,
            ),
        }
    }

    /// A world-bounded center and a positive, world-bounded radius.
    open spec fn hittable_wf(&self) -> bool {
        match *self {
            Entity::Sphere { center, radius } => vec_ok(center@) && 1 <= radius <= MAX_COORD,
        }
    }

    fn is_hit_by(&self, ray: &Ray, t_interval: Interval) -> (r: Option<Hit>) {
        match self {
            Entity::Sphere { center, radius } => {
                let dx = ray.direction.x as i128;
                let dy = ray.direction.y as i128;
                let dz = ray.direction.z as i128;
                let ocx = (center.x as i128) - (ray.origin.x as i128);
                let ocy = (center.y as i128) - (ray.origin.y as i128);
                let ocz = (center.z as i128) - (ray.origin.z as i128);
                proof {
                    lemma_mul_bound(dx as int, dx as int, 0x1000_0000, 0x1000_0000);
                    lemma_mul_bound(dy as int, dy as int, 0x1000_0000, 0x1000_0000);
                    lemma_mul_bound(dz as int, dz as int, 0x1000_0000, 0x1000_0000);
                    lemma_mul_bound(dx as int, ocx as int, 0x1000_0000, 0x2000_0000);
                    lemma_mul_bound(dy as int, ocy as int, 0x1000_0000, 0x2000_0000);
                    lemma_mul_bound(dz as int, ocz as int, 0x1000_0000, 0x2000_0000);
                    lemma_mul_bound(ocx as int, ocx as int, 0x2000_0000, 0x2000_0000);
                    lemma_mul_bound(ocy as int, ocy as int, 0x2000_0000, 0x2000_0000);
                    lemma_mul_bound(ocz as int, ocz as int, 0x2000_0000, 0x2000_0000);
                    lemma_mul_bound(*radius as int, *radius as int, 0x1000_0000, 0x1000_0000);
                }
                let a2 = dx * dx + dy * dy + dz * dz;
                let h2 = dx * ocx + dy * ocy + dz * ocz;
                let c2 = ocx * ocx + ocy * ocy + ocz * ocz - (*radius as i128) * (*radius as i128);
                let ghost cg = center@;
                let ghost rg = *radius as int;
                let ghost rayg = ray@;
                proof {
                    assert(a2 == sphere_a2(rayg));
                    assert(h2 == sphere_h2(cg, rayg));
                    assert(c2 == sphere_c2(cg, rg, rayg));
                    lemma_mul_bound(h2 as int, h2 as int, 0x800_0000_0000_0000, 0x800_0000_0000_0000);
                    lemma_mul_bound(a2 as int, c2 as int, 0x800_0000_0000_0000, 0x1000_0000_0000_0000);
                }
                let disc = h2 * h2 - a2 * c2;
                if disc < 0 {
                    return None;
                }
                let sq_u = isqrt(disc as u128);
                proof {
                    assert(sq_u * sq_u <= disc);
                    assert(sq_u <= 0x4000_0000_0000_0000u128) by (nonlinear_arith)
                        requires
                            sq_u * sq_u <= disc,
                            disc <= 0x1000_0000_0000_0000_0000_0000_0000_0000int,
                    ;
                }
                let sq = sq_u as i128;
                let num_near = (h2 - sq) * (SCALE as i128);
                let num_far = (h2 + sq) * (SCALE as i128);
                proof {
                    assert(a2 >= (SCALE as int) * (SCALE as int));
                    lemma_tdiv_ratio_bound(num_near as int, a2 as int, 0x1_0000_0000_0000);
                    lemma_tdiv_ratio_bound(num_far as int, a2 as int, 0x1_0000_0000_0000);
                }
                let root_near = div_i128(num_near, a2);
                let root_far = div_i128(num_far, a2);
                proof {
                    assert(root_near == sphere_root_near(cg, rg, rayg));
                    assert(root_far == sphere_root_far(cg, rg, rayg));
                }
                let t: i64 = if (t_interval.min as i128) < root_near && root_near
                    < (t_interval.max as i128) {
                    root_near as i64
                } else if (t_interval.min as i128) < root_far && root_far
                    < (t_interval.max as i128) {
                    root_far as i64
                } else {
                    return None;
                };
                proof {
                    assert(sphere_hit_t(cg, rg, rayg, t_interval@) == Some(t as int));
                    lemma_mul_bound(t as int, rayg.direction.x, 0x1_0000_0000_0000, 0x1000_0000);
                    lemma_mul_bound(t as int, rayg.direction.y, 0x1_0000_0000_0000, 0x1000_0000);
                    lemma_mul_bound(t as int, rayg.direction.z, 0x1_0000_0000_0000, 0x1000_0000);
                    lemma_tdiv_ratio_bound(
                        (t as int) * rayg.direction.x,
                        SCALE as int,
                        0x1000_0000_0000_0000,
                    );
                    lemma_tdiv_ratio_bound(
                        (t as int) * rayg.direction.y,
                        SCALE as int,
                        0x1000_0000_0000_0000,
                    );
                    lemma_tdiv_ratio_bound(
                        (t as int) * rayg.direction.z,
                        SCALE as int,
                        0x1000_0000_0000_0000,
                    );
                }
                let p = ray.at(t);
                let w = p.sub(*center);
                let outward: Vec3 = if w.x == 0 && w.y == 0 && w.z == 0 {
                    proof {
                        lemma_norm_zero(w@);
                    }
                    Vec3 { x: 0, y: 0, z: 0 }
                } else {
                    proof {
                        lemma_norm_positive(w@);
                    }
                    crate::math::unit_vector(w)
                };
                proof {
                    assert(outward@ == unit_or_zero(vsub(at_s(rayg, t as int), cg)));
                }
                let h = Hit::new(p, outward, t, ray);
                proof {
                    crate::ray::lemma_hit_normal_opposes(p@, outward@, t as int, rayg.direction);
                }
                Some(h)
            },
        }
    }
}

/// A negative discriminant means the ray's line misses the sphere: no hit,
/// whatever the interval.
pub proof fn lemma_no_hit_when_disc_negative(
    center: SpecVec3,
    radius: int,
    ray: SpecRay,
    itv: SpecInterval,
)
    requires
        sphere_disc(center, radius, ray) < 0,
    ensures
        sphere_hit_s(center, radius, ray, itv) is None,
{
}

/// With a nonnegative discriminant, the exit root never precedes the entry
/// root.
pub proof fn lemma_sphere_roots_ordered(center: SpecVec3, radius: int, ray: SpecRay)
    requires
        sphere_a2(ray) >= 1,
        sphere_disc(center, radius, ray) >= 0,
    ensures
        sphere_root_near(center, radius, ray) <= sphere_root_far(center, radius, ray),
{
    crate::fixed::lemma_sqrt_floor_bounds(sphere_disc(center, radius, ray));
    let sq = sqrt_floor(sphere_disc(center, radius, ray));
    let h2 = sphere_h2(center, ray);
    crate::fixed::lemma_tdiv_monotone(
        (h2 - sq) * (SCALE as int),
        (h2 + sq) * (SCALE as int),
        sphere_a2(ray),
    );
}

/// An accepted hit lies strictly inside the queried interval.
pub proof fn lemma_sphere_hit_in_interval(
    center: SpecVec3,
    radius: int,
    ray: SpecRay,
    itv: SpecInterval,
)
    ensures
        match sphere_hit_s(center, radius, ray, itv) {
            Some(h) => surrounds_s(itv, h.t),
            None => true,
        },
{
}

/// Narrowing the upper bound to `c` keeps exactly the hits strictly below
/// `c`: querying with `(min, c)` equals querying in full and then dropping a
/// hit at `c` or beyond.
pub proof fn lemma_sphere_hit_narrow(
    center: SpecVec3,
    radius: int,
    ray: SpecRay,
    itv: SpecInterval,
    c: int,
)
    requires
        sphere_a2(ray) >= 1,
        c <= itv.max,
    ensures
        sphere_hit_s(center, radius, ray, SpecInterval { min: itv.min, max: c })
            == match sphere_hit_s(center, radius, ray, itv) {
            Some(h) => if h.t < c {
                Some(h)
            } else {
                None::<SpecHit>
            },
            None => None::<SpecHit>,
        },
{
    if sphere_disc(center, radius, ray) >= 0 {
        lemma_sphere_roots_ordered(center, radius, ray);
    }
}

/// The same narrowing law, stated for an entity.
pub proof fn lemma_entity_hit_narrow(e: Entity, ray: SpecRay, itv: SpecInterval, c: int)
    requires
        sphere_a2(ray) >= 1,
        c <= itv.max,
    ensures
        e.hit_s(ray, SpecInterval { min: itv.min, max: c }) == match e.hit_s(ray, itv) {
            Some(h) => if h.t < c {
                Some(h)
            } else {
                None::<SpecHit>
            },
            None => None::<SpecHit>,
        },
        match e.hit_s(ray, itv) {
            Some(h) => surrounds_s(itv, h.t),
            None => true,
        },
{
    match e {
        Entity::Sphere { center, radius } => {
            lemma_sphere_hit_narrow(center@, radius as int, ray, itv, c);
            lemma_sphere_hit_in_interval(center@, radius as int, ray, itv);
        },
    }
}

/// The nearest hit over a sequence of entities, scanned left to right: each
/// entity is queried with the upper bound narrowed to the best parameter so
/// far, so a later hit is kept only when strictly closer.
pub open spec fn scene_hit_s(
    entities: Seq<Entity>,
    ray: SpecRay,
    itv: SpecInterval,
) -> Option<SpecHit>
    decreases entities.len(),
{
    if entities.len() == 0 {
        None
    } else {
        let prev = scene_hit_s(entities.drop_last(), ray, itv);
        let cur_max = match prev {
            Some(h) => h.t,
            None => itv.max,
        };
        let cur = entities.last().hit_s(ray, SpecInterval { min: itv.min, max: cur_max });
        match cur {
            Some(h) => Some(h),
            None => prev,
        }
    }
}

/// The intersection quadratic at parameter `t`, scaled by `SCALE²`: were the
/// arithmetic exact, it would vanish exactly where the ray's point lies on
/// the sphere's surface.
pub open spec fn sphere_quadratic(center: SpecVec3, radius: int, ray: SpecRay, t: int) -> int {
    sphere_a2(ray) * t * t - 2 * sphere_h2(center, ray) * (SCALE as int) * t + sphere_c2(
        center,
        radius,
        ray,
    ) * (SCALE as int) * (SCALE as int)
}

/// An accepted parameter lands on the sphere's surface up to the rounding of
/// one square root and one division: the quadratic's residual at `t`, scaled
/// by `a2`, is squeezed between `-disc * SCALE²` and `a2 * (2 * sq * SCALE + a2)`.
pub proof fn lemma_hit_t_near_surface(
    center: SpecVec3,
    radius: int,
    ray: SpecRay,
    itv: SpecInterval,
    t: int,
)
    requires
        sphere_a2(ray) >= 1,
        sphere_hit_t(center, radius, ray, itv) == Some(t),
    ensures
        -(sphere_disc(center, radius, ray) * (SCALE as int) * (SCALE as int)) <= sphere_a2(ray)
            * sphere_quadratic(center, radius, ray, t),
        sphere_a2(ray) * sphere_quadratic(center, radius, ray, t) <= sphere_a2(ray) * (2
            * sqrt_floor(sphere_disc(center, radius, ray)) * (SCALE as int) + sphere_a2(ray)),
{
    let a2 = sphere_a2(ray);
    let h2 = sphere_h2(center, ray);
    let c2 = sphere_c2(center, radius, ray);
    let disc = sphere_disc(center, radius, ray);
    let sq = sqrt_floor(disc);
    let q = sphere_quadratic(center, radius, ray, t);
    crate::fixed::lemma_sqrt_floor_bounds(disc);
    let num: int = if t == sphere_root_near(center, radius, ray) {
        (h2 - sq) * (SCALE as int)
    } else {
        (h2 + sq) * (SCALE as int)
    };
    assert(t == tdiv(num, a2));
    crate::fixed::lemma_tdiv_remainder(num, a2);
    let rem = num - a2 * t;
    let d = a2 * t - h2 * (SCALE as int);
    assert(vstd::math::abs(d) <= sq * (SCALE as int) + a2);
    lemma_quadratic_identity(a2, h2, c2, t, SCALE as int, d, q);
    lemma_square_bounded(d, sq * (SCALE as int) + a2);
    lemma_residual_bound(sq, SCALE as int, a2, disc);
}

/// Completing the square: `a2` times the quadratic is the squared linear
/// term minus the discriminant, rescaled.
proof fn lemma_quadratic_identity(a2: int, h2: int, c2: int, t: int, s: int, d: int, q: int)
    requires
        d == a2 * t - h2 * s,
        q == a2 * t * t - 2 * h2 * s * t + c2 * s * s,
    ensures
        a2 * q == d * d - (h2 * h2 - a2 * c2) * s * s,
{
    let x = a2 * t;
    let y = h2 * s;
    assert(a2 * q == a2 * (a2 * t * t) - a2 * (2 * h2 * s * t) + a2 * (c2 * s * s))
        by (nonlinear_arith)
        requires
            q == a2 * t * t - 2 * h2 * s * t + c2 * s * s,
    ;
    assert(a2 * (a2 * t * t) == x * x) by (nonlinear_arith)
        requires
            x == a2 * t,
    ;
    assert(a2 * (2 * h2 * s * t) == 2 * (x * y)) by (nonlinear_arith)
        requires
            x == a2 * t,
            y == h2 * s,
    ;
    assert(a2 * (c2 * s * s) == (a2 * c2) * (s * s)) by (nonlinear_arith);
    assert(d * d == x * x - 2 * (x * y) + y * y) by (nonlinear_arith)
        requires
            d == x - y,
    ;
    assert(y * y == (h2 * h2) * (s * s)) by (nonlinear_arith)
        requires
            y == h2 * s,
    ;
    assert((h2 * h2 - a2 * c2) * s * s == (h2 * h2) * (s * s) - (a2 * c2) * (s * s))
        by (nonlinear_arith);
}

/// A number within `[-b, b]` has a square within `[0, b * b]`.
proof fn lemma_square_bounded(d: int, b: int)
    requires
        -b <= d <= b,
    ensures
        0 <= d * d <= b * b,
{
    assert(0 <= d * d <= b * b) by (nonlinear_arith)
        requires
            -b <= d <= b,
    ;
}

/// The square of the rounded root overshoots the discriminant by at most the
/// two rounding terms.
proof fn lemma_residual_bound(sq: int, s: int, a2: int, disc: int)
    requires
        sq >= 0,
        s >= 1,
        a2 >= 1,
        sq * sq <= disc,
    ensures
        (sq * s + a2) * (sq * s + a2) - disc * s * s <= a2 * (2 * sq * s + a2),
{
    assert((sq * s + a2) * (sq * s + a2) - disc * s * s <= a2 * (2 * sq * s + a2))
        by (nonlinear_arith)
        requires
            sq >= 0,
            s >= 1,
            a2 >= 1,
            sq * sq <= disc,
    ;
}

/// The scene's nearest-hit query returns the hit with the globally smallest
/// parameter among all entities' hits in the full interval, and misses only
/// when every entity misses. At equal parameters the earliest entity wins,
/// because a later hit must be strictly closer to replace the best so far.
pub proof fn lemma_scene_hit_nearest(entities: Seq<Entity>, ray: SpecRay, itv: SpecInterval)
    requires
        sphere_a2(ray) >= 1,
    ensures
        match scene_hit_s(entities, ray, itv) {
            None => forall|i: int|
                0 <= i < entities.len() ==> (#[trigger] entities[i].hit_s(ray, itv)) is None,
            Some(h) => {
                &&& surrounds_s(itv, h.t)
                &&& exists|i: int|
                    0 <= i < entities.len() && (#[trigger] entities[i].hit_s(ray, itv)) == Some(h)
                &&& forall|i: int|
                    0 <= i < entities.len() ==> match #[trigger] entities[i].hit_s(ray, itv) {
                        Some(g) => h.t <= g.t,
                        None => true,
                    }
            },
        },
    decreases entities.len(),
{
    if entities.len() > 0 {
        let n = entities.len() as int;
        let prefix = entities.drop_last();
        let last = entities.last();
        lemma_scene_hit_nearest(prefix, ray, itv);
        let prev = scene_hit_s(prefix, ray, itv);
        let cur_max: int = match prev {
            Some(h) => h.t,
            None => itv.max,
        };
        lemma_entity_hit_narrow(last, ray, itv, cur_max);
        let cur = last.hit_s(ray, SpecInterval { min: itv.min, max: cur_max });
        assert(forall|i: int| 0 <= i < n - 1 ==> entities[i] == prefix[i]);
        match cur {
            Some(h) => {
                assert(scene_hit_s(entities, ray, itv) == Some(h));
                assert(last.hit_s(ray, itv) == Some(h) && h.t < cur_max);
                assert(entities[n - 1].hit_s(ray, itv) == Some(h));
                assert(exists|i: int|
                    0 <= i < entities.len() && (#[trigger] entities[i].hit_s(ray, itv)) == Some(
                        h,
                    ));
                assert forall|i: int| 0 <= i < n implies match #[trigger] entities[i].hit_s(
                    ray,
                    itv,
                ) {
                    Some(g) => h.t <= g.t,
                    None => true,
                } by {
                    if i < n - 1 {
                        assert(entities[i] == prefix[i]);
                        match prev {
                            Some(hp) => {
                                assert(h.t < hp.t);
                            },
                            None => {
                                assert(prefix[i].hit_s(ray, itv) is None);
                            },
                        }
                    }
                }
            },
            None => {
                assert(scene_hit_s(entities, ray, itv) == prev);
                match prev {
                    Some(hp) => {
                        let ghost j = choose|i: int|
                            0 <= i < prefix.len() && (#[trigger] prefix[i].hit_s(ray, itv))
                                == Some(hp);
                        assert(entities[j].hit_s(ray, itv) == Some(hp));
                        assert(exists|i: int|
                            0 <= i < entities.len() && (#[trigger] entities[i].hit_s(ray, itv))
                                == Some(hp));
                        assert forall|i: int| 0 <= i < n implies match #[trigger] entities[i].hit_s(
                            ray,
                            itv,
                        ) {
                            Some(g) => hp.t <= g.t,
                            None => true,
                        } by {
                            if i < n - 1 {
                                assert(entities[i] == prefix[i]);
                            } else {
                                match last.hit_s(ray, itv) {
                                    Some(g) => {
                                        assert(!(g.t < cur_max));
                                    },
                                    None => {},
                                }
                            }
                        }
                    },
                    None => {
                        assert forall|i: int| 0 <= i < n implies (#[trigger] entities[i].hit_s(
                            ray,
                            itv,
                        )) is None by {
                            if i < n - 1 {
                                assert(entities[i] == prefix[i]);
                            } else {
                                match last.hit_s(ray, itv) {
                                    Some(g) => {
                                        assert(surrounds_s(itv, g.t));
                                        assert(false);
                                    },
                                    None => {},
                                }
                            }
                        }
                    },
                }
            },
        }
    }
}

/// An ordered collection of entities, queried as one body.
pub struct Scene {
    entities: Vec<Entity>,
}

impl View for Scene {
    type V = Seq<Entity>;

    closed spec fn view(&self) -> Seq<Entity> {
        self.entities@
    }
}

impl Scene {
    /// Every entity well formed.
    pub open spec fn wf(&self) -> bool {
        forall|i: int| 0 <= i < self@.len() ==> self@[i].hittable_wf()
    }

    pub fn new() -> (s: Scene)
        ensures
            s@ == Seq::<Entity>::empty(),
            s.wf(),
    {
        Scene { entities: Vec::new() }
    }

    /// Appends an entity; later entities lose ties to earlier ones.
    pub fn add(&mut self, element: Entity)
        requires
            element.hittable_wf(),
        ensures
            final(self)@ == old(self)@.push(element),
            old(self).wf() ==> final(self).wf(),
    {
        self.entities.push(element);
        proof {
            if old(self).wf() {
                assert forall|i: int| 0 <= i < self@.len() implies self@[i].hittable_wf() by {
                    if i < self@.len() - 1 {
                        assert(self@[i] == old(self)@[i]);
                    } else {
                        assert(self@[i] == element);
                    }
                }
            }
        }
    }

    /// The number of entities.
    pub fn len(&self) -> (n: usize)
        ensures
            n == self@.len(),
    {
        self.entities.len()
    }

    /// The nearest hit across all entities, strictly inside `t_interval`.
    pub fn hit(&self, ray: &Ray, t_interval: Interval) -> (r: Option<Hit>)
        requires
            self.wf(),
            ray_ok(ray@),
        ensures
            match r {
                Some(h) => {
                    &&& scene_hit_s(self@, ray@, t_interval@) == Some(h@)
                    &&& -SCALE <= h.n.x <= SCALE
                    &&& -SCALE <= h.n.y <= SCALE
                    &&& -SCALE <= h.n.z <= SCALE
                    &&& dot_full(ray@.direction, h@.n) <= 0
                    &&& surrounds_s(t_interval@, h@.t)
                },
                None => scene_hit_s(self@, ray@, t_interval@) is None,
            },
    {
        let ghost rayg = ray@;
        let ghost itvg = t_interval@;
        let mut closest_t: i64 = t_interval.max;
        let mut best_hit: Option<Hit> = None;
        let n = self.entities.len();
        for i in 0..n
            invariant
                n == self@.len(),
                self.wf(),
                ray_ok(rayg),
                rayg == ray@,
                itvg == t_interval@,
                closest_t <= t_interval.max,
                match best_hit {
                    Some(h) => {
                        &&& scene_hit_s(self@.subrange(0, i as int), rayg, itvg) == Some(h@)
                        &&& closest_t == h.t
                        &&& -SCALE <= h.n.x <= SCALE
                        &&& -SCALE <= h.n.y <= SCALE
                        &&& -SCALE <= h.n.z <= SCALE
                        &&& dot_full(rayg.direction, h@.n) <= 0
                        &&& surrounds_s(itvg, h@.t)
                    },
                    None => scene_hit_s(self@.subrange(0, i as int), rayg, itvg) is None
                        && closest_t == t_interval.max,
                },
        {
            let entity = &self.entities[i];
            let narrowed = Interval::new(t_interval.min, closest_t);
            let maybe_hit = entity.is_hit_by(ray, narrowed);
            proof {
                assert(self@.subrange(0, i + 1).drop_last() =~= self@.subrange(0, i as int));
                assert(self@.subrange(0, i + 1).last() == self@[i as int]);
            }
            if let Some(h) = maybe_hit {
                closest_t = h.t;
                best_hit = Some(h);
            }
        }
        proof {
            assert(self@.subrange(0, n as int) =~= self@);
        }
        best_hit
    }
}

} // verus!
