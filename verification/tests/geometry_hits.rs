use ray_tracer::fixed::SCALE;
use ray_tracer::math::{Interval, Vec3};
use ray_tracer::ray::{Hit, Hittable, Ray};
use ray_tracer::geometry::{Entity, Scene};

const S: i64 = SCALE;

fn axis_ray() -> Ray {
    Ray::new(Vec3::new(0, 0, 0), Vec3::new(0, 0, -S))
}

#[test]
fn ray_reaches_points_along_itself() {
    let r = Ray::new(Vec3::new(S, 0, 0), Vec3::new(0, S, 0));
    assert_eq!(r.at(2 * S), Vec3::new(S, 2 * S, 0));
    assert_eq!(r.at(-S), Vec3::new(S, -S, 0));
    assert_eq!(r.origin(), Vec3::new(S, 0, 0));
    assert_eq!(r.direction(), Vec3::new(0, S, 0));
}

#[test]
fn sphere_ahead_is_hit_at_entry_point() {
    let sphere = Entity::new_sphere(Vec3::new(0, 0, -3 * S), S);
    let hit = sphere.is_hit_by(&axis_ray(), Interval::new(0, i64::MAX)).unwrap();
    assert_eq!(hit.t(), 2 * S);
    assert_eq!(hit.p(), Vec3::new(0, 0, -2 * S));
    assert_eq!(hit.n(), Vec3::new(0, 0, S));
    assert!(hit.front_face);
}

#[test]
fn sphere_behind_ray_is_missed() {
    let sphere = Entity::new_sphere(Vec3::new(0, 0, 3 * S), S);
    assert!(sphere.is_hit_by(&axis_ray(), Interval::new(0, i64::MAX)).is_none());
}

#[test]
fn ray_beside_sphere_misses() {
    // A negative discriminant: the line itself stays clear of the sphere.
    let sphere = Entity::new_sphere(Vec3::new(3 * S, 0, -3 * S), S);
    assert!(sphere.is_hit_by(&axis_ray(), Interval::new(0, i64::MAX)).is_none());
}

#[test]
fn hit_from_inside_flips_the_normal() {
    // Ray starts at the sphere's center: the exit point is hit and the
    // outward geometric normal is flipped back against the ray.
    let sphere = Entity::new_sphere(Vec3::new(0, 0, 0), S);
    let hit = sphere.is_hit_by(&axis_ray(), Interval::new(0, i64::MAX)).unwrap();
    assert_eq!(hit.t(), S);
    assert_eq!(hit.p(), Vec3::new(0, 0, -S));
    assert_eq!(hit.n(), Vec3::new(0, 0, S));
    assert!(!hit.front_face);
}

#[test]
fn accepted_normals_oppose_the_ray() {
    let ray = axis_ray();
    let spheres = [
        Entity::new_sphere(Vec3::new(0, 0, -3 * S), S),
        Entity::new_sphere(Vec3::new(0, 0, 0), S),
        Entity::new_sphere(Vec3::new(S / 2, 0, -4 * S), 2 * S),
    ];
    for sphere in spheres {
        let hit = sphere.is_hit_by(&ray, Interval::new(0, i64::MAX)).unwrap();
        let d = ray.direction();
        let n = hit.n();
        assert!(d.x * n.x + d.y * n.y + d.z * n.z <= 0);
        assert!(-S <= n.x && n.x <= S && -S <= n.y && n.y <= S && -S <= n.z && n.z <= S);
    }
}

#[test]
fn interval_bounds_are_strict_for_hits() {
    // Entry at t = 2, exit at t = 4.
    let sphere = Entity::new_sphere(Vec3::new(0, 0, -3 * S), S);
    // A bound exactly at the entry point rejects it, and the exit lies
    // beyond: no hit at all.
    assert!(sphere.is_hit_by(&axis_ray(), Interval::new(0, 2 * S)).is_none());
    // A lower bound exactly at the entry point rejects the entry but keeps
    // the exit.
    let exit = sphere.is_hit_by(&axis_ray(), Interval::new(2 * S, i64::MAX)).unwrap();
    assert_eq!(exit.t(), 4 * S);
    assert!(!exit.front_face);
}

#[test]
fn orientation_correction_in_hit_record() {
    let ray = axis_ray();
    let outward = Vec3::new(0, 0, S);
    let h = Hit::new(Vec3::new(0, 0, -2 * S), outward, 2 * S, &ray);
    assert!(h.front_face);
    assert_eq!(h.n(), outward);
    let inward = Vec3::new(0, 0, -S);
    let h2 = Hit::new(Vec3::new(0, 0, -2 * S), inward, 2 * S, &ray);
    assert!(!h2.front_face);
    assert_eq!(h2.n(), Vec3::new(0, 0, S));
}

#[test]
fn scene_returns_globally_nearest_hit() {
    // Two spheres along the ray; the farther one added first.
    let mut scene = Scene::new();
    scene.add(Entity::new_sphere(Vec3::new(0, 0, -5 * S), S));
    scene.add(Entity::new_sphere(Vec3::new(0, 0, -3 * S), S));
    let hit = scene.hit(&axis_ray(), Interval::new(0, i64::MAX)).unwrap();
    assert_eq!(hit.t(), 2 * S);
    assert_eq!(hit.p(), Vec3::new(0, 0, -2 * S));
}

#[test]
fn concentric_spheres_yield_the_nearer_surface() {
    // Concentric along the ray: the small sphere's surface is nearer.
    let mut scene = Scene::new();
    scene.add(Entity::new_sphere(Vec3::new(0, 0, -4 * S), 3 * S));
    scene.add(Entity::new_sphere(Vec3::new(0, 0, -4 * S), S));
    let hit = scene.hit(&axis_ray(), Interval::new(0, i64::MAX)).unwrap();
    assert_eq!(hit.t(), S);
}

#[test]
fn equal_distance_keeps_the_earlier_entity() {
    // Both spheres are first met at t = 2, with different normals there:
    // head-on for the first; grazed tangentially for the second, whose
    // normal is perpendicular to the ray and flipped by the correction.
    let head_on = Entity::new_sphere(Vec3::new(0, 0, -3 * S), S);
    let tangent = Entity::new_sphere(Vec3::new(0, -S, -2 * S), S);
    let ray = axis_ray();

    let mut scene = Scene::new();
    scene.add(head_on);
    scene.add(tangent);
    let first = scene.hit(&ray, Interval::new(0, i64::MAX)).unwrap();
    assert_eq!(first.t(), 2 * S);
    assert_eq!(first.n(), Vec3::new(0, 0, S));

    let mut swapped = Scene::new();
    swapped.add(tangent);
    swapped.add(head_on);
    let second = swapped.hit(&ray, Interval::new(0, i64::MAX)).unwrap();
    assert_eq!(second.t(), 2 * S);
    assert_eq!(second.n(), Vec3::new(0, -S, 0));
}

#[test]
fn empty_scene_never_hits() {
    let scene = Scene::new();
    assert!(scene.hit(&axis_ray(), Interval::new(0, i64::MAX)).is_none());
    assert_eq!(scene.len(), 0);
}
