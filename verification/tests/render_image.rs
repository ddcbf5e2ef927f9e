use ray_tracer::camera::{get_ray_color, Camera};
use ray_tracer::fixed::SCALE;
use ray_tracer::geometry::{Entity, Scene};
use ray_tracer::math::Vec3;
use ray_tracer::ray::Ray;

const S: i64 = SCALE;

/// 16:9, in fixed point.
const WIDESCREEN: i64 = 116508;

fn demo_scene() -> Scene {
    let mut scene = Scene::new();
    scene.add(Entity::new_sphere(Vec3::new(0, 0, -S), S / 2));
    scene.add(Entity::new_sphere(Vec3::new(0, -500 * S, 0), 499 * S + S / 2));
    scene
}

#[test]
fn camera_derives_height_from_aspect() {
    assert_eq!(Camera::new(WIDESCREEN, 4, 1).image_height, 2);
    assert_eq!(Camera::new(WIDESCREEN, 16, 1).image_height, 9);
    assert_eq!(Camera::new(2 * S, 10, 1).image_height, 5);
    // A height that would truncate to zero is lifted to one.
    assert_eq!(Camera::new(8 * S, 4, 1).image_height, 1);
}

#[test]
fn tiny_render_has_one_pixel_per_cell() {
    let camera = Camera::new(WIDESCREEN, 4, 1);
    let scene = demo_scene();
    let pixels = camera.render(&scene);
    assert_eq!(pixels.len(), 8);

    // The top row looks over both spheres into the sky: pure-blue-channel
    // background, and mirror-symmetric across the column axis.
    assert_eq!(pixels[0].b, 255);
    assert_eq!(pixels[1].b, 255);
    assert_eq!(pixels[2].b, 255);
    assert_eq!(pixels[3].b, 255);
    assert_eq!(pixels[0], pixels[3]);
    assert_eq!(pixels[1], pixels[2]);

    // The bottom row lands on the ground sphere: upward normals colour it
    // green-heavy, with the blue channel well below the sky's.
    for idx in 4..8 {
        assert_eq!(pixels[idx].g, 255);
        assert!(pixels[idx].b < 200, "pixel {} blue {}", idx, pixels[idx].b);
    }
}

#[test]
fn foreground_sphere_shows_at_image_center() {
    let camera = Camera::new(WIDESCREEN, 16, 1);
    let scene = demo_scene();
    let pixels = camera.render(&scene);
    assert_eq!(pixels.len(), 16 * 9);

    // The middle of the image looks straight at the small sphere: its
    // leftward normal drains the red channel well below the sky's.
    let center = pixels[4 * 16 + 7];
    let corner = pixels[0];
    assert_eq!(corner.b, 255);
    assert!(corner.r > 150, "corner red {}", corner.r);
    assert!(center.r < 140, "center red {}", center.r);
}

#[test]
fn single_sample_render_is_deterministic() {
    let camera = Camera::new(WIDESCREEN, 4, 1);
    let scene = demo_scene();
    assert_eq!(camera.render(&scene), camera.render(&scene));
}

#[test]
fn ray_color_matches_hit_and_background() {
    let scene = demo_scene();
    // Straight at the small sphere: the hit normal points back along z, so
    // the colour is (0.5, 0.5, 1.0).
    let head_on = get_ray_color(&Ray::new(Vec3::new(0, 0, 0), Vec3::new(0, 0, -S)), &scene);
    assert_eq!(head_on, Vec3::new(S / 2, S / 2, S));
    // Straight up: the background gradient at full tilt is the blue end.
    let up = get_ray_color(&Ray::new(Vec3::new(0, 0, 0), Vec3::new(0, 2 * S, -S)), &scene);
    assert!(up.z == S && up.x < S && up.y < S);
}

#[test]
fn multi_sampling_smooths_a_silhouette_edge() {
    // Pixel (row 2, col 3) sits just outside the sphere's silhouette, with
    // its footprint straddling the edge: one centered sample sees pure sky,
    // while 64 jittered samples mix sky and surface into something strictly
    // between.
    let scene = demo_scene();
    let edge = 2 * 10 + 3;

    let one = Camera::new(2 * S, 10, 1).render(&scene);
    assert_eq!(one.len(), 50);
    assert_eq!(one[edge].b, 255);

    let many = Camera::new(2 * S, 10, 64).render(&scene);
    assert_eq!(many.len(), 50);
    let b = many[edge].b;
    assert!(b < 255, "edge pixel stayed pure sky: {}", b);
    assert!(b > 200, "edge pixel nearly pure surface: {}", b);
}
