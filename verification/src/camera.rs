//! The camera: viewport derivation, per-pixel ray generation with optional
//! jitter, shading, multi-sample averaging, and the render loop.

use vstd::prelude::*;

use crate::color::{quantize_channel_s, write_color, Color, Rgb};
use crate::fixed::{
    div_i128, lemma_tdiv_bounds, lemma_tdiv_lower, lemma_tdiv_monotone, lemma_tdiv_ratio_bound,
    tdiv, SCALE,
};
use crate::geometry::{scene_hit_s, Entity, Scene};
use crate::math::{
    dot_full, lemma_norm_positive, lemma_norm_zero, unit_or_zero, unit_vector, vsub,
    Interval, Point3, SpecInterval, SpecVec3, Vec3,
};
use crate::ray::{ray_ok, Ray, SpecRay};

verus! {

/// A camera at the origin looking down negative `z`, with a derived viewport
/// and per-pixel world-space steps.
pub struct Camera {
    pub aspect_ratio: i64,
    pub image_width: i32,
    pub image_height: i32,
    pub center: Point3,
    pub pixel00: Point3,
    pub pixel_delta_u: Vec3,
    pub pixel_delta_v: Vec3,
    pub sample_per_pixel: i32,
}

/// Rows derived from columns and the aspect ratio, never below one.
pub open spec fn derived_height(aspect: int, width: int) -> int {
    let h = tdiv(width * (SCALE as int), aspect);
    if h < 1 {
        1
    } else {
        h
    }
}

/// The viewport's world-space width: its fixed height of two, widened by the
/// pixel grid's true aspect.
pub open spec fn viewport_width_fx(width: int, height: int) -> int {
    tdiv(2 * (SCALE as int) * width, height)
}

/// Horizontal world-space step from one pixel to the next.
pub open spec fn delta_u_fx(width: int, height: int) -> int {
    tdiv(viewport_width_fx(width, height), width)
}

/// Vertical world-space step from one pixel to the next; negative because
/// rows grow downward while world `y` grows upward.
pub open spec fn delta_v_fx(height: int) -> int {
    -tdiv(2 * (SCALE as int), height)
}

/// The `x` of the top-left pixel's center.
pub open spec fn pixel00_x_fx(width: int, height: int) -> int {
    -tdiv(viewport_width_fx(width, height), 2) + tdiv(delta_u_fx(width, height), 2)
}

/// The `y` of the top-left pixel's center.
pub open spec fn pixel00_y_fx(height: int) -> int {
    SCALE + tdiv(delta_v_fx(height), 2)
}

/// The ray through pixel `(col, row)`, jittered by `(ox, oy)` within the
/// pixel footprint: origin at the camera's center, direction to the sampled
/// viewport point.
pub open spec fn camera_ray_s(cam: Camera, col: int, row: int, ox: int, oy: int) -> SpecRay {
    let fu = col * (SCALE as int) + ox;
    let fv = row * (SCALE as int) + oy;
    let sample = SpecVec3 {
        x: cam.pixel00@.x + tdiv(fu * cam.pixel_delta_u@.x, SCALE as int) + tdiv(
            fv * cam.pixel_delta_v@.x,
            SCALE as int,
        ),
        y: cam.pixel00@.y + tdiv(fu * cam.pixel_delta_u@.y, SCALE as int) + tdiv(
            fv * cam.pixel_delta_v@.y,
            SCALE as int,
        ),
        z: cam.pixel00@.z + tdiv(fu * cam.pixel_delta_u@.z, SCALE as int) + tdiv(
            fv * cam.pixel_delta_v@.z,
            SCALE as int,
        ),
    };
    SpecRay { origin: cam.center@, direction: vsub(sample, cam.center@) }
}

/// The jitter a sample may carry: none at one sample per pixel, else up to
/// half a pixel each way.
pub open spec fn jitter_ok(cam: Camera, ox: int, oy: int) -> bool {
    if cam.sample_per_pixel == 1 {
        ox == 0 && oy == 0
    } else {
        -32768 <= ox < 32768 && -32768 <= oy < 32768
    }
}

/// The colour of a ray: the hit's normal mapped into colour space, or the
/// sky gradient between white and blue by the ray's upward tilt.
pub open spec fn ray_color_s(ray: SpecRay, entities: Seq<Entity>) -> SpecVec3 {
    match scene_hit_s(entities, ray, SpecInterval { min: 0, max: i64::MAX as int }) {
        Some(h) => SpecVec3 {
            x: tdiv(h.n.x + SCALE, 2),
            y: tdiv(h.n.y + SCALE, 2),
            z: tdiv(h.n.z + SCALE, 2),
        },
        None => {
            let u = unit_or_zero(ray.direction);
            let k = tdiv(u.y + SCALE, 2);
            SpecVec3 {
                x: tdiv((SCALE - k) * (SCALE as int) + k * 32768, SCALE as int),
                y: tdiv((SCALE - k) * (SCALE as int) + k * 45875, SCALE as int),
                z: tdiv((SCALE - k) * (SCALE as int) + k * (SCALE as int), SCALE as int),
            }
        },
    }
}

/// The pixel produced without jitter: the single-sample model of a pixel.
pub open spec fn render_pixel_s(cam: Camera, entities: Seq<Entity>, col: int, row: int) -> Rgb {
    let c = ray_color_s(camera_ray_s(cam, col, row, 0, 0), entities);
    Rgb {
        r: quantize_channel_s(c.x) as u8,
        g: quantize_channel_s(c.y) as u8,
        b: quantize_channel_s(c.z) as u8,
    }
}

/// A colour one sample of pixel `(col, row)` can produce: the shade of a ray
/// through the pixel with some admissible jitter.
pub open spec fn sample_color_ok(
    cam: Camera,
    entities: Seq<Entity>,
    col: int,
    row: int,
    c: SpecVec3,
) -> bool {
    exists|ox: int, oy: int|
        jitter_ok(cam, ox, oy) && c == ray_color_s(
            #[trigger] camera_ray_s(cam, col, row, ox, oy),
            entities,
        )
}

/// Componentwise sum of a sequence of colours.
pub open spec fn color_sum(cs: Seq<SpecVec3>) -> SpecVec3
    decreases cs.len(),
{
    if cs.len() == 0 {
        SpecVec3 { x: 0, y: 0, z: 0 }
    } else {
        let p = color_sum(cs.drop_last());
        SpecVec3 { x: p.x + cs.last().x, y: p.y + cs.last().y, z: p.z + cs.last().z }
    }
}

/// The pixel is the quantized average of one admissible sample colour per
/// sample: what multi-sampling may produce, whatever the jitter drew.
pub open spec fn pixel_ok(
    cam: Camera,
    entities: Seq<Entity>,
    col: int,
    row: int,
    rgb: Rgb,
) -> bool {
    exists|cs: Seq<SpecVec3>|
        #![trigger color_sum(cs)]
        {
            &&& cs.len() == cam.sample_per_pixel
            &&& forall|j: int|
                0 <= j < cs.len() ==> sample_color_ok(cam, entities, col, row, #[trigger] cs[j])
            &&& rgb.r == quantize_channel_s(tdiv(color_sum(cs).x, cam.sample_per_pixel as int))
            &&& rgb.g == quantize_channel_s(tdiv(color_sum(cs).y, cam.sample_per_pixel as int))
            &&& rgb.b == quantize_channel_s(tdiv(color_sum(cs).z, cam.sample_per_pixel as int))
        }
}

impl Camera {
    /// The shape every constructed camera has: bounded parameters, the eye at
    /// the origin, axis-aligned pixel steps, and products small enough that
    /// every generated ray stays within the world bound.
    pub open spec fn wf(self) -> bool {
        &&& 1 <= self.image_width <= 8192
        &&& 1 <= self.image_height <= 0x8_0000
        &&& 8192 <= self.aspect_ratio <= 524288
        &&& 1 <= self.sample_per_pixel <= 65536
        &&& self.center@ == (SpecVec3 { x: 0, y: 0, z: 0 })
        &&& self.pixel_delta_u@.y == 0
        &&& self.pixel_delta_u@.z == 0
        &&& self.pixel_delta_v@.x == 0
        &&& self.pixel_delta_v@.z == 0
        &&& 0 <= self.pixel_delta_u@.x <= 0x80_0000
        &&& -2 * SCALE <= self.pixel_delta_v@.y <= 0
        &&& -0x100_0000 <= self.pixel00@.x <= 0
        &&& 0 <= self.pixel00@.y <= 2 * SCALE
        &&& self.pixel00@.z == -SCALE
        &&& (self.image_width as int) * self.pixel_delta_u@.x <= 0x100_0000
        &&& (self.image_height as int) * self.pixel_delta_v@.y >= -2 * (SCALE as int)
    }

    /// Derives the image and viewport geometry from the aspect ratio, the
    /// column count and the per-pixel sample count.
    pub fn new(aspect_ratio: i64, image_width: i32, sample_per_pixel: i32) -> (c: Camera)
        requires
            1 <= image_width <= 8192,
            8192 <= aspect_ratio <= 524288,
            1 <= sample_per_pixel <= 65536,
        ensures
            c.wf(),
            c.aspect_ratio == aspect_ratio,
            c.image_width == image_width,
            c.sample_per_pixel == sample_per_pixel,
            c.image_height == derived_height(aspect_ratio as int, image_width as int),
            c.center@ == (SpecVec3 { x: 0, y: 0, z: 0 }),
            c.pixel_delta_u@.x == delta_u_fx(image_width as int, c.image_height as int),
            c.pixel_delta_v@.y == delta_v_fx(c.image_height as int),
            c.pixel00@.x == pixel00_x_fx(image_width as int, c.image_height as int),
            c.pixel00@.y == pixel00_y_fx(c.image_height as int),
    {
        let w64 = image_width as i64;
        proof {
            assert((aspect_ratio as int) * (8 * w64) >= 8192 * (8 * w64)) by (nonlinear_arith)
                requires
                    aspect_ratio >= 8192,
                    w64 >= 1,
            ;
            lemma_tdiv_ratio_bound(w64 * SCALE as int, aspect_ratio as int, 8 * w64 as int);
            lemma_tdiv_bounds(w64 * SCALE as int, aspect_ratio as int);
        }
        let ht = (w64 * SCALE) / aspect_ratio;
        let hh: i64 = if ht < 1 {
            1
        } else {
            ht
        };
        let image_height = hh as i32;
        // The viewport width stays within 2^23 scale units: with the aspect
        // ratio capped at eight, the height is never less than an eighth of
        // the width, so twice their ratio stays within a few dozen units.
        proof {
            if w64 >= 8 {
                let x = w64 * (SCALE as int);
                assert(x == 65536 * (w64 as int));
                vstd::arithmetic::div_mod::lemma_div_multiples_vanish(w64 as int, 65536);
                assert(x / 65536 == w64 as int);
                vstd::arithmetic::div_mod::lemma_div_denominator(x, 65536, 8);
                assert(x / 524288 == (w64 as int) / 8);
                vstd::arithmetic::div_mod::lemma_div_is_ordered_by_denominator(
                    x,
                    aspect_ratio as int,
                    524288,
                );
                assert(x / (aspect_ratio as int) >= (w64 as int) / 8);
                assert(ht == x / (aspect_ratio as int));
                assert(hh >= (w64 as int) / 8);
                lemma_tdiv_lower(w64 as int, 8);
                assert(tdiv(w64 as int, 8) == (w64 as int) / 8);
                assert(8 * ((w64 as int) / 8) >= w64 - 7);
                assert(64 * (hh as int) >= w64);
                assert(hh * 0x80_0000 >= 2 * (SCALE as int) * w64) by (nonlinear_arith)
                    requires
                        64 * (hh as int) >= w64,
                        SCALE == 65536,
                ;
            } else {
                assert(hh * 0x80_0000 >= 2 * (SCALE as int) * w64) by (nonlinear_arith)
                    requires
                        hh >= 1,
                        1 <= w64 <= 7,
                ;
            }
            lemma_tdiv_ratio_bound(2 * (SCALE as int) * w64, hh as int, 0x80_0000);
            lemma_tdiv_bounds(2 * (SCALE as int) * w64, hh as int);
        }
        let vw = (2 * SCALE * w64) / hh;
        proof {
            lemma_tdiv_bounds(vw as int, w64 as int);
            lemma_tdiv_lower(vw as int, w64 as int);
        }
        let dux = vw / w64;
        proof {
            lemma_tdiv_bounds(2 * SCALE as int, hh as int);
            lemma_tdiv_lower(2 * SCALE as int, hh as int);
            lemma_tdiv_ratio_bound(2 * SCALE as int, hh as int, 2 * SCALE as int);
        }
        let dvy_mag = (2 * SCALE) / hh;
        let dvy = -dvy_mag;
        proof {
            assert(hh * (dvy as int) == -(hh * (dvy_mag as int))) by (nonlinear_arith)
                requires
                    dvy == -dvy_mag,
            ;
        }
        proof {
            lemma_tdiv_monotone(dux as int, vw as int, 2);
            lemma_tdiv_bounds(vw as int, 2);
            lemma_tdiv_bounds(dux as int, 2);
            lemma_tdiv_ratio_bound(dvy_mag as int, 2, SCALE as int);
            lemma_tdiv_bounds(dvy_mag as int, 2);
        }
        let p00x = -(vw / 2) + dux / 2;
        let p00y = SCALE - dvy_mag / 2;
        proof {
            assert(tdiv(dvy as int, 2) == -tdiv(dvy_mag as int, 2));
            assert(p00y == pixel00_y_fx(hh as int));
        }
        Camera {
            aspect_ratio,
            image_width,
            image_height,
            center: Vec3 { x: 0, y: 0, z: 0 },
            pixel00: Vec3 { x: p00x, y: p00y, z: -SCALE },
            pixel_delta_u: Vec3 { x: dux, y: 0, z: 0 },
            pixel_delta_v: Vec3 { x: 0, y: dvy, z: 0 },
            sample_per_pixel,
        }
    }

    /// The ray for one sample of pixel `(idx_u, idx_v)`: jittered within the
    /// pixel footprint, except that a single sample per pixel goes straight
    /// through the pixel's center.
    pub fn get_random_ray(&self, idx_u: i32, idx_v: i32) -> (r: Ray)
        requires
            self.wf(),
            0 <= idx_u < self.image_width,
            0 <= idx_v < self.image_height,
        ensures
            ray_ok(r@),
            exists|ox: int, oy: int|
                jitter_ok(*self, ox, oy) && r@ == #[trigger] camera_ray_s(
                    *self,
                    idx_u as int,
                    idx_v as int,
                    ox,
                    oy,
                ),
            self.sample_per_pixel == 1 ==> r@ == camera_ray_s(
                *self,
                idx_u as int,
                idx_v as int,
                0,
                0,
            ),
    {
        let (ox, oy): (i64, i64) = if self.sample_per_pixel == 1 {
            (0, 0)
        } else {
            (crate::math::random() - 32768, crate::math::random() - 32768)
        };
        proof {
            assert(0 <= idx_u < 8192);
            assert(0 <= idx_v < 0x8_0000);
        }
        let fu: i128 = (idx_u as i128) * 65536 + (ox as i128);
        let fv: i128 = (idx_v as i128) * 65536 + (oy as i128);
        let dux = self.pixel_delta_u.x as i128;
        let dvy = self.pixel_delta_v.y as i128;
        proof {
            assert(-SCALE <= fu <= (self.image_width as int) * (SCALE as int)) by (nonlinear_arith)
                requires
                    0 <= idx_u < self.image_width,
                    -32768 <= ox <= 32768,
                    fu == (idx_u as int) * (SCALE as int) + ox,
            ;
            assert(-SCALE <= fv <= (self.image_height as int) * (SCALE as int))
                by (nonlinear_arith)
                requires
                    0 <= idx_v < self.image_height,
                    -32768 <= oy <= 32768,
                    fv == (idx_v as int) * (SCALE as int) + oy,
            ;
            assert(-(SCALE as int) * 0x100_0000 <= fu * dux <= (SCALE as int) * 0x100_0000)
                by (nonlinear_arith)
                requires
                    -SCALE <= fu <= (self.image_width as int) * (SCALE as int),
                    0 <= dux <= 0x80_0000,
                    (self.image_width as int) * (dux as int) <= 0x100_0000,
            ;
            assert(-(SCALE as int) * (2 * SCALE as int) <= fv * dvy <= (SCALE as int) * (2
                * SCALE as int)) by (nonlinear_arith)
                requires
                    -SCALE <= fv <= (self.image_height as int) * (SCALE as int),
                    -2 * SCALE <= dvy <= 0,
                    (self.image_height as int) * (dvy as int) >= -2 * (SCALE as int),
            ;
            lemma_tdiv_ratio_bound(fu as int * dux as int, SCALE as int, 0x100_0000);
            lemma_tdiv_ratio_bound(fv as int * dvy as int, SCALE as int, 2 * SCALE as int);
            assert(fu * 0 == 0) by (nonlinear_arith);
            assert(fv * 0 == 0) by (nonlinear_arith);
            vstd::arithmetic::div_mod::lemma_div_of0(SCALE as int);
        }
        let tux = div_i128(fu * dux, SCALE as i128);
        let tvy = div_i128(fv * dvy, SCALE as i128);
        let sx = (self.pixel00.x as i128) + tux;
        let sy = (self.pixel00.y as i128) + tvy;
        let dir = Vec3 {
            x: (sx - (self.center.x as i128)) as i64,
            y: (sy - (self.center.y as i128)) as i64,
            z: ((self.pixel00.z as i128) - (self.center.z as i128)) as i64,
        };
        let r = Ray { origin: self.center, direction: dir };
        proof {
            assert(dot_full(r@.direction, r@.direction) >= (SCALE as int) * (SCALE as int))
                by (nonlinear_arith)
                requires
                    r@.direction.z == -(SCALE as int),
                    dot_full(r@.direction, r@.direction) == r@.direction.x * r@.direction.x
                        + r@.direction.y * r@.direction.y + r@.direction.z * r@.direction.z,
            ;
            assert(r@ == camera_ray_s(*self, idx_u as int, idx_v as int, ox as int, oy as int));
            assert(jitter_ok(*self, ox as int, oy as int) && r@ == camera_ray_s(
                *self,
                idx_u as int,
                idx_v as int,
                ox as int,
                oy as int,
            ));
        }
        r
    }

    /// Renders the scene: row-major, top row first, each pixel the average of
    /// `sample_per_pixel` shaded rays, quantized. With a single sample per
    /// pixel the whole image is pinned exactly by the model.
    pub fn render(&self, scene: &Scene) -> (pixels: Vec<Rgb>)
        requires
            self.wf(),
            scene.wf(),
        ensures
            pixels@.len() == (self.image_width as int) * (self.image_height as int),
            forall|k: int|
                0 <= k < pixels@.len() ==> pixel_ok(
                    *self,
                    scene@,
                    k % (self.image_width as int),
                    k / (self.image_width as int),
                    #[trigger] pixels@[k],
                ),
            self.sample_per_pixel == 1 ==> forall|k: int|
                0 <= k < pixels@.len() ==> pixels@[k] == render_pixel_s(
                    *self,
                    scene@,
                    k % (self.image_width as int),
                    k / (self.image_width as int),
                ),
    {
        let w = self.image_width;
        let h = self.image_height;
        let spp = self.sample_per_pixel;
        let mut pixels: Vec<Rgb> = Vec::new();
        for row in 0..h
            invariant
                self.wf(),
                scene.wf(),
                w == self.image_width,
                h == self.image_height,
                spp == self.sample_per_pixel,
                pixels@.len() == row * w,
                forall|k: int|
                    0 <= k < pixels@.len() ==> pixel_ok(
                        *self,
                        scene@,
                        k % (w as int),
                        k / (w as int),
                        #[trigger] pixels@[k],
                    ),
                spp == 1 ==> forall|k: int|
                    0 <= k < pixels@.len() ==> pixels@[k] == render_pixel_s(
                        *self,
                        scene@,
                        k % (w as int),
                        k / (w as int),
                    ),
        {
            for col in 0..w
                invariant
                    self.wf(),
                    scene.wf(),
                    w == self.image_width,
                    h == self.image_height,
                    spp == self.sample_per_pixel,
                    0 <= row < h,
                    pixels@.len() == row * w + col,
                    forall|k: int|
                        0 <= k < pixels@.len() ==> pixel_ok(
                            *self,
                            scene@,
                            k % (w as int),
                            k / (w as int),
                            #[trigger] pixels@[k],
                        ),
                    spp == 1 ==> forall|k: int|
                        0 <= k < pixels@.len() ==> pixels@[k] == render_pixel_s(
                            *self,
                            scene@,
                            k % (w as int),
                            k / (w as int),
                        ),
            {
                let rgb = self.render_pixel(scene, col, row);
                proof {
                    vstd::arithmetic::div_mod::lemma_fundamental_div_mod_converse(
                        row as int * w as int + col as int,
                        w as int,
                        row as int,
                        col as int,
                    );
                }
                pixels.push(rgb);
            }
            proof {
                assert((row as int + 1) * (w as int) == row as int * (w as int) + (w as int))
                    by (nonlinear_arith);
            }
        }
        proof {
            assert((h as int) * (w as int) == (w as int) * (h as int)) by (nonlinear_arith);
        }
        pixels
    }

    /// One pixel: `sample_per_pixel` shaded rays accumulated and averaged,
    /// then quantized.
    fn render_pixel(&self, scene: &Scene, col: i32, row: i32) -> (rgb: Rgb)
        requires
            self.wf(),
            scene.wf(),
            0 <= col < self.image_width,
            0 <= row < self.image_height,
        ensures
            pixel_ok(*self, scene@, col as int, row as int, rgb),
            self.sample_per_pixel == 1 ==> rgb == render_pixel_s(
                *self,
                scene@,
                col as int,
                row as int,
            ),
    {
        let spp = self.sample_per_pixel;
        let mut acc = Vec3 { x: 0, y: 0, z: 0 };
        let mut s: i32 = 0;
        let ghost mut colors: Seq<SpecVec3> = Seq::empty();
        while s < spp
            invariant
                self.wf(),
                scene.wf(),
                0 <= col < self.image_width,
                0 <= row < self.image_height,
                spp == self.sample_per_pixel,
                0 <= s <= spp,
                0 <= acc.x <= s * SCALE,
                0 <= acc.y <= s * SCALE,
                0 <= acc.z <= s * SCALE,
                colors.len() == s,
                acc.x == color_sum(colors).x,
                acc.y == color_sum(colors).y,
                acc.z == color_sum(colors).z,
                forall|j: int|
                    0 <= j < colors.len() ==> sample_color_ok(
                        *self,
                        scene@,
                        col as int,
                        row as int,
                        #[trigger] colors[j],
                    ),
                spp == 1 && s == 1 ==> acc@ == ray_color_s(
                    camera_ray_s(*self, col as int, row as int, 0, 0),
                    scene@,
                ),
            decreases spp - s,
        {
            let sample_ray = self.get_random_ray(col, row);
            let c = get_ray_color(&sample_ray, scene);
            proof {
                let (ox, oy) = choose|ox: int, oy: int|
                    jitter_ok(*self, ox, oy) && sample_ray@ == #[trigger] camera_ray_s(
                        *self,
                        col as int,
                        row as int,
                        ox,
                        oy,
                    );
                assert(sample_color_ok(*self, scene@, col as int, row as int, c@));
                let cs0 = colors;
                colors = colors.push(c@);
                assert(colors.drop_last() =~= cs0);
                assert(forall|j: int| 0 <= j < cs0.len() ==> colors[j] == #[trigger] cs0[j]);
            }
            acc = acc.add(c);
            s = s + 1;
        }
        proof {
            lemma_tdiv_ratio_bound(acc.x as int, spp as int, SCALE as int);
            lemma_tdiv_ratio_bound(acc.y as int, spp as int, SCALE as int);
            lemma_tdiv_ratio_bound(acc.z as int, spp as int, SCALE as int);
            vstd::arithmetic::div_mod::lemma_div_basics(acc.x as int);
            vstd::arithmetic::div_mod::lemma_div_basics(acc.y as int);
            vstd::arithmetic::div_mod::lemma_div_basics(acc.z as int);
        }
        let spp64 = spp as i64;
        let avg = Vec3 { x: acc.x / spp64, y: acc.y / spp64, z: acc.z / spp64 };
        let rgb = write_color(avg);
        proof {
            assert(colors.len() == self.sample_per_pixel && rgb.r == quantize_channel_s(
                tdiv(color_sum(colors).x, self.sample_per_pixel as int),
            ) && rgb.g == quantize_channel_s(
                tdiv(color_sum(colors).y, self.sample_per_pixel as int),
            ) && rgb.b == quantize_channel_s(
                tdiv(color_sum(colors).z, self.sample_per_pixel as int),
            ));
        }
        rgb
    }
}

/// The colour of one ray against the scene: the nearest hit's normal mapped
/// into colour space, else the sky gradient. Channels stay in `[0, 1]`.
pub fn get_ray_color(ray: &Ray, scene: &Scene) -> (c: Color)
    requires
        ray_ok(ray@),
        scene.wf(),
    ensures
        c@ == ray_color_s(ray@, scene@),
        0 <= c.x <= SCALE,
        0 <= c.y <= SCALE,
        0 <= c.z <= SCALE,
{
    let maybe_hit = scene.hit(ray, Interval::new(0, i64::MAX));
    if let Some(hit) = maybe_hit {
        proof {
            lemma_tdiv_ratio_bound(hit.n.x + SCALE as int, 2, SCALE as int);
            lemma_tdiv_ratio_bound(hit.n.y + SCALE as int, 2, SCALE as int);
            lemma_tdiv_ratio_bound(hit.n.z + SCALE as int, 2, SCALE as int);
            lemma_tdiv_bounds(hit.n.x + SCALE as int, 2);
            lemma_tdiv_bounds(hit.n.y + SCALE as int, 2);
            lemma_tdiv_bounds(hit.n.z + SCALE as int, 2);
        }
        return Vec3 {
            x: (hit.n.x + SCALE) / 2,
            y: (hit.n.y + SCALE) / 2,
            z: (hit.n.z + SCALE) / 2,
        };
    }
    proof {
        if ray.direction.x == 0 && ray.direction.y == 0 && ray.direction.z == 0 {
            lemma_norm_zero(ray@.direction);
        }
        lemma_norm_positive(ray@.direction);
    }
    let u = unit_vector(ray.direction);
    proof {
        lemma_tdiv_bounds(u.y + SCALE as int, 2);
        lemma_tdiv_ratio_bound(u.y + SCALE as int, 2, SCALE as int);
    }
    let k = (u.y + SCALE) / 2;
    proof {
        lemma_tdiv_bounds((SCALE - k as int) * (SCALE as int) + k as int * 32768, SCALE as int);
        lemma_tdiv_ratio_bound(
            (SCALE - k as int) * (SCALE as int) + k as int * 32768,
            SCALE as int,
            SCALE as int,
        );
        lemma_tdiv_bounds((SCALE - k as int) * (SCALE as int) + k as int * 45875, SCALE as int);
        lemma_tdiv_ratio_bound(
            (SCALE - k as int) * (SCALE as int) + k as int * 45875,
            SCALE as int,
            SCALE as int,
        );
        lemma_tdiv_bounds(
            (SCALE - k as int) * (SCALE as int) + k as int * (SCALE as int),
            SCALE as int,
        );
        lemma_tdiv_ratio_bound(
            (SCALE - k as int) * (SCALE as int) + k as int * (SCALE as int),
            SCALE as int,
            SCALE as int,
        );
    }
    let cx = ((SCALE - k) * SCALE + k * 32768) / 65536;
    let cy = ((SCALE - k) * SCALE + k * 45875) / 65536;
    let cz = ((SCALE - k) * SCALE + k * SCALE) / 65536;
    Vec3 { x: cx, y: cy, z: cz }
}

} // verus!
