//! The camera: the size of the image, the steps of a light path, and the
//! bytes of the finished picture.
//!
//! A path starts with a ray through a pixel and `depth` bounces to spend.
//! `ray_color` decides what becomes of the ray: the path is spent, the ray
//! leaves the scene, or it strikes a surface. `bounce` decides what becomes
//! of a ray that struck: it is swallowed, or goes on with one bounce less.
//! The caller finds the scattered ray's own color by the same two steps and
//! multiplies it by the attenuation; since every step that goes on spends a
//! bounce, a path has at most `depth` of them.
#![allow(non_camel_case_types)]

use vstd::prelude::*;
use crate::hittables::{
    hit_record, hittable, hittable_list, hittable_obj, incidence, nearest_among, object_hit,
};
use crate::materials::{black, material_trait};
use crate::maths::{color, interval, point3, ray, vec3};
use crate::scalar::scalar;

verus! {

/// The bits of 0.001: hits nearer than this to a ray's origin are ignored,
/// so that a scattered ray does not strike the surface it leaves.
pub const NEAREST_HIT: u64 = 0x3f50_624d_d2f1_a9fc;

/// The bits of 0.999, the greatest brightness that is kept.
pub const BRIGHTEST: u64 = 0x3fef_f7ce_d916_872b;

/// The alpha byte of every pixel: opaque.
pub const OPAQUE: u8 = 255;

/// The bits of 2.0, the height of the viewport in world units.
pub const VIEWPORT_HEIGHT: u64 = 0x4000_0000_0000_0000;

/// The bits of 1.0, the distance from the eye to the viewport.
pub const FOCAL_LENGTH: u64 = 0x3ff0_0000_0000_0000;

/// The bits of 0.5, the red of the sky.
pub const SKY_RED: u64 = 0x3fe0_0000_0000_0000;

/// The bits of 0.7, the green of the sky; its blue is 1.0.
pub const SKY_GREEN: u64 = 0x3fe6_6666_6666_6666;

/// The viewport, laid out once for an image of `image_width` by
/// `image_height` pixels: the eye, the center of the top left pixel, and the
/// steps from one pixel to the next along a row and down a column.
#[derive(Clone, Copy, Debug, PartialEq, Eq, Structural)]
pub struct camera {
    pub image_width: u32,
    pub image_height: u32,
    pub center: point3,
    pub pixel00_loc: point3,
    pub pixel_delta_u: vec3,
    pub pixel_delta_v: vec3,
}

/// What becomes of a path at one step.
#[derive(Clone, Copy, Debug, PartialEq, Eq, Structural)]
pub enum path_step {
    /// The path ends with this color.
    finished(color),
    /// The ray left the scene: its color is the background's along its
    /// direction.
    escaped,
    /// The ray struck a surface at `rec`; a ray scattered there has `depth`
    /// bounces to spend.
    struck { rec: hit_record, depth: u32 },
    /// The path goes on along `scattered` with `depth` bounces to spend;
    /// its color is that ray's color times `attenuation`, channel by
    /// channel.
    follow { attenuation: color, scattered: ray, depth: u32 },
}

/// The parameters at which a hit counts: above 0.001, without upper limit.
pub open spec fn visible_range() -> interval {
    interval { min: scalar { bits: NEAREST_HIT }, max: scalar { bits: 0x7ff0_0000_0000_0000 } }
}

/// The step that `ray_color` takes.
pub open spec fn spec_ray_color(
    depth: u32,
    world: hittable_list,
    found: Vec<incidence>,
) -> path_step {
    if depth == 0 {
        path_step::finished(black())
    } else {
        match world.spec_hit(&visible_range(), &found) {
            Some(rec) => path_step::struck { rec, depth: (depth - 1) as u32 },
            None => path_step::escaped,
        }
    }
}

/// The byte of one channel: the brightness clamped to `0..=0.999`, times
/// 256, cut to a whole number.
pub open spec fn channel_byte(c: scalar) -> u8 {
    (interval { min: scalar { bits: 0 }, max: scalar { bits: BRIGHTEST } }).spec_clamp(
        c,
    ).quantized() as u8
}

/// The four bytes of a pixel: red, green, blue, and opaque alpha.
pub open spec fn pixel_bytes(c: color) -> Seq<u8> {
    seq![channel_byte(c.x), channel_byte(c.y), channel_byte(c.z), OPAQUE]
}

/// The bytes of a picture: those of its pixels, one pixel after the other.
pub open spec fn image_bytes(pixels: Seq<color>) -> Seq<u8> {
    Seq::new((4 * pixels.len()) as nat, |k: int| pixel_bytes(pixels[k / 4])[k % 4])
}

/// The color of the background where a ray points straight down: white.
pub fn white() -> (c: color)
    ensures
        c == (vec3 {
            x: scalar { bits: 0x3ff0_0000_0000_0000 },
            y: scalar { bits: 0x3ff0_0000_0000_0000 },
            z: scalar { bits: 0x3ff0_0000_0000_0000 },
        }),
{
    vec3::identity()
}

/// The color of the background where a ray points straight up: sky blue,
/// `(0.5, 0.7, 1.0)`. In between, the background blends the two by the
/// height of the ray's unit direction.
pub fn sky_blue() -> (c: color)
    ensures
        c == (vec3 {
            x: scalar { bits: SKY_RED },
            y: scalar { bits: SKY_GREEN },
            z: scalar { bits: 0x3ff0_0000_0000_0000 },
        }),
{
    vec3::new(scalar::from_bits(SKY_RED), scalar::from_bits(SKY_GREEN), scalar::one())
}

impl camera {
    /// The number of rows of an image, given its width divided by its
    /// aspect ratio: the nearest whole number, and at least one.
    pub open spec fn spec_image_height(quotient: scalar) -> int {
        if quotient.rounded_u32() < 1 {
            1
        } else {
            quotient.rounded_u32()
        }
    }

    /// The number of rows: see `spec_image_height`.
    pub fn image_height(quotient: scalar) -> (rows: u32)
        ensures
            rows == Self::spec_image_height(quotient),
            rows >= 1,
    {
        let rows: u32 = quotient.round_to_u32();
        if rows < 1 {
            1
        } else {
            rows
        }
    }

    /// The camera with the given image size and viewport.
    pub fn new(
        image_width: u32,
        image_height: u32,
        center: point3,
        pixel00_loc: point3,
        pixel_delta_u: vec3,
        pixel_delta_v: vec3,
    ) -> (cam: camera)
        ensures
            cam == (camera {
                image_width,
                image_height,
                center,
                pixel00_loc,
                pixel_delta_u,
                pixel_delta_v,
            }),
    {
        camera { image_width, image_height, center, pixel00_loc, pixel_delta_u, pixel_delta_v }
    }

    /// The first step of a path: what becomes of a ray with `depth` bounces
    /// to spend, given what was found of the ray and each object of `world`.
    /// With no bounce left the path ends in black, whatever the scene; a
    /// ray that hits nothing escapes; a ray that hits is struck at the
    /// nearest hit, and what is scattered there has one bounce less.
    pub fn ray_color(&self, depth: u32, world: &hittable_list, found: &Vec<incidence>) -> (step:
        path_step)
        ensures
            step == spec_ray_color(depth, *world, *found),
            depth == 0 ==> step == path_step::finished(black()),
            step matches path_step::struck { depth: left, .. } ==> left < depth,
    {
        let mut rec = hit_record::null();
        if depth == 0 {
            return path_step::finished(color::zero());
        }
        let range = interval::new(scalar::from_bits(NEAREST_HIT), scalar::infinity());
        if world.hit(&range, found, &mut rec) {
            path_step::struck { rec, depth: depth - 1 }
        } else {
            path_step::escaped
        }
    }

    /// The second step of a path: what becomes of a ray that struck at
    /// `rec`, given the direction `proposed` by the material's model
    /// there. A ray that the material swallows ends the path in black;
    /// one that it scatters is followed.
    pub fn bounce(&self, rec: &hit_record, proposed: &vec3, depth: u32) -> (step: path_step)
        ensures
            step == match rec.mat.spec_scatter(rec, proposed) {
                Some((attenuation, scattered)) => path_step::follow {
                    attenuation,
                    scattered,
                    depth,
                },
                None => path_step::finished(black()),
            },
    {
        let mut scattered = ray::null();
        let mut attenuation = color::zero();
        if rec.mat.scatter(rec, proposed, &mut attenuation, &mut scattered) {
            path_step::follow { attenuation, scattered, depth }
        } else {
            path_step::finished(color::zero())
        }
    }

    /// Appends the four bytes of a pixel to `image_data`. The channels of
    /// `pixel_color` are the square roots of the mean brightness of the
    /// pixel's samples.
    pub fn write_color(&self, pixel_color: color, image_data: &mut Vec<u8>)
        ensures
            final(image_data)@ == old(image_data)@ + pixel_bytes(pixel_color),
    {
        let intensity = interval::new(scalar::zero(), scalar::from_bits(BRIGHTEST));
        let ir: u8 = intensity.clamp(pixel_color.x()).quantize();
        let ig: u8 = intensity.clamp(pixel_color.y()).quantize();
        let ib: u8 = intensity.clamp(pixel_color.z()).quantize();
        image_data.push(ir);
        image_data.push(ig);
        image_data.push(ib);
        image_data.push(OPAQUE);
        proof {
            assert(image_data@ =~= old(image_data)@ + pixel_bytes(pixel_color));
        }
    }

    /// The picture as bytes: four for each pixel, the rows from top to
    /// bottom and each row from left to right, as the pixels are given.
    /// `None` unless there is one color for each pixel of the image.
    pub fn render(&self, pixels: &Vec<color>) -> (image: Option<Vec<u8>>)
        ensures
            image.is_some() == (pixels@.len() == self.image_width * self.image_height),
            image matches Some(data) ==> data@ == image_bytes(pixels@) && data@.len() == 4 * (
            self.image_width * self.image_height),
    {
        assert(self.image_width * self.image_height <= 0xffff_ffff * 0xffff_ffff)
            by (nonlinear_arith)
            requires
                self.image_width <= 0xffff_ffff,
                self.image_height <= 0xffff_ffff,
        ;
        let count: u64 = (self.image_width as u64) * (self.image_height as u64);
        if pixels.len() as u64 != count {
            return None;
        }
        let mut image_data: Vec<u8> = Vec::new();
        let mut k: usize = 0;
        while k < pixels.len()
            invariant
                k <= pixels@.len(),
                pixels@.len() == self.image_width * self.image_height,
                image_data@ == image_bytes(pixels@.take(k as int)),
            decreases pixels@.len() - k,
        {
            self.write_color(pixels[k], &mut image_data);
            proof {
                lemma_image_bytes_push(pixels@.take(k as int), pixels@[k as int]);
                assert(pixels@.take(k as int).push(pixels@[k as int]) =~= pixels@.take(k + 1));
            }
            k += 1;
        }
        proof {
            assert(pixels@.take(pixels@.len() as int) =~= pixels@);
        }
        Some(image_data)
    }
}

/// The bytes of a picture with one more pixel are the bytes of the picture
/// and then the bytes of that pixel.
pub proof fn lemma_image_bytes_push(pixels: Seq<color>, c: color)
    ensures
        image_bytes(pixels.push(c)) == image_bytes(pixels) + pixel_bytes(c),
{
    assert(image_bytes(pixels.push(c)) =~= image_bytes(pixels) + pixel_bytes(c));
}

/// Where a pixel's bytes stand: pixel `k` of a picture has its red, green
/// and blue bytes at `4k`, `4k + 1` and `4k + 2`, and 255 at `4k + 3`.
pub proof fn lemma_image_bytes_at(pixels: Seq<color>, k: int)
    requires
        0 <= k < pixels.len(),
    ensures
        image_bytes(pixels).len() == 4 * pixels.len(),
        image_bytes(pixels)[4 * k] == channel_byte(pixels[k].x),
        image_bytes(pixels)[4 * k + 1] == channel_byte(pixels[k].y),
        image_bytes(pixels)[4 * k + 2] == channel_byte(pixels[k].z),
        image_bytes(pixels)[4 * k + 3] == OPAQUE,
{
}

/// The picture is laid out row by row from the top, each row from the left:
/// in an image of `width` columns, the pixel in column `i` of row `j` has
/// its four bytes from `4 * (j * width + i)` on.
pub proof fn lemma_image_bytes_row_major(pixels: Seq<color>, width: int, height: int, i: int, j: int)
    requires
        pixels.len() == width * height,
        0 <= i < width,
        0 <= j < height,
    ensures
        0 <= j * width + i < pixels.len(),
        4 * (j * width + i) + 3 < image_bytes(pixels).len(),
        image_bytes(pixels).subrange(4 * (j * width + i), 4 * (j * width + i) + 4) == pixel_bytes(
            pixels[j * width + i],
        ),
{
    assert(0 <= j * width + i < width * height) by (nonlinear_arith)
        requires
            0 <= i < width,
            0 <= j < height,
    ;
    let k = j * width + i;
    lemma_image_bytes_at(pixels, k);
    assert(image_bytes(pixels).subrange(4 * k, 4 * k + 4) =~= pixel_bytes(pixels[k]));
}

/// A scan in which no object alone is hit finds nothing.
pub proof fn lemma_nothing_hit(
    objects: Seq<hittable_obj>,
    found: Seq<incidence>,
    ray_t: interval,
    n: nat,
)
    requires
        forall|i: int| 0 <= i < n ==> (#[trigger] object_hit(objects, found, i, ray_t)).is_none(),
    ensures
        nearest_among(objects, found, ray_t, n).is_none(),
    decreases n,
{
    if n > 0 {
        lemma_nothing_hit(objects, found, ray_t, (n - 1) as nat);
        assert(interval { min: ray_t.min, max: ray_t.max } == ray_t);
        assert(object_hit(objects, found, n - 1, ray_t).is_none());
    }
}

/// A ray that hits no object of the scene escapes to the background,
/// whatever the materials of the scene, while it has a bounce to spend.
pub proof fn lemma_miss_escapes(depth: u32, world: hittable_list, found: Vec<incidence>)
    requires
        depth > 0,
        forall|i: int|
            0 <= i < world.objects@.len() ==> (#[trigger] object_hit(
                world.objects@,
                found@,
                i,
                visible_range(),
            )).is_none(),
    ensures
        spec_ray_color(depth, world, found) == path_step::escaped,
{
    lemma_nothing_hit(world.objects@, found@, visible_range(), world.objects@.len());
}

} // verus!
