//! Textures: images sampled by the nearest texel.

use vstd::prelude::*;
use crate::color::Color;
use crate::fixed::{clamp, mul_wide, lemma_product_bound, lemma_quotient_bounds, Point2, ONE};
use image::DynamicImage;
use image::GenericImageView;

verus! {

/// `image::DynamicImage`, a decoded image of any pixel format, as an opaque value.
#[verifier::external_type_specification]
#[verifier::external_body]
pub struct ExDynamicImage(image::DynamicImage);

/// The number of texel columns of an image.
pub uninterp spec fn image_width(image: DynamicImage) -> u32;

/// The number of texel rows of an image.
pub uninterp spec fn image_height(image: DynamicImage) -> u32;

/// The texels of an image as 8-bit red, green, blue and alpha, by column and row;
/// the first row is the top one.
pub uninterp spec fn image_texels(image: DynamicImage) -> Map<(int, int), (u8, u8, u8, u8)>;

/// The colour of four channel values.
pub open spec fn texel_color(texel: (u8, u8, u8, u8)) -> Color {
    Color { r: texel.0, g: texel.1, b: texel.2, a: texel.3 }
}

/// `DynamicImage::width`: the width of the underlying image buffer.
#[verifier::external_body]
fn width_of(image: &DynamicImage) -> (w: u32)
    ensures
        w == image_width(*image),
{
    image.width()
}

/// `DynamicImage::height`: the height of the underlying image buffer.
#[verifier::external_body]
fn height_of(image: &DynamicImage) -> (h: u32)
    ensures
        h == image_height(*image),
{
    image.height()
}

/// `GenericImageView::get_pixel` on a `DynamicImage`: the texel at a column and a
/// row inside the image, converted to 8-bit RGBA. The call panics outside the
/// image, which the precondition rules out.
#[verifier::external_body]
fn texel_of(image: &DynamicImage, x: u32, y: u32) -> (c: Color)
    requires
        x < image_width(*image),
        y < image_height(*image),
    ensures
        (c.r, c.g, c.b, c.a) == image_texels(*image)[(x as int, y as int)],
{
    let pixel = image.get_pixel(x, y);
    Color { r: pixel.0[0], g: pixel.0[1], b: pixel.0[2], a: pixel.0[3] }
}

/// A 2D image to take colours from.
#[derive(Debug)]
pub struct Texture {
    pub texture: DynamicImage,
}

/// The texel index that a coordinate between 0 and 1 selects among `extent` texels:
/// the coordinate is limited to that interval, scaled to the last index and rounded
/// to the nearest index.
pub open spec fn spec_texel_index(coordinate: int, extent: int) -> int {
    (clamp(coordinate, 0, ONE as int) * (extent - 1) + ONE as int / 2) / (ONE as int)
}

/// The colour that a texture coordinate selects, if the image has any texel.
pub open spec fn spec_sample(image: DynamicImage, tex_coord: Point2) -> Option<Color> {
    if image_width(image) == 0 || image_height(image) == 0 {
        None
    } else {
        Some(
            texel_color(
                image_texels(image)[(
                    spec_texel_index(tex_coord.x as int, image_width(image) as int),
                    spec_texel_index(ONE as int - tex_coord.y as int, image_height(image) as int),
                )],
            ),
        )
    }
}

/// The index of the texel that a coordinate selects.
fn texel_index(coordinate: i64, extent: u32) -> (index: u32)
    requires
        extent >= 1,
    ensures
        index == spec_texel_index(coordinate as int, extent as int),
        index < extent,
{
    let limited: i64 = if coordinate < 0 {
        0
    } else if coordinate > ONE as i64 {
        ONE as i64
    } else {
        coordinate
    };
    let scaled: i128 = mul_wide(limited, (extent - 1) as i64);
    proof {
        lemma_product_bound(limited as int, extent - 1, 0x1_0000, 0xffff_ffff);
        assert(limited * (extent - 1) >= 0) by (nonlinear_arith)
            requires
                limited >= 0,
                extent >= 1,
        ;
        assert(limited * (extent - 1) <= 65536 * (extent - 1)) by (nonlinear_arith)
            requires
                0 <= limited <= 65536,
                extent >= 1,
        ;
    }
    let rounded: u64 = (scaled as u64 + 32768) / 65536;
    rounded as u32
}

impl Texture {
    /// A texture of an image that has been decoded.
    pub fn from_image(image: DynamicImage) -> (texture: Self)
        ensures
            texture.texture == image,
    {
        Texture { texture: image }
    }

    /// The colour at a texture coordinate: the nearest texel, with `v` counted from
    /// the bottom of the image. Coordinates outside the unit square are taken at its
    /// border. An image without texels gives no colour.
    pub fn sample(&self, tex_coord: &Point2) -> (color: Option<Color>)
        ensures
            color == spec_sample(self.texture, *tex_coord),
            color is None <==> image_width(self.texture) == 0 || image_height(self.texture) == 0,
    {
        let width: u32 = width_of(&self.texture);
        let height: u32 = height_of(&self.texture);
        if width == 0 || height == 0 {
            return None;
        }
        let x: u32 = texel_index(tex_coord.x as i64, width);
        let y: u32 = texel_index(ONE as i64 - tex_coord.y as i64, height);
        Some(texel_of(&self.texture, x, y))
    }
}

} // verus!
