//! Terrain from decoded images.
//!
//! Decoding and pixel conversion are the work of the `image` crate. What is
//! assumed of it here, without proof, is that an image has a width and a
//! height, that its conversion to RGB gives the same samples wherever it
//! runs, and that its conversion to grayscale gives the same number of samples
//! wherever it runs. The gray values themselves are not spoken of. Whatever
//! comes back is checked like any other raster before it becomes terrain.

use vstd::prelude::*;
use crate::terrain::{terrain_fault, Raster, Terrain, TerrainError};

verus! {

#[verifier::external_type_specification]
#[verifier::external_body]
pub struct ExDynamicImage(image::DynamicImage);

/// The width of an image in pixels.
pub uninterp spec fn image_width(img: image::DynamicImage) -> u32;

/// The height of an image in pixels.
pub uninterp spec fn image_height(img: image::DynamicImage) -> u32;

/// How many samples the conversion of an image to 8-bit grayscale holds.
pub uninterp spec fn luma8_count(img: image::DynamicImage) -> nat;

/// The samples of an image after conversion to 8-bit RGB, row by row, three
/// per pixel, followed by any spare samples that an RGB image carries.
pub uninterp spec fn rgb8_of(img: image::DynamicImage) -> Seq<u8>;

/// `DynamicImage::width`: the width of the image's pixel buffer. Assumed: it
/// depends on the image value alone.
#[verifier::external_body]
fn width_of(img: &image::DynamicImage) -> (width: u32)
    ensures
        width == image_width(*img),
{
    img.width()
}

/// `DynamicImage::height`: the height of the image's pixel buffer. Assumed: it
/// depends on the image value alone.
#[verifier::external_body]
fn height_of(img: &image::DynamicImage) -> (height: u32)
    ensures
        height == image_height(*img),
{
    img.height()
}

/// `DynamicImage::to_luma8`, then the samples of the resulting buffer as a
/// vector. Assumed: how many samples come back depends on the image value
/// alone (an image that is already gray is copied together with any spare
/// samples behind its pixels; any other gives one sample per pixel). Nothing
/// is assumed of the values: the conversion weighs the channels in floating
/// point, with fused operations where the build target has them.
#[verifier::external_body]
fn luma8_samples(img: &image::DynamicImage) -> (samples: Vec<u8>)
    ensures
        samples@.len() == luma8_count(*img),
{
    img.to_luma8().to_vec()
}

/// `DynamicImage::to_rgb8`, then the samples of the resulting buffer as a
/// vector. Assumed: the samples depend on the image value alone (an image
/// that is already RGB is copied together with any spare samples behind its
/// pixels; any other is converted channel by channel, with the same rounding
/// on every build target).
#[verifier::external_body]
fn rgb8_samples(img: &image::DynamicImage) -> (samples: Vec<u8>)
    ensures
        samples@ == rgb8_of(*img),
{
    img.to_rgb8().to_vec()
}

/// Builds the terrain from two decoded images: the heightmap is read as 8-bit
/// grayscale, the colormap as 24-bit RGB.
///
/// The images must agree in their dimensions and be `MAP_SIZE` pixels wide and
/// high, and their conversions must hold one gray sample and three colour
/// samples per cell. The outcome is the one that [`Terrain::new`] gives for
/// rasters of these dimensions and sample counts; the colours of the terrain
/// are the converted colormap. The elevations are whatever gray values the
/// conversion of the heightmap produced.
pub fn terrain_from_images(
    heightmap: &image::DynamicImage,
    colormap: &image::DynamicImage,
) -> (result: Result<Terrain, TerrainError>)
    ensures
        match result {
            Ok(terrain) => {
                &&& terrain_fault(
                    (image_width(*heightmap), image_height(*heightmap)),
                    luma8_count(*heightmap),
                    (image_width(*colormap), image_height(*colormap)),
                    rgb8_of(*colormap).len(),
                ) is None
                &&& terrain.wf()
                &&& terrain.colors() == rgb8_of(*colormap)
            },
            Err(e) => terrain_fault(
                (image_width(*heightmap), image_height(*heightmap)),
                luma8_count(*heightmap),
                (image_width(*colormap), image_height(*colormap)),
                rgb8_of(*colormap).len(),
            ) == Some(e),
        },
{
    let heights = Raster {
        width: width_of(heightmap),
        height: height_of(heightmap),
        bytes: luma8_samples(heightmap),
    };
    let colors = Raster {
        width: width_of(colormap),
        height: height_of(colormap),
        bytes: rgb8_samples(colormap),
    };
    Terrain::new(heights, colors)
}

} // verus!
