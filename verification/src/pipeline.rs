//! The run: the first pass, then the second pass on its image.

use vstd::prelude::*;
use crate::color::{Lab, Rgb8};
use crate::config::{accept_all, AppConfig, Collaborators, ColorizeError};
use crate::first_pass::{apply_color_mapping_and_dithering, first_pass_image, has_unmapped_pixel};
use crate::progress::ProgressEvent;
use crate::raster::{holds_image, image_dimensions, PixelBuffer};
use crate::second_pass::{apply_spatial_averaging_and_luminance_transfer, second_pass_image};

verus! {

/// What `colorize` may return for an image and a configuration: an image
/// that the second pass gives for an image of the first pass, or the reason
/// why there is none.
pub open spec fn colorize_result<D, C, N, A, B, R, I>(
    k: &Collaborators<D, C, N, A, B, R>,
    config: &AppConfig,
    img: image::DynamicImage,
    result: Result<PixelBuffer, ColorizeError>,
) -> bool where
    D: Fn(Lab, Lab, u32) -> Lab,
    C: Fn(Lab) -> Rgb8,
    N: Fn(&PixelBuffer) -> I,
    A: Fn(u32, u32, u32, u32, u32, &I) -> Lab,
    B: Fn(Rgb8, Rgb8, u32) -> Rgb8,
 {
    match result {
        Ok(output) => {
            &&& config.colors@.len() > 0
            &&& exists|first: PixelBuffer| #[trigger]
                first_pass_image(k, config, img, first) && second_pass_image(
                    k,
                    config,
                    img,
                    first,
                    output,
                )
        },
        Err(ColorizeError::EmptyPalette) => config.colors@.len() == 0,
        Err(ColorizeError::ImageTooLarge) => config.colors@.len() > 0 && !holds_image(
            image_dimensions(img),
        ),
        Err(ColorizeError::UnorderedDifferences) => config.colors@.len() > 0 && holds_image(
            image_dimensions(img),
        ) && has_unmapped_pixel(img, config.colors@),
    }
}

/// Recolors `img` with the palette of `config`: runs the first pass, then
/// the second pass on its image. The palette is checked before either pass
/// begins, and a failure in a pass leaves no image.
pub fn colorize<D, C, N, A, B, R, I>(
    img: &image::DynamicImage,
    config: &AppConfig,
    collaborators: &Collaborators<D, C, N, A, B, R>,
) -> (result: Result<PixelBuffer, ColorizeError>) where
    D: Fn(Lab, Lab, u32) -> Lab + Sync,
    C: Fn(Lab) -> Rgb8 + Sync,
    N: Fn(&PixelBuffer) -> I + Sync,
    A: Fn(u32, u32, u32, u32, u32, &I) -> Lab + Sync,
    B: Fn(Rgb8, Rgb8, u32) -> Rgb8 + Sync,
    R: Fn(ProgressEvent) + Sync,
    I: Sync,

    requires
        accept_all::<D, C, N, A, B, R, I>(collaborators),
    ensures
        colorize_result(collaborators, config, *img, result),
{
    if config.colors.len() == 0 {
        return Err(ColorizeError::EmptyPalette);
    }
    let first_pass_output = match apply_color_mapping_and_dithering(img, config, collaborators) {
        Ok(output) => output,
        Err(error) => {
            return Err(error);
        },
    };
    let result = apply_spatial_averaging_and_luminance_transfer(
        img,
        &first_pass_output,
        config,
        collaborators,
    );
    proof {
        if result is Ok {
            assert(first_pass_image(collaborators, config, *img, first_pass_output));
        }
    }
    result
}

} // verus!
