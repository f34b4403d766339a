//! The first pass: mapping to the palette, and dithering.

use std::sync::atomic::AtomicU64;
use vstd::prelude::*;
use crate::cache::{
    lemma_unmapped_needs_two_colors, maps_to, memoized_find_closest_color, SharedColorCache,
};
use crate::color::{Lab, Rgb8};
use crate::config::{accept_all, AppConfig, Collaborators, ColorizeError};
use crate::progress::{update_progress, Pass, ProgressEvent};
use crate::raster::{
    dimensions, get_coordinates, get_pixel, holds_image, image_dimensions, image_pixels,
    lemma_coordinates_of_running_number, lemma_count_fits, lemma_position_of,
    lemma_running_number_of, pixel_at, pixel_count, position_of, running_number, PixelBuffer,
};
use crate::workers::map_in_parallel;

verus! {

/// `pixel` is what the first pass may write for a source pixel that is
/// mapped to `mapped`: the pixel that shows `dithered`, the color that
/// dithering makes of `mapped`, taken as both the current and the target
/// color.
pub open spec fn dithers_and_shows<D, C, N, A, B, R>(
    k: &Collaborators<D, C, N, A, B, R>,
    config: &AppConfig,
    mapped: Lab,
    dithered: Lab,
    pixel: Rgb8,
) -> bool where D: Fn(Lab, Lab, u32) -> Lab, C: Fn(Lab) -> Rgb8 {
    &&& k.apply_dithering.ensures((mapped, mapped, config.dither_amount), dithered)
    &&& k.lab_to_image_rgb.ensures((dithered,), pixel)
}

/// The steps of the first pass for one pixel: the source pixel is mapped to
/// `mapped`, dithering makes `dithered` of it, and `pixel` shows that.
pub open spec fn first_pass_steps<D, C, N, A, B, R>(
    k: &Collaborators<D, C, N, A, B, R>,
    config: &AppConfig,
    source: Rgb8,
    mapped: Lab,
    dithered: Lab,
    pixel: Rgb8,
) -> bool where D: Fn(Lab, Lab, u32) -> Lab, C: Fn(Lab) -> Rgb8 {
    &&& maps_to(source, config.colors@, Some(mapped))
    &&& dithers_and_shows(k, config, mapped, dithered, pixel)
}

/// `pixel` is what the first pass may write for the source pixel `source`:
/// what dithering and showing make of a color that the pixel is mapped to.
pub open spec fn first_pass_pixel<D, C, N, A, B, R>(
    k: &Collaborators<D, C, N, A, B, R>,
    config: &AppConfig,
    source: Rgb8,
    pixel: Rgb8,
) -> bool where D: Fn(Lab, Lab, u32) -> Lab, C: Fn(Lab) -> Rgb8 {
    exists|mapped: Lab, dithered: Lab| #[trigger]
        first_pass_steps(k, config, source, mapped, dithered, pixel)
}

/// `output` is an image that the first pass may give for `img`: of the same
/// size, with every pixel written from the source pixel in its place.
pub open spec fn first_pass_image<D, C, N, A, B, R>(
    k: &Collaborators<D, C, N, A, B, R>,
    config: &AppConfig,
    img: image::DynamicImage,
    output: PixelBuffer,
) -> bool where D: Fn(Lab, Lab, u32) -> Lab, C: Fn(Lab) -> Rgb8 {
    &&& output.wf()
    &&& (output.width(), output.height()) == image_dimensions(img)
    &&& holds_image(image_dimensions(img))
    &&& forall|x: u32, y: u32|
        x < output.width() && y < output.height() ==> first_pass_pixel(
            k,
            config,
            pixel_at(image_pixels(img), x, y),
            #[trigger] pixel_at(output@, x, y),
        )
}

/// For some pixel of the image no palette color may be found nearest: the
/// palette has two or more colors and a difference measured for the pixel
/// is a NaN.
pub open spec fn has_unmapped_pixel(img: image::DynamicImage, colors: Seq<Lab>) -> bool {
    &&& colors.len() >= 2
    &&& exists|x: u32, y: u32|
        x < image_dimensions(img).0 && y < image_dimensions(img).1 && maps_to(
            #[trigger] pixel_at(image_pixels(img), x, y),
            colors,
            None,
        )
}

/// What a worker needs to process a pixel of the first pass.
spec fn first_pass_ready<D, C, N, A, B, R, I>(
    k: &Collaborators<D, C, N, A, B, R>,
    config: &AppConfig,
    img: image::DynamicImage,
    color_map: &SharedColorCache,
    size: (u32, u32),
) -> bool where
    D: Fn(Lab, Lab, u32) -> Lab + Sync,
    C: Fn(Lab) -> Rgb8 + Sync,
    N: Fn(&PixelBuffer) -> I + Sync,
    A: Fn(u32, u32, u32, u32, u32, &I) -> Lab + Sync,
    B: Fn(Rgb8, Rgb8, u32) -> Rgb8 + Sync,
    R: Fn(ProgressEvent) + Sync,
 {
    &&& size == image_dimensions(img)
    &&& holds_image(size)
    &&& config.colors@.len() > 0
    &&& color_map.palette() == config.colors@
    &&& accept_all::<D, C, N, A, B, R, I>(k)
}

/// `made` is what the first pass may make of the pixel with running number
/// `i`: nothing where the pixel has no nearest palette color, else a pixel
/// that the pass may write for it.
pub open spec fn first_pass_made<D, C, N, A, B, R>(
    k: &Collaborators<D, C, N, A, B, R>,
    config: &AppConfig,
    img: image::DynamicImage,
    i: int,
    made: Option<Rgb8>,
) -> bool where D: Fn(Lab, Lab, u32) -> Lab, C: Fn(Lab) -> Rgb8 {
    let at = position_of(i, image_dimensions(img).0);
    let source = pixel_at(image_pixels(img), at.0, at.1);
    match made {
        Some(pixel) => first_pass_pixel(k, config, source, pixel),
        None => maps_to(source, config.colors@, None),
    }
}

/// Processes one pixel of the first pass: maps it to the palette, dithers
/// the mapped color and returns the pixel that shows it, or nothing where
/// the pixel has no nearest palette color.
fn map_and_dither_pixel<D, C, N, A, B, R, I>(
    img: &image::DynamicImage,
    config: &AppConfig,
    collaborators: &Collaborators<D, C, N, A, B, R>,
    color_map: &SharedColorCache,
    progress: &AtomicU64,
    size: (u32, u32),
    i: usize,
) -> (made: Option<Rgb8>) where
    D: Fn(Lab, Lab, u32) -> Lab + Sync,
    C: Fn(Lab) -> Rgb8 + Sync,
    N: Fn(&PixelBuffer) -> I + Sync,
    A: Fn(u32, u32, u32, u32, u32, &I) -> Lab + Sync,
    B: Fn(Rgb8, Rgb8, u32) -> Rgb8 + Sync,
    R: Fn(ProgressEvent) + Sync,

    requires
        first_pass_ready::<D, C, N, A, B, R, I>(collaborators, config, *img, color_map, size),
        i < size.0 * size.1,
    ensures
        first_pass_made(collaborators, config, *img, i as int, made),
{
    proof {
        lemma_position_of(i as int, size.0, size.1);
    }
    let (x, y) = get_coordinates(i as u64, size.0);
    let pixel = get_pixel(img, x, y);
    let made = match memoized_find_closest_color(color_map, pixel, config.colors.as_slice()) {
        Some(colorized_lab) => {
            let dithered_color = (collaborators.apply_dithering)(
                colorized_lab,
                colorized_lab,
                config.dither_amount,
            );
            let new_pixel = (collaborators.lab_to_image_rgb)(dithered_color);
            assert(first_pass_steps(
                collaborators,
                config,
                pixel,
                colorized_lab,
                dithered_color,
                new_pixel,
            ));
            Some(new_pixel)
        },
        None => None,
    };
    if let Some(position) = update_progress(progress) {
        (collaborators.report)(ProgressEvent::Advanced { pass: Pass::ColorMapping, position });
    }
    made
}

/// The first pass: maps every pixel of `img` to the palette, dithers the
/// mapped color and writes the pixel that shows it. The pixels are handed
/// out to workers, which share the table of colors that were matched once.
///
/// Where a pixel has no nearest palette color, the pass gives no image and
/// does not tell the progress display that it has finished.
pub fn apply_color_mapping_and_dithering<D, C, N, A, B, R, I>(
    img: &image::DynamicImage,
    config: &AppConfig,
    collaborators: &Collaborators<D, C, N, A, B, R>,
) -> (result: Result<PixelBuffer, ColorizeError>) where
    D: Fn(Lab, Lab, u32) -> Lab + Sync,
    C: Fn(Lab) -> Rgb8 + Sync,
    N: Fn(&PixelBuffer) -> I + Sync,
    A: Fn(u32, u32, u32, u32, u32, &I) -> Lab + Sync,
    B: Fn(Rgb8, Rgb8, u32) -> Rgb8 + Sync,
    R: Fn(ProgressEvent) + Sync,

    requires
        config.colors@.len() > 0,
        accept_all::<D, C, N, A, B, R, I>(collaborators),
    ensures
        match result {
            Ok(output) => first_pass_image(collaborators, config, *img, output),
            Err(ColorizeError::ImageTooLarge) => !holds_image(image_dimensions(*img)),
            Err(ColorizeError::UnorderedDifferences) => holds_image(image_dimensions(*img))
                && has_unmapped_pixel(*img, config.colors@),
            Err(ColorizeError::EmptyPalette) => false,
        },
{
    let (width, height) = dimensions(img);
    let mut output = match PixelBuffer::new(width, height) {
        Some(buffer) => buffer,
        None => {
            return Err(ColorizeError::ImageTooLarge);
        },
    };
    let total_pixels = pixel_count(width, height);
    (collaborators.report)(ProgressEvent::Started { pass: Pass::ColorMapping, total: total_pixels });
    let color_map = SharedColorCache::new(config.colors.as_slice());
    let progress = AtomicU64::new(0);
    proof {
        lemma_count_fits(width, height);
    }
    let total = total_pixels as usize;
    let step = |i: usize| -> (made: Option<Rgb8>)
        requires
            i < total,
        ensures
            first_pass_made(collaborators, config, *img, i as int, made),
        { map_and_dither_pixel(img, config, collaborators, &color_map, &progress, (width, height), i)
        };
    let made = map_in_parallel(total, step);
    let mut i: usize = 0;
    while i < total
        invariant
            i <= total,
            total == width * height,
            made@.len() == total,
            (width, height) == image_dimensions(*img),
            holds_image((width, height)),
            output.wf(),
            output.width() == width,
            output.height() == height,
            forall|j: int|
                0 <= j < total ==> first_pass_made(collaborators, config, *img, j, #[trigger] made@[j]),
            forall|x: u32, y: u32|
                x < width && y < height && running_number(x, y, width) < i ==> first_pass_pixel(
                    collaborators,
                    config,
                    pixel_at(image_pixels(*img), x, y),
                    #[trigger] pixel_at(output@, x, y),
                ),
        decreases total - i,
    {
        proof {
            lemma_position_of(i as int, width, height);
        }
        let (x, y) = get_coordinates(i as u64, width);
        assert(first_pass_made(collaborators, config, *img, i as int, made@[i as int]));
        let new_pixel = match made[i] {
            Some(pixel) => pixel,
            None => {
                assert(maps_to(pixel_at(image_pixels(*img), x, y), config.colors@, None));
                proof {
                    lemma_unmapped_needs_two_colors(
                        pixel_at(image_pixels(*img), x, y),
                        config.colors@,
                    );
                }
                return Err(ColorizeError::UnorderedDifferences);
            },
        };
        let ghost before = output@;
        output.put_pixel(x, y, new_pixel);
        proof {
            assert forall|u: u32, v: u32|
                u < width && v < height && running_number(u, v, width) < i + 1 implies first_pass_pixel(
                collaborators,
                config,
                pixel_at(image_pixels(*img), u, v),
                #[trigger] pixel_at(output@, u, v),
            ) by {
                if running_number(u, v, width) < i {
                    assert(pixel_at(output@, u, v) == pixel_at(before, u, v));
                } else {
                    lemma_coordinates_of_running_number(u, v, width);
                    assert(u == x && v == y);
                    assert(pixel_at(output@, u, v) == new_pixel);
                }
            }
        }
        i = i + 1;
    }
    (collaborators.report)(ProgressEvent::Finished { pass: Pass::ColorMapping });
    proof {
        assert forall|x: u32, y: u32| x < width && y < height implies running_number(x, y, width)
            < total by {
            lemma_running_number_of(x, y, width, height);
        }
    }
    Ok(output)
}

} // verus!
