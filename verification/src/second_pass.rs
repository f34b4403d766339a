//! The second pass: averaging chroma over a neighborhood, taking lightness
//! back from the source image, and blending with it.

use std::sync::atomic::AtomicU64;
use vstd::prelude::*;
use crate::color::{is_lab_of, Lab, Rgb8};
use crate::config::{accept_all, AppConfig, Collaborators, ColorizeError};
use crate::progress::{update_progress, Pass, ProgressEvent};
use crate::raster::{
    dimensions, get_coordinates, get_lab_color, get_pixel, holds_image, image_dimensions,
    image_pixels, lemma_coordinates_of_running_number, lemma_count_fits, lemma_position_of,
    lemma_running_number_of, pixel_at, pixel_count, position_of, running_number, PixelBuffer,
};
use crate::workers::map_in_parallel;

verus! {

/// The steps of the second pass for one pixel: `own` is an L\*a\*b\* color of
/// the source pixel, `averaged` the average color around the place,
/// `recolored` the pixel that shows the lightness of `own` over the chroma
/// of `averaged`, and `pixel` the blend of `recolored` with the source pixel.
pub open spec fn second_pass_steps<D, C, N, A, B, R, I>(
    k: &Collaborators<D, C, N, A, B, R>,
    config: &AppConfig,
    table: &I,
    at: (u32, u32),
    size: (u32, u32),
    source: Rgb8,
    own: Lab,
    averaged: Lab,
    recolored: Rgb8,
    pixel: Rgb8,
) -> bool where
    C: Fn(Lab) -> Rgb8,
    A: Fn(u32, u32, u32, u32, u32, &I) -> Lab,
    B: Fn(Rgb8, Rgb8, u32) -> Rgb8,
 {
    &&& is_lab_of(source, own)
    &&& k.fast_spatial_color_average.ensures(
        (at.0, at.1, size.0, size.1, config.spatial_averaging_radius, table),
        averaged,
    )
    &&& k.lab_to_image_rgb.ensures((own.with_chroma_of(averaged),), recolored)
    &&& k.blend_colors.ensures((recolored, source, config.blend_factor), pixel)
}

/// `pixel` is what the second pass may write at `at` for the source pixel
/// `source`: the average color around the place gives the chroma, an
/// L\*a\*b\* color of the source pixel the lightness, and the pixel that
/// shows this color is blended with the source pixel.
pub open spec fn second_pass_pixel<D, C, N, A, B, R, I>(
    k: &Collaborators<D, C, N, A, B, R>,
    config: &AppConfig,
    table: &I,
    at: (u32, u32),
    size: (u32, u32),
    source: Rgb8,
    pixel: Rgb8,
) -> bool where
    C: Fn(Lab) -> Rgb8,
    A: Fn(u32, u32, u32, u32, u32, &I) -> Lab,
    B: Fn(Rgb8, Rgb8, u32) -> Rgb8,
 {
    exists|own: Lab, averaged: Lab, recolored: Rgb8| #[trigger]
        second_pass_steps(k, config, table, at, size, source, own, averaged, recolored, pixel)
}

/// `output` is what the second pass may make of `img` with the table
/// `table`: of the same size, with every pixel written for its place.
pub open spec fn second_pass_pixels<D, C, N, A, B, R, I>(
    k: &Collaborators<D, C, N, A, B, R>,
    config: &AppConfig,
    table: &I,
    img: image::DynamicImage,
    output: PixelBuffer,
) -> bool where
    C: Fn(Lab) -> Rgb8,
    A: Fn(u32, u32, u32, u32, u32, &I) -> Lab,
    B: Fn(Rgb8, Rgb8, u32) -> Rgb8,
 {
    forall|x: u32, y: u32|
        x < output.width() && y < output.height() ==> second_pass_pixel(
            k,
            config,
            table,
            (x, y),
            image_dimensions(img),
            pixel_at(image_pixels(img), x, y),
            #[trigger] pixel_at(output@, x, y),
        )
}

/// `output` is an image that the second pass may give for `img` and the
/// image `first` of the first pass: one table of prefix sums is built from
/// `first`, and every pixel is written with it.
pub open spec fn second_pass_image<D, C, N, A, B, R, I>(
    k: &Collaborators<D, C, N, A, B, R>,
    config: &AppConfig,
    img: image::DynamicImage,
    first: PixelBuffer,
    output: PixelBuffer,
) -> bool where
    C: Fn(Lab) -> Rgb8,
    N: Fn(&PixelBuffer) -> I,
    A: Fn(u32, u32, u32, u32, u32, &I) -> Lab,
    B: Fn(Rgb8, Rgb8, u32) -> Rgb8,
 {
    &&& output.wf()
    &&& (output.width(), output.height()) == image_dimensions(img)
    &&& holds_image(image_dimensions(img))
    &&& exists|table: I| #[trigger]
        k.compute_integral_image.ensures((&first,), table) && second_pass_pixels(
            k,
            config,
            &table,
            img,
            output,
        )
}

/// What a worker needs to process a pixel of the second pass.
spec fn second_pass_ready<D, C, N, A, B, R, I>(
    k: &Collaborators<D, C, N, A, B, R>,
    img: image::DynamicImage,
    size: (u32, u32),
) -> bool where
    D: Fn(Lab, Lab, u32) -> Lab + Sync,
    C: Fn(Lab) -> Rgb8 + Sync,
    N: Fn(&PixelBuffer) -> I + Sync,
    A: Fn(u32, u32, u32, u32, u32, &I) -> Lab + Sync,
    B: Fn(Rgb8, Rgb8, u32) -> Rgb8 + Sync,
    R: Fn(ProgressEvent) + Sync,
 {
    &&& size == image_dimensions(img)
    &&& holds_image(size)
    &&& accept_all::<D, C, N, A, B, R, I>(k)
}

/// `pixel` is what the second pass may make of the pixel with running
/// number `i`.
pub open spec fn second_pass_made<D, C, N, A, B, R, I>(
    k: &Collaborators<D, C, N, A, B, R>,
    config: &AppConfig,
    table: &I,
    img: image::DynamicImage,
    i: int,
    pixel: Rgb8,
) -> bool where
    C: Fn(Lab) -> Rgb8,
    A: Fn(u32, u32, u32, u32, u32, &I) -> Lab,
    B: Fn(Rgb8, Rgb8, u32) -> Rgb8,
 {
    let at = position_of(i, image_dimensions(img).0);
    second_pass_pixel(
        k,
        config,
        table,
        at,
        image_dimensions(img),
        pixel_at(image_pixels(img), at.0, at.1),
        pixel,
    )
}

/// Processes one pixel of the second pass: takes the average color around
/// it for the chroma and the source pixel for the lightness, and blends the
/// pixel that shows this color with the source pixel.
fn average_and_blend_pixel<D, C, N, A, B, R, I>(
    original_img: &image::DynamicImage,
    config: &AppConfig,
    collaborators: &Collaborators<D, C, N, A, B, R>,
    integral_image: &I,
    progress: &AtomicU64,
    size: (u32, u32),
    i: usize,
) -> (pixel: Rgb8) where
    D: Fn(Lab, Lab, u32) -> Lab + Sync,
    C: Fn(Lab) -> Rgb8 + Sync,
    N: Fn(&PixelBuffer) -> I + Sync,
    A: Fn(u32, u32, u32, u32, u32, &I) -> Lab + Sync,
    B: Fn(Rgb8, Rgb8, u32) -> Rgb8 + Sync,
    R: Fn(ProgressEvent) + Sync,
    I: Sync,

    requires
        second_pass_ready::<D, C, N, A, B, R, I>(collaborators, *original_img, size),
        i < size.0 * size.1,
    ensures
        second_pass_made(collaborators, config, integral_image, *original_img, i as int, pixel),
{
    proof {
        lemma_position_of(i as int, size.0, size.1);
    }
    let (x, y) = get_coordinates(i as u64, size.0);
    let original_lab = get_lab_color(original_img, x, y);
    let averaged_lab = (collaborators.fast_spatial_color_average)(
        x,
        y,
        size.0,
        size.1,
        config.spatial_averaging_radius,
        integral_image,
    );
    let final_lab = original_lab.with_chroma(averaged_lab);
    let final_rgb = (collaborators.lab_to_image_rgb)(final_lab);
    let blended_rgb = (collaborators.blend_colors)(
        final_rgb,
        get_pixel(original_img, x, y),
        config.blend_factor,
    );
    assert(second_pass_steps(
        collaborators,
        config,
        integral_image,
        (x, y),
        size,
        pixel_at(image_pixels(*original_img), x, y),
        original_lab,
        averaged_lab,
        final_rgb,
        blended_rgb,
    ));
    if let Some(position) = update_progress(progress) {
        (collaborators.report)(ProgressEvent::Advanced { pass: Pass::SpatialAveraging, position });
    }
    blended_rgb
}

/// The second pass: builds the table of prefix sums from the image of the
/// first pass once, then writes, for every pixel of `original_img`, the
/// pixel that shows the average chroma around it under the lightness of the
/// source pixel, blended with the source pixel. The pixels are handed out
/// to workers, which share the table.
pub fn apply_spatial_averaging_and_luminance_transfer<D, C, N, A, B, R, I>(
    original_img: &image::DynamicImage,
    first_pass_output: &PixelBuffer,
    config: &AppConfig,
    collaborators: &Collaborators<D, C, N, A, B, R>,
) -> (result: Result<PixelBuffer, ColorizeError>) where
    D: Fn(Lab, Lab, u32) -> Lab + Sync,
    C: Fn(Lab) -> Rgb8 + Sync,
    N: Fn(&PixelBuffer) -> I + Sync,
    A: Fn(u32, u32, u32, u32, u32, &I) -> Lab + Sync,
    B: Fn(Rgb8, Rgb8, u32) -> Rgb8 + Sync,
    R: Fn(ProgressEvent) + Sync,
    I: Sync,

    requires
        accept_all::<D, C, N, A, B, R, I>(collaborators),
    ensures
        match result {
            Ok(output) => second_pass_image(
                collaborators,
                config,
                *original_img,
                *first_pass_output,
                output,
            ),
            Err(ColorizeError::ImageTooLarge) => !holds_image(image_dimensions(*original_img)),
            Err(_) => false,
        },
{
    let (width, height) = dimensions(original_img);
    let mut final_output = match PixelBuffer::new(width, height) {
        Some(buffer) => buffer,
        None => {
            return Err(ColorizeError::ImageTooLarge);
        },
    };
    let total_pixels = pixel_count(width, height);
    (collaborators.report)(
        ProgressEvent::Started { pass: Pass::SpatialAveraging, total: total_pixels },
    );
    let integral_image = (collaborators.compute_integral_image)(first_pass_output);
    let progress = AtomicU64::new(0);
    proof {
        lemma_count_fits(width, height);
    }
    let total = total_pixels as usize;
    let step = |i: usize| -> (pixel: Rgb8)
        requires
            i < total,
        ensures
            second_pass_made(
                collaborators,
                config,
                &integral_image,
                *original_img,
                i as int,
                pixel,
            ),
        {
            average_and_blend_pixel(
                original_img,
                config,
                collaborators,
                &integral_image,
                &progress,
                (width, height),
                i,
            )
        };
    let made = map_in_parallel(total, step);
    let mut i: usize = 0;
    while i < total
        invariant
            i <= total,
            total == width * height,
            made@.len() == total,
            (width, height) == image_dimensions(*original_img),
            holds_image((width, height)),
            final_output.wf(),
            final_output.width() == width,
            final_output.height() == height,
            forall|j: int|
                0 <= j < total ==> second_pass_made(
                    collaborators,
                    config,
                    &integral_image,
                    *original_img,
                    j,
                    #[trigger] made@[j],
                ),
            forall|x: u32, y: u32|
                x < width && y < height && running_number(x, y, width) < i ==> second_pass_pixel(
                    collaborators,
                    config,
                    &integral_image,
                    (x, y),
                    (width, height),
                    pixel_at(image_pixels(*original_img), x, y),
                    #[trigger] pixel_at(final_output@, x, y),
                ),
        decreases total - i,
    {
        proof {
            lemma_position_of(i as int, width, height);
        }
        let (x, y) = get_coordinates(i as u64, width);
        let blended_rgb = made[i];
        assert(second_pass_made(
            collaborators,
            config,
            &integral_image,
            *original_img,
            i as int,
            made@[i as int],
        ));
        let ghost before = final_output@;
        final_output.put_pixel(x, y, blended_rgb);
        proof {
            assert forall|u: u32, v: u32|
                u < width && v < height && running_number(u, v, width) < i + 1 implies second_pass_pixel(
                collaborators,
                config,
                &integral_image,
                (u, v),
                (width, height),
                pixel_at(image_pixels(*original_img), u, v),
                #[trigger] pixel_at(final_output@, u, v),
            ) by {
                if running_number(u, v, width) < i {
                    assert(pixel_at(final_output@, u, v) == pixel_at(before, u, v));
                } else {
                    lemma_coordinates_of_running_number(u, v, width);
                    assert(u == x && v == y);
                    assert(pixel_at(final_output@, u, v) == blended_rgb);
                }
            }
        }
        i = i + 1;
    }
    (collaborators.report)(ProgressEvent::Finished { pass: Pass::SpatialAveraging });
    proof {
        assert forall|x: u32, y: u32| x < width && y < height implies running_number(x, y, width)
            < total by {
            lemma_running_number_of(x, y, width, height);
        }
        assert(second_pass_pixels(
            collaborators,
            config,
            &integral_image,
            *original_img,
            final_output,
        ));
    }
    Ok(final_output)
}

} // verus!
