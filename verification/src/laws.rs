//! What holds of the matching and of the passes, whatever the image, the
//! palette and the collaborators.
//!
//! Laws that say that one input gives one outcome ask that `palette` and the
//! collaborators return one result for one argument; the library itself
//! assumes that of neither.

use vstd::prelude::*;
use crate::cache::{lemma_maps_to_one, maps_to, recolored};
use crate::color::{is_lab_of, palette_is_single_valued, Lab, Rgb8};
use crate::config::{AppConfig, Collaborators, ColorizeError};
use crate::first_pass::{
    dithers_and_shows, first_pass_image, first_pass_pixel, first_pass_steps, has_unmapped_pixel,
};
use crate::matching::{
    all_ordered, first_minimum, is_closest, is_first_minimum, lemma_first_minimum_exists,
    lemma_first_minimum_is_unique, measured, nearest,
};
use crate::pipeline::colorize_result;
use crate::raster::{image_dimensions, image_pixels, pixel_at, PixelBuffer};
use crate::second_pass::{
    second_pass_image, second_pass_pixel, second_pass_pixels, second_pass_steps,
};

verus! {

/// `mapped` has the lightness of `own`, a color of the pixel, and the chroma
/// of the palette color at `i`, the first that is nearest to `own` by the
/// measured `distances`.
pub open spec fn recolors_with_nearest(
    pixel: Rgb8,
    colors: Seq<Lab>,
    own: Lab,
    distances: Seq<u32>,
    i: int,
    mapped: Lab,
) -> bool {
    &&& is_lab_of(pixel, own)
    &&& measured(own, colors, distances)
    &&& is_first_minimum(distances, i)
    &&& mapped == own.with_chroma_of(colors[i])
}

/// Mapping a pixel to the palette keeps the pixel's lightness and takes the
/// chroma of the first palette color that is nearest to the pixel.
pub proof fn lemma_mapping_keeps_lightness(pixel: Rgb8, colors: Seq<Lab>, mapped: Lab)
    requires
        colors.len() > 0,
        maps_to(pixel, colors, Some(mapped)),
    ensures
        exists|own: Lab, distances: Seq<u32>, i: int| #[trigger]
            recolors_with_nearest(pixel, colors, own, distances, i, mapped),
{
    let (own, found) = choose|own: Lab, found: Option<Lab>|
        #![trigger is_lab_of(pixel, own), is_closest(own, colors, found)]
        is_lab_of(pixel, own) && is_closest(own, colors, found) && Some(mapped) == recolored(
            own,
            found,
        );
    let distances = choose|distances: Seq<u32>| #[trigger]
        measured(own, colors, distances) && found == nearest(colors, distances);
    lemma_first_minimum_exists(distances);
    assert(recolors_with_nearest(pixel, colors, own, distances, first_minimum(distances), mapped));
}

/// With a palette of one color, every pixel is mapped, and to its own
/// lightness over the chroma of that color.
pub proof fn lemma_single_color_palette(pixel: Rgb8, colors: Seq<Lab>, found: Option<Lab>)
    requires
        colors.len() == 1,
        maps_to(pixel, colors, found),
    ensures
        exists|own: Lab| #[trigger]
            is_lab_of(pixel, own) && found == Some(own.with_chroma_of(colors[0])),
{
    let (own, closest) = choose|own: Lab, closest: Option<Lab>|
        #![trigger is_lab_of(pixel, own), is_closest(own, colors, closest)]
        is_lab_of(pixel, own) && is_closest(own, colors, closest) && found == recolored(
            own,
            closest,
        );
    let distances = choose|distances: Seq<u32>| #[trigger]
        measured(own, colors, distances) && closest == nearest(colors, distances);
    assert(all_ordered(distances));
    assert(is_first_minimum(distances, 0));
    lemma_first_minimum_is_unique(distances, 0);
    assert(is_lab_of(pixel, own));
}

/// The color that the first pass dithers and shows for a pixel has the
/// lightness of `own`, a color of the source pixel, and the chroma of the
/// palette color at `i`.
pub open spec fn shows_source_lightness<D, C, N, A, B, R>(
    k: &Collaborators<D, C, N, A, B, R>,
    config: &AppConfig,
    source: Rgb8,
    own: Lab,
    i: int,
    dithered: Lab,
    pixel: Rgb8,
) -> bool where D: Fn(Lab, Lab, u32) -> Lab, C: Fn(Lab) -> Rgb8 {
    &&& is_lab_of(source, own)
    &&& 0 <= i < config.colors@.len()
    &&& dithers_and_shows(k, config, own.with_chroma_of(config.colors@[i]), dithered, pixel)
}

/// What the first pass dithered and showed for `pixel` has the lightness of
/// the source pixel and the chroma of a palette color.
pub open spec fn keeps_source_lightness<D, C, N, A, B, R>(
    k: &Collaborators<D, C, N, A, B, R>,
    config: &AppConfig,
    source: Rgb8,
    pixel: Rgb8,
) -> bool where D: Fn(Lab, Lab, u32) -> Lab, C: Fn(Lab) -> Rgb8 {
    exists|own: Lab, i: int, dithered: Lab| #[trigger]
        shows_source_lightness(k, config, source, own, i, dithered, pixel)
}

/// For every pixel of an image of the first pass, what was dithered and
/// shown has the lightness of the source pixel in its place; only the
/// chroma is the palette's.
pub proof fn lemma_first_pass_keeps_lightness<D, C, N, A, B, R>(
    k: &Collaborators<D, C, N, A, B, R>,
    config: &AppConfig,
    img: image::DynamicImage,
    output: PixelBuffer,
) where D: Fn(Lab, Lab, u32) -> Lab, C: Fn(Lab) -> Rgb8
    requires
        config.colors@.len() > 0,
        first_pass_image(k, config, img, output),
    ensures
        forall|x: u32, y: u32|
            x < image_dimensions(img).0 && y < image_dimensions(img).1 ==> keeps_source_lightness(
                k,
                config,
                pixel_at(image_pixels(img), x, y),
                #[trigger] pixel_at(output@, x, y),
            ),
{
    assert forall|x: u32, y: u32|
        x < image_dimensions(img).0 && y < image_dimensions(img).1 implies keeps_source_lightness(
        k,
        config,
        pixel_at(image_pixels(img), x, y),
        #[trigger] pixel_at(output@, x, y),
    ) by {
        let source = pixel_at(image_pixels(img), x, y);
        let pixel = pixel_at(output@, x, y);
        assert(first_pass_pixel(k, config, source, pixel));
        let (mapped, dithered) = choose|mapped: Lab, dithered: Lab| #[trigger]
            first_pass_steps(k, config, source, mapped, dithered, pixel);
        lemma_mapping_keeps_lightness(source, config.colors@, mapped);
        let (own, distances, i) = choose|own: Lab, distances: Seq<u32>, i: int| #[trigger]
            recolors_with_nearest(source, config.colors@, own, distances, i, mapped);
        assert(shows_source_lightness(k, config, source, own, i, dithered, pixel));
    }
}

/// `pixel` shows the lightness of the source pixel over the chroma of the
/// first palette color that is nearest to it.
pub open spec fn shows_nearest<D, C, N, A, B, R>(
    k: &Collaborators<D, C, N, A, B, R>,
    config: &AppConfig,
    source: Rgb8,
    pixel: Rgb8,
) -> bool where C: Fn(Lab) -> Rgb8 {
    exists|own: Lab, distances: Seq<u32>, i: int, mapped: Lab| #[trigger]
        recolors_with_nearest(source, config.colors@, own, distances, i, mapped)
            && k.lab_to_image_rgb.ensures((mapped,), pixel)
}

/// Where dithering with the configured amount returns the color it is
/// given, as an amount of zero asks, every pixel of the first pass shows the
/// lightness of the source pixel over the chroma of the first palette color
/// that is nearest to it.
pub proof fn lemma_undithered_first_pass_shows_nearest<D, C, N, A, B, R>(
    k: &Collaborators<D, C, N, A, B, R>,
    config: &AppConfig,
    img: image::DynamicImage,
    output: PixelBuffer,
) where D: Fn(Lab, Lab, u32) -> Lab, C: Fn(Lab) -> Rgb8
    requires
        config.colors@.len() > 0,
        first_pass_image(k, config, img, output),
        forall|color: Lab, dithered: Lab| #[trigger]
            k.apply_dithering.ensures((color, color, config.dither_amount), dithered) ==> dithered
                == color,
    ensures
        forall|x: u32, y: u32|
            x < image_dimensions(img).0 && y < image_dimensions(img).1 ==> shows_nearest(
                k,
                config,
                pixel_at(image_pixels(img), x, y),
                #[trigger] pixel_at(output@, x, y),
            ),
{
    assert forall|x: u32, y: u32|
        x < image_dimensions(img).0 && y < image_dimensions(img).1 implies shows_nearest(
        k,
        config,
        pixel_at(image_pixels(img), x, y),
        #[trigger] pixel_at(output@, x, y),
    ) by {
        let source = pixel_at(image_pixels(img), x, y);
        let pixel = pixel_at(output@, x, y);
        assert(first_pass_pixel(k, config, source, pixel));
        let (mapped, dithered) = choose|mapped: Lab, dithered: Lab| #[trigger]
            first_pass_steps(k, config, source, mapped, dithered, pixel);
        assert(dithered == mapped);
        lemma_mapping_keeps_lightness(source, config.colors@, mapped);
        let (own, distances, i) = choose|own: Lab, distances: Seq<u32>, i: int| #[trigger]
            recolors_with_nearest(source, config.colors@, own, distances, i, mapped);
        assert(recolors_with_nearest(source, config.colors@, own, distances, i, mapped)
            && k.lab_to_image_rgb.ensures((mapped,), pixel));
    }
}

/// The color `shown` that the second pass shows for a pixel, before
/// blending, has the lightness of `own`, a color of the source pixel.
pub open spec fn blends_source_lightness<D, C, N, A, B, R>(
    k: &Collaborators<D, C, N, A, B, R>,
    config: &AppConfig,
    source: Rgb8,
    own: Lab,
    shown: Lab,
    recolored: Rgb8,
    pixel: Rgb8,
) -> bool where C: Fn(Lab) -> Rgb8, B: Fn(Rgb8, Rgb8, u32) -> Rgb8 {
    &&& is_lab_of(source, own)
    &&& shown.l == own.l
    &&& k.lab_to_image_rgb.ensures((shown,), recolored)
    &&& k.blend_colors.ensures((recolored, source, config.blend_factor), pixel)
}

/// The color that the second pass showed for `pixel`, before blending, has
/// the lightness of the source pixel.
pub open spec fn keeps_source_lightness_before_blending<D, C, N, A, B, R>(
    k: &Collaborators<D, C, N, A, B, R>,
    config: &AppConfig,
    source: Rgb8,
    pixel: Rgb8,
) -> bool where C: Fn(Lab) -> Rgb8, B: Fn(Rgb8, Rgb8, u32) -> Rgb8 {
    exists|own: Lab, shown: Lab, recolored: Rgb8| #[trigger]
        blends_source_lightness(k, config, source, own, shown, recolored, pixel)
}

/// For every pixel of an image of the second pass, the color that was shown
/// before blending has the lightness of the source pixel in its place:
/// averaging decides the chroma only.
pub proof fn lemma_second_pass_keeps_lightness<D, C, N, A, B, R, I>(
    k: &Collaborators<D, C, N, A, B, R>,
    config: &AppConfig,
    img: image::DynamicImage,
    first: PixelBuffer,
    output: PixelBuffer,
) where
    C: Fn(Lab) -> Rgb8,
    N: Fn(&PixelBuffer) -> I,
    A: Fn(u32, u32, u32, u32, u32, &I) -> Lab,
    B: Fn(Rgb8, Rgb8, u32) -> Rgb8,

    requires
        second_pass_image(k, config, img, first, output),
    ensures
        forall|x: u32, y: u32|
            x < image_dimensions(img).0 && y < image_dimensions(img).1 ==> keeps_source_lightness_before_blending(
                k,
                config,
                pixel_at(image_pixels(img), x, y),
                #[trigger] pixel_at(output@, x, y),
            ),
{
    let table = choose|table: I| #[trigger]
        k.compute_integral_image.ensures((&first,), table) && second_pass_pixels(
            k,
            config,
            &table,
            img,
            output,
        );
    assert forall|x: u32, y: u32|
        x < image_dimensions(img).0 && y < image_dimensions(img).1 implies keeps_source_lightness_before_blending(
        k,
        config,
        pixel_at(image_pixels(img), x, y),
        #[trigger] pixel_at(output@, x, y),
    ) by {
        let source = pixel_at(image_pixels(img), x, y);
        let pixel = pixel_at(output@, x, y);
        let size = image_dimensions(img);
        assert(second_pass_pixel(k, config, &table, (x, y), size, source, pixel));
        let (own, averaged, recolored) = choose|own: Lab, averaged: Lab, recolored: Rgb8| #[trigger]
            second_pass_steps(
                k,
                config,
                &table,
                (x, y),
                size,
                source,
                own,
                averaged,
                recolored,
                pixel,
            );
        assert(blends_source_lightness(
            k,
            config,
            source,
            own,
            own.with_chroma_of(averaged),
            recolored,
            pixel,
        ));
    }
}

/// Blending with the configured factor returns the source pixel, as a
/// factor of zero asks.
pub open spec fn blends_to_source<D, C, N, A, B, R>(
    k: &Collaborators<D, C, N, A, B, R>,
    config: &AppConfig,
) -> bool where B: Fn(Rgb8, Rgb8, u32) -> Rgb8 {
    forall|recolored: Rgb8, source: Rgb8, blended: Rgb8| #[trigger]
        k.blend_colors.ensures((recolored, source, config.blend_factor), blended) ==> blended
            == source
}

/// Blending with the configured factor returns the recolored pixel, as a
/// factor of one asks.
pub open spec fn blends_to_recolored<D, C, N, A, B, R>(
    k: &Collaborators<D, C, N, A, B, R>,
    config: &AppConfig,
) -> bool where B: Fn(Rgb8, Rgb8, u32) -> Rgb8 {
    forall|recolored: Rgb8, source: Rgb8, blended: Rgb8| #[trigger]
        k.blend_colors.ensures((recolored, source, config.blend_factor), blended) ==> blended
            == recolored
}

/// `output` holds the pixels of `img`, each in its place.
pub open spec fn same_pixels(img: image::DynamicImage, output: PixelBuffer) -> bool {
    &&& (output.width(), output.height()) == image_dimensions(img)
    &&& forall|x: u32, y: u32|
        x < image_dimensions(img).0 && y < image_dimensions(img).1 ==> #[trigger] pixel_at(
            output@,
            x,
            y,
        ) == pixel_at(image_pixels(img), x, y)
}

/// Where blending returns the source pixel, the second pass gives the source
/// image back.
pub proof fn lemma_blend_to_source_reproduces_image<D, C, N, A, B, R, I>(
    k: &Collaborators<D, C, N, A, B, R>,
    config: &AppConfig,
    img: image::DynamicImage,
    first: PixelBuffer,
    output: PixelBuffer,
) where
    C: Fn(Lab) -> Rgb8,
    N: Fn(&PixelBuffer) -> I,
    A: Fn(u32, u32, u32, u32, u32, &I) -> Lab,
    B: Fn(Rgb8, Rgb8, u32) -> Rgb8,

    requires
        second_pass_image(k, config, img, first, output),
        blends_to_source(k, config),
    ensures
        same_pixels(img, output),
{
    let table = choose|table: I| #[trigger]
        k.compute_integral_image.ensures((&first,), table) && second_pass_pixels(
            k,
            config,
            &table,
            img,
            output,
        );
    assert forall|x: u32, y: u32|
        x < image_dimensions(img).0 && y < image_dimensions(img).1 implies #[trigger] pixel_at(
        output@,
        x,
        y,
    ) == pixel_at(image_pixels(img), x, y) by {
        assert(second_pass_pixel(
            k,
            config,
            &table,
            (x, y),
            image_dimensions(img),
            pixel_at(image_pixels(img), x, y),
            pixel_at(output@, x, y),
        ));
    }
}

/// Where blending returns the source pixel, an image that `colorize` gives
/// is the source image, pixel for pixel.
pub proof fn lemma_colorize_with_blend_to_source<D, C, N, A, B, R, I>(
    k: &Collaborators<D, C, N, A, B, R>,
    config: &AppConfig,
    img: image::DynamicImage,
    output: PixelBuffer,
) where
    D: Fn(Lab, Lab, u32) -> Lab,
    C: Fn(Lab) -> Rgb8,
    N: Fn(&PixelBuffer) -> I,
    A: Fn(u32, u32, u32, u32, u32, &I) -> Lab,
    B: Fn(Rgb8, Rgb8, u32) -> Rgb8,

    requires
        colorize_result::<D, C, N, A, B, R, I>(k, config, img, Ok(output)),
        blends_to_source(k, config),
    ensures
        same_pixels(img, output),
{
    let first = choose|first: PixelBuffer| #[trigger]
        first_pass_image(k, config, img, first) && second_pass_image(k, config, img, first, output);
    lemma_blend_to_source_reproduces_image(k, config, img, first, output);
}

/// `pixel` shows the lightness of `own`, a color of the source pixel, over
/// the chroma of `averaged`, the average color around the place; no
/// blending has changed it.
pub open spec fn shows_recoloring<D, C, N, A, B, R, I>(
    k: &Collaborators<D, C, N, A, B, R>,
    config: &AppConfig,
    table: &I,
    at: (u32, u32),
    size: (u32, u32),
    source: Rgb8,
    own: Lab,
    averaged: Lab,
    pixel: Rgb8,
) -> bool where C: Fn(Lab) -> Rgb8, A: Fn(u32, u32, u32, u32, u32, &I) -> Lab {
    &&& is_lab_of(source, own)
    &&& k.fast_spatial_color_average.ensures(
        (at.0, at.1, size.0, size.1, config.spatial_averaging_radius, table),
        averaged,
    )
    &&& k.lab_to_image_rgb.ensures((own.with_chroma_of(averaged),), pixel)
}

/// `pixel` is the recolored pixel for its place, unblended.
pub open spec fn is_unblended<D, C, N, A, B, R, I>(
    k: &Collaborators<D, C, N, A, B, R>,
    config: &AppConfig,
    table: &I,
    at: (u32, u32),
    size: (u32, u32),
    source: Rgb8,
    pixel: Rgb8,
) -> bool where C: Fn(Lab) -> Rgb8, A: Fn(u32, u32, u32, u32, u32, &I) -> Lab {
    exists|own: Lab, averaged: Lab| #[trigger]
        shows_recoloring(k, config, table, at, size, source, own, averaged, pixel)
}

/// Every pixel of `output` is the recolored pixel for its place, unblended,
/// with the table `table`.
pub open spec fn unblended_pixels<D, C, N, A, B, R, I>(
    k: &Collaborators<D, C, N, A, B, R>,
    config: &AppConfig,
    table: &I,
    img: image::DynamicImage,
    output: PixelBuffer,
) -> bool where C: Fn(Lab) -> Rgb8, A: Fn(u32, u32, u32, u32, u32, &I) -> Lab {
    forall|x: u32, y: u32|
        x < image_dimensions(img).0 && y < image_dimensions(img).1 ==> is_unblended(
            k,
            config,
            table,
            (x, y),
            image_dimensions(img),
            pixel_at(image_pixels(img), x, y),
            #[trigger] pixel_at(output@, x, y),
        )
}

/// Where blending returns the recolored pixel, every pixel of the second
/// pass is the pixel that shows the source lightness over the average
/// chroma around it: the source pixel gives nothing but its lightness.
pub proof fn lemma_blend_to_recolored_keeps_recoloring<D, C, N, A, B, R, I>(
    k: &Collaborators<D, C, N, A, B, R>,
    config: &AppConfig,
    img: image::DynamicImage,
    first: PixelBuffer,
    output: PixelBuffer,
) where
    C: Fn(Lab) -> Rgb8,
    N: Fn(&PixelBuffer) -> I,
    A: Fn(u32, u32, u32, u32, u32, &I) -> Lab,
    B: Fn(Rgb8, Rgb8, u32) -> Rgb8,

    requires
        second_pass_image(k, config, img, first, output),
        blends_to_recolored(k, config),
    ensures
        exists|table: I| #[trigger]
            k.compute_integral_image.ensures((&first,), table) && unblended_pixels(
                k,
                config,
                &table,
                img,
                output,
            ),
{
    let table = choose|table: I| #[trigger]
        k.compute_integral_image.ensures((&first,), table) && second_pass_pixels(
            k,
            config,
            &table,
            img,
            output,
        );
    assert forall|x: u32, y: u32|
        x < image_dimensions(img).0 && y < image_dimensions(img).1 implies is_unblended(
        k,
        config,
        &table,
        (x, y),
        image_dimensions(img),
        pixel_at(image_pixels(img), x, y),
        #[trigger] pixel_at(output@, x, y),
    ) by {
        let source = pixel_at(image_pixels(img), x, y);
        let pixel = pixel_at(output@, x, y);
        let size = image_dimensions(img);
        assert(second_pass_pixel(k, config, &table, (x, y), size, source, pixel));
        let (own, averaged, recolored) = choose|own: Lab, averaged: Lab, recolored: Rgb8| #[trigger]
            second_pass_steps(
                k,
                config,
                &table,
                (x, y),
                size,
                source,
                own,
                averaged,
                recolored,
                pixel,
            );
        assert(pixel == recolored);
        assert(shows_recoloring(k, config, &table, (x, y), size, source, own, averaged, pixel));
    }
    assert(unblended_pixels(k, config, &table, img, output));
}

/// Where blending returns the recolored pixel, an image that `colorize`
/// gives is the image of the second pass before blending: every pixel shows
/// the source lightness over the average chroma, around its place, of an
/// image of the first pass.
pub proof fn lemma_colorize_with_blend_to_recolored<D, C, N, A, B, R, I>(
    k: &Collaborators<D, C, N, A, B, R>,
    config: &AppConfig,
    img: image::DynamicImage,
    output: PixelBuffer,
) where
    D: Fn(Lab, Lab, u32) -> Lab,
    C: Fn(Lab) -> Rgb8,
    N: Fn(&PixelBuffer) -> I,
    A: Fn(u32, u32, u32, u32, u32, &I) -> Lab,
    B: Fn(Rgb8, Rgb8, u32) -> Rgb8,

    requires
        colorize_result::<D, C, N, A, B, R, I>(k, config, img, Ok(output)),
        blends_to_recolored(k, config),
    ensures
        exists|first: PixelBuffer, table: I|
            first_pass_image(k, config, img, first) && #[trigger] k.compute_integral_image.ensures(
                (&first,),
                table,
            ) && unblended_pixels(k, config, &table, img, output),
{
    let first = choose|first: PixelBuffer| #[trigger]
        first_pass_image(k, config, img, first) && second_pass_image(k, config, img, first, output);
    lemma_blend_to_recolored_keeps_recoloring(k, config, img, first, output);
    let table = choose|table: I| #[trigger]
        k.compute_integral_image.ensures((&first,), table) && unblended_pixels(
            k,
            config,
            &table,
            img,
            output,
        );
    assert(first_pass_image(k, config, img, first) && k.compute_integral_image.ensures(
        (&first,),
        table,
    ) && unblended_pixels(k, config, &table, img, output));
}

/// Where averaging with the configured radius returns the chroma of `own`,
/// the color that the first pass gave the pixel itself, as a radius of zero
/// asks, the color that the second pass shows for the pixel, before
/// blending, has the lightness of the source pixel and that chroma; what
/// the first pass wrote elsewhere does not enter.
pub proof fn lemma_own_average_keeps_first_pass_chroma<D, C, N, A, B, R, I>(
    k: &Collaborators<D, C, N, A, B, R>,
    config: &AppConfig,
    table: &I,
    at: (u32, u32),
    size: (u32, u32),
    source: Rgb8,
    own: Lab,
    pixel: Rgb8,
) where
    C: Fn(Lab) -> Rgb8,
    A: Fn(u32, u32, u32, u32, u32, &I) -> Lab,
    B: Fn(Rgb8, Rgb8, u32) -> Rgb8,

    requires
        second_pass_pixel(k, config, table, at, size, source, pixel),
        forall|averaged: Lab| #[trigger]
            k.fast_spatial_color_average.ensures(
                (at.0, at.1, size.0, size.1, config.spatial_averaging_radius, table),
                averaged,
            ) ==> averaged.a == own.a && averaged.b == own.b,
    ensures
        exists|source_lab: Lab, recolored: Rgb8|
            is_lab_of(source, source_lab) && #[trigger] k.lab_to_image_rgb.ensures(
                (source_lab.with_chroma_of(own),),
                recolored,
            ) && k.blend_colors.ensures((recolored, source, config.blend_factor), pixel),
{
    let (source_lab, averaged, recolored) = choose|
        source_lab: Lab,
        averaged: Lab,
        recolored: Rgb8,
    | #[trigger]
        second_pass_steps(
            k,
            config,
            table,
            at,
            size,
            source,
            source_lab,
            averaged,
            recolored,
            pixel,
        );
    assert(source_lab.with_chroma_of(averaged) == source_lab.with_chroma_of(own));
    assert(is_lab_of(source, source_lab) && k.lab_to_image_rgb.ensures(
        (source_lab.with_chroma_of(own),),
        recolored,
    ) && k.blend_colors.ensures((recolored, source, config.blend_factor), pixel));
}

/// Each numeric collaborator returns one result for one argument, and the
/// table of prefix sums depends on nothing but the size and the pixels of
/// the image it is built from.
pub open spec fn single_valued<D, C, N, A, B, R, I>(k: &Collaborators<D, C, N, A, B, R>) -> bool where
    D: Fn(Lab, Lab, u32) -> Lab,
    C: Fn(Lab) -> Rgb8,
    N: Fn(&PixelBuffer) -> I,
    A: Fn(u32, u32, u32, u32, u32, &I) -> Lab,
    B: Fn(Rgb8, Rgb8, u32) -> Rgb8,
 {
    &&& forall|args: (Lab, Lab, u32), one: Lab, other: Lab|
        #![trigger k.apply_dithering.ensures(args, one), k.apply_dithering.ensures(args, other)]
        k.apply_dithering.ensures(args, one) && k.apply_dithering.ensures(args, other) ==> one
            == other
    &&& forall|args: (Lab,), one: Rgb8, other: Rgb8|
        #![trigger k.lab_to_image_rgb.ensures(args, one), k.lab_to_image_rgb.ensures(args, other)]
        k.lab_to_image_rgb.ensures(args, one) && k.lab_to_image_rgb.ensures(args, other) ==> one
            == other
    &&& forall|image: &PixelBuffer, same: &PixelBuffer, one: I, other: I|
        #![trigger k.compute_integral_image.ensures((image,), one), k.compute_integral_image.ensures((same,), other)]
        image@ == same@ && image.width() == same.width() && image.height() == same.height()
            && k.compute_integral_image.ensures((image,), one)
            && k.compute_integral_image.ensures((same,), other) ==> one == other
    &&& forall|args: (u32, u32, u32, u32, u32, &I), one: Lab, other: Lab|
        #![trigger k.fast_spatial_color_average.ensures(args, one), k.fast_spatial_color_average.ensures(args, other)]
        k.fast_spatial_color_average.ensures(args, one) && k.fast_spatial_color_average.ensures(
            args,
            other,
        ) ==> one == other
    &&& forall|args: (Rgb8, Rgb8, u32), one: Rgb8, other: Rgb8|
        #![trigger k.blend_colors.ensures(args, one), k.blend_colors.ensures(args, other)]
        k.blend_colors.ensures(args, one) && k.blend_colors.ensures(args, other) ==> one == other
}

/// The lightness of the average color does not enter the second pass: with
/// two tables whose averages around a place agree in chroma, the pass writes
/// the same pixel there, provided that `palette` and the collaborators
/// return one result for one argument.
pub proof fn lemma_average_lightness_is_ignored<D, C, N, A, B, R, I>(
    k: &Collaborators<D, C, N, A, B, R>,
    config: &AppConfig,
    one: &I,
    other: &I,
    at: (u32, u32),
    size: (u32, u32),
    source: Rgb8,
    p: Rgb8,
    q: Rgb8,
) where
    D: Fn(Lab, Lab, u32) -> Lab,
    C: Fn(Lab) -> Rgb8,
    N: Fn(&PixelBuffer) -> I,
    A: Fn(u32, u32, u32, u32, u32, &I) -> Lab,
    B: Fn(Rgb8, Rgb8, u32) -> Rgb8,

    requires
        palette_is_single_valued(),
        single_valued::<D, C, N, A, B, R, I>(k),
        second_pass_pixel(k, config, one, at, size, source, p),
        second_pass_pixel(k, config, other, at, size, source, q),
        forall|a1: Lab, a2: Lab|
            #![trigger
                k.fast_spatial_color_average.ensures((at.0, at.1, size.0, size.1, config.spatial_averaging_radius, one), a1),
                k.fast_spatial_color_average.ensures((at.0, at.1, size.0, size.1, config.spatial_averaging_radius, other), a2)]
            k.fast_spatial_color_average.ensures(
                (at.0, at.1, size.0, size.1, config.spatial_averaging_radius, one),
                a1,
            ) && k.fast_spatial_color_average.ensures(
                (at.0, at.1, size.0, size.1, config.spatial_averaging_radius, other),
                a2,
            ) ==> a1.a == a2.a && a1.b == a2.b,
    ensures
        p == q,
{
    let (own1, a1, r1) = choose|own: Lab, averaged: Lab, recolored: Rgb8| #[trigger]
        second_pass_steps(k, config, one, at, size, source, own, averaged, recolored, p);
    let (own2, a2, r2) = choose|own: Lab, averaged: Lab, recolored: Rgb8| #[trigger]
        second_pass_steps(k, config, other, at, size, source, own, averaged, recolored, q);
    assert(own1 == own2);
    assert(own1.with_chroma_of(a1) == own2.with_chroma_of(a2));
    assert(r1 == r2);
}

/// With `palette` and collaborators that return one result for one
/// argument, the first pass gives one image for one source image and
/// configuration.
pub proof fn lemma_first_pass_is_deterministic<D, C, N, A, B, R, I>(
    k: &Collaborators<D, C, N, A, B, R>,
    config: &AppConfig,
    img: image::DynamicImage,
    one: PixelBuffer,
    other: PixelBuffer,
) where
    D: Fn(Lab, Lab, u32) -> Lab,
    C: Fn(Lab) -> Rgb8,
    N: Fn(&PixelBuffer) -> I,
    A: Fn(u32, u32, u32, u32, u32, &I) -> Lab,
    B: Fn(Rgb8, Rgb8, u32) -> Rgb8,

    requires
        palette_is_single_valued(),
        single_valued::<D, C, N, A, B, R, I>(k),
        first_pass_image(k, config, img, one),
        first_pass_image(k, config, img, other),
    ensures
        one@ == other@,
        one.width() == other.width(),
        one.height() == other.height(),
{
    assert forall|at: (u32, u32)| one@.dom().contains(at) implies one@[at] == other@[at] by {
        let source = pixel_at(image_pixels(img), at.0, at.1);
        let p = pixel_at(one@, at.0, at.1);
        let q = pixel_at(other@, at.0, at.1);
        assert(first_pass_pixel(k, config, source, p));
        assert(first_pass_pixel(k, config, source, q));
        let (m1, d1) = choose|mapped: Lab, dithered: Lab| #[trigger]
            first_pass_steps(k, config, source, mapped, dithered, p);
        let (m2, d2) = choose|mapped: Lab, dithered: Lab| #[trigger]
            first_pass_steps(k, config, source, mapped, dithered, q);
        lemma_maps_to_one(source, config.colors@, Some(m1), Some(m2));
        assert(d1 == d2);
        assert(p == q);
    }
    assert(one@ =~= other@);
}

/// Running `colorize` twice on one image and one configuration gives the
/// same outcome both times, pixel for pixel, provided that `palette` and the
/// collaborators return one result for one argument.
pub proof fn lemma_colorize_is_deterministic<D, C, N, A, B, R, I>(
    k: &Collaborators<D, C, N, A, B, R>,
    config: &AppConfig,
    img: image::DynamicImage,
    one: Result<PixelBuffer, ColorizeError>,
    other: Result<PixelBuffer, ColorizeError>,
) where
    D: Fn(Lab, Lab, u32) -> Lab,
    C: Fn(Lab) -> Rgb8,
    N: Fn(&PixelBuffer) -> I,
    A: Fn(u32, u32, u32, u32, u32, &I) -> Lab,
    B: Fn(Rgb8, Rgb8, u32) -> Rgb8,

    requires
        palette_is_single_valued(),
        single_valued::<D, C, N, A, B, R, I>(k),
        colorize_result(k, config, img, one),
        colorize_result(k, config, img, other),
    ensures
        match (one, other) {
            (Ok(image), Ok(same)) => image@ == same@ && image.width() == same.width()
                && image.height() == same.height(),
            (Err(error), Err(same)) => error == same,
            _ => false,
        },
{
    match (one, other) {
        (Ok(image), Ok(same)) => {
            let first = choose|first: PixelBuffer| #[trigger]
                first_pass_image(k, config, img, first) && second_pass_image(
                    k,
                    config,
                    img,
                    first,
                    image,
                );
            let again = choose|first: PixelBuffer| #[trigger]
                first_pass_image(k, config, img, first) && second_pass_image(
                    k,
                    config,
                    img,
                    first,
                    same,
                );
            lemma_first_pass_is_deterministic::<D, C, N, A, B, R, I>(k, config, img, first, again);
            let table = choose|table: I| #[trigger]
                k.compute_integral_image.ensures((&first,), table) && second_pass_pixels(
                    k,
                    config,
                    &table,
                    img,
                    image,
                );
            let table_again = choose|table: I| #[trigger]
                k.compute_integral_image.ensures((&again,), table) && second_pass_pixels(
                    k,
                    config,
                    &table,
                    img,
                    same,
                );
            assert(table == table_again);
            assert forall|at: (u32, u32)| image@.dom().contains(at) implies image@[at]
                == same@[at] by {
                let source = pixel_at(image_pixels(img), at.0, at.1);
                let p = pixel_at(image@, at.0, at.1);
                let q = pixel_at(same@, at.0, at.1);
                assert(second_pass_pixel(k, config, &table, at, image_dimensions(img), source, p));
                assert(second_pass_pixel(k, config, &table, at, image_dimensions(img), source, q));
                lemma_second_pass_pixel_is_deterministic(
                    k,
                    config,
                    &table,
                    at,
                    image_dimensions(img),
                    source,
                    p,
                    q,
                );
            }
            assert(image@ =~= same@);
        },
        (Ok(image), Err(error)) => {
            lemma_image_excludes_failure(k, config, img, image, error);
        },
        (Err(error), Ok(image)) => {
            lemma_image_excludes_failure(k, config, img, image, error);
        },
        (Err(error), Err(same)) => {},
    }
}

proof fn lemma_second_pass_pixel_is_deterministic<D, C, N, A, B, R, I>(
    k: &Collaborators<D, C, N, A, B, R>,
    config: &AppConfig,
    table: &I,
    at: (u32, u32),
    size: (u32, u32),
    source: Rgb8,
    p: Rgb8,
    q: Rgb8,
) where
    D: Fn(Lab, Lab, u32) -> Lab,
    C: Fn(Lab) -> Rgb8,
    N: Fn(&PixelBuffer) -> I,
    A: Fn(u32, u32, u32, u32, u32, &I) -> Lab,
    B: Fn(Rgb8, Rgb8, u32) -> Rgb8,

    requires
        palette_is_single_valued(),
        single_valued::<D, C, N, A, B, R, I>(k),
        second_pass_pixel(k, config, table, at, size, source, p),
        second_pass_pixel(k, config, table, at, size, source, q),
    ensures
        p == q,
{
    let (own1, a1, r1) = choose|own: Lab, averaged: Lab, recolored: Rgb8| #[trigger]
        second_pass_steps(k, config, table, at, size, source, own, averaged, recolored, p);
    let (own2, a2, r2) = choose|own: Lab, averaged: Lab, recolored: Rgb8| #[trigger]
        second_pass_steps(k, config, table, at, size, source, own, averaged, recolored, q);
    assert(own1 == own2);
    assert(a1 == a2);
    assert(r1 == r2);
}

proof fn lemma_image_excludes_failure<D, C, N, A, B, R, I>(
    k: &Collaborators<D, C, N, A, B, R>,
    config: &AppConfig,
    img: image::DynamicImage,
    image: PixelBuffer,
    error: ColorizeError,
) where
    D: Fn(Lab, Lab, u32) -> Lab,
    C: Fn(Lab) -> Rgb8,
    N: Fn(&PixelBuffer) -> I,
    A: Fn(u32, u32, u32, u32, u32, &I) -> Lab,
    B: Fn(Rgb8, Rgb8, u32) -> Rgb8,

    requires
        palette_is_single_valued(),
        colorize_result::<D, C, N, A, B, R, I>(k, config, img, Ok(image)),
    ensures
        !colorize_result::<D, C, N, A, B, R, I>(k, config, img, Err(error)),
{
    let first = choose|first: PixelBuffer| #[trigger]
        first_pass_image(k, config, img, first) && second_pass_image(k, config, img, first, image);
    if error == ColorizeError::UnorderedDifferences && has_unmapped_pixel(img, config.colors@) {
        let (x, y) = choose|x: u32, y: u32|
            x < image_dimensions(img).0 && y < image_dimensions(img).1 && maps_to(
                #[trigger] pixel_at(image_pixels(img), x, y),
                config.colors@,
                None,
            );
        let source = pixel_at(image_pixels(img), x, y);
        let pixel = pixel_at(first@, x, y);
        assert(first_pass_pixel(k, config, source, pixel));
        let (mapped, dithered) = choose|mapped: Lab, dithered: Lab| #[trigger]
            first_pass_steps(k, config, source, mapped, dithered, pixel);
        lemma_maps_to_one(source, config.colors@, Some(mapped), None);
    }
}

} // verus!
