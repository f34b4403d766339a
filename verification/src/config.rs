//! The configuration of a run, the collaborators that a run works with, and
//! the errors that a run can end with.

use vstd::prelude::*;
use crate::color::{Lab, Rgb8};
use crate::progress::ProgressEvent;
use crate::raster::PixelBuffer;

verus! {

/// What a run is configured with. The two strengths are bit patterns of
/// single-precision numbers; the library hands them to the collaborators
/// and never reads them.
pub struct AppConfig {
    /// The palette, in the order that decides between equally near colors.
    pub colors: Vec<Lab>,
    /// How strongly the first pass dithers.
    pub dither_amount: u32,
    /// How far the neighborhood of the second pass reaches.
    pub spatial_averaging_radius: u32,
    /// The weight of the recolored pixel against the source pixel.
    pub blend_factor: u32,
}

/// The numeric kernels and the progress display that the passes work with.
///
/// `I` below is whatever `compute_integral_image` builds; the passes only
/// carry it from there to `fast_spatial_color_average`.
pub struct Collaborators<D, C, N, A, B, R> {
    /// `(current, target, amount)` to the dithered color.
    pub apply_dithering: D,
    /// An L\*a\*b\* color to the pixel that shows it.
    pub lab_to_image_rgb: C,
    /// The image of the first pass to its table of prefix sums.
    pub compute_integral_image: N,
    /// `(x, y, width, height, radius, table)` to the average color around
    /// the pixel.
    pub fast_spatial_color_average: A,
    /// `(recolored, source, factor)` to the blended pixel.
    pub blend_colors: B,
    /// Takes what the passes tell the progress display.
    pub report: R,
}

/// Why a run gave no image.
#[derive(Clone, Copy, Debug, PartialEq, Eq, Structural)]
pub enum ColorizeError {
    /// The palette holds no color.
    EmptyPalette,
    /// The image has more pixels than a buffer can hold.
    ImageTooLarge,
    /// For some pixel the differences from the palette colors hold a NaN, so
    /// that no color is nearest.
    UnorderedDifferences,
}

impl ColorizeError {
    /// The error in words.
    pub open spec fn message_text(self) -> Seq<char> {
        match self {
            ColorizeError::EmptyPalette => "the palette holds no color"@,
            ColorizeError::ImageTooLarge => "the image has more pixels than a buffer can hold"@,
            ColorizeError::UnorderedDifferences =>
                "a color difference is not a number, so no palette color is nearest"@,
        }
    }

    /// Describes the error.
    pub fn message(self) -> (text: &'static str)
        ensures
            text@ == self.message_text(),
    {
        match self {
            ColorizeError::EmptyPalette => "the palette holds no color",
            ColorizeError::ImageTooLarge => "the image has more pixels than a buffer can hold",
            ColorizeError::UnorderedDifferences =>
                "a color difference is not a number, so no palette color is nearest",
        }
    }
}

/// Every collaborator can be called on every argument.
pub open spec fn accept_all<D, C, N, A, B, R, I>(k: &Collaborators<D, C, N, A, B, R>) -> bool where
    D: Fn(Lab, Lab, u32) -> Lab,
    C: Fn(Lab) -> Rgb8,
    N: Fn(&PixelBuffer) -> I,
    A: Fn(u32, u32, u32, u32, u32, &I) -> Lab,
    B: Fn(Rgb8, Rgb8, u32) -> Rgb8,
    R: Fn(ProgressEvent),
 {
    &&& forall|current: Lab, target: Lab, amount: u32| #[trigger]
        k.apply_dithering.requires((current, target, amount))
    &&& forall|color: Lab| #[trigger] k.lab_to_image_rgb.requires((color,))
    &&& forall|image: &PixelBuffer| #[trigger] k.compute_integral_image.requires((image,))
    &&& forall|x: u32, y: u32, width: u32, height: u32, radius: u32, table: &I| #[trigger]
        k.fast_spatial_color_average.requires((x, y, width, height, radius, table))
    &&& forall|recolored: Rgb8, source: Rgb8, factor: u32| #[trigger]
        k.blend_colors.requires((recolored, source, factor))
    &&& forall|event: ProgressEvent| #[trigger] k.report.requires((event,))
}

} // verus!
