//! Palette-constrained recoloring of raster images.
//!
//! An image is recolored in two passes. The first maps every pixel to the
//! nearest color of a fixed palette in CIE L\*a\*b\*, keeping the pixel's own
//! lightness, and dithers the result. The second smooths the chroma of the
//! first pass over a neighborhood, puts it under the lightness of the source
//! image again and blends the outcome with the source.
//!
//! Within a pass the pixels are handed out to rayon's workers. The workers
//! share the table of colors that were matched already, which is locked for
//! one lookup or one insertion at a time, and a counter of processed pixels.
//!
//! Colors are carried as bit patterns of single-precision numbers, so that
//! every value the library handles is an integer. The numeric kernels that
//! do arithmetic on such numbers are supplied by the caller as
//! [`config::Collaborators`].

pub mod cache;
pub mod color;
pub mod config;
pub mod first_pass;
pub mod laws;
pub mod matching;
pub mod pipeline;
pub mod progress;
pub mod raster;
pub mod second_pass;
mod workers;

pub use cache::{memoized_find_closest_color, ColorCache, SharedColorCache};
pub use color::{Lab, Rgb8};
pub use config::{AppConfig, Collaborators, ColorizeError};
pub use first_pass::apply_color_mapping_and_dithering;
pub use matching::find_closest_color;
pub use pipeline::colorize;
pub use progress::{update_progress, Pass, ProgressEvent};
pub use raster::{get_coordinates, get_lab_color, PixelBuffer};
pub use second_pass::apply_spatial_averaging_and_luminance_transfer;
