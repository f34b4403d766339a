//! What the passes tell a progress display, and how often.

use std::sync::atomic::{AtomicU64, Ordering};
use vstd::prelude::*;

verus! {

/// A position is shown once in this many pixels.
pub const REPORT_INTERVAL: u64 = 5000;

/// The two passes over the image.
#[derive(Clone, Copy, Debug, PartialEq, Eq, Structural)]
pub enum Pass {
    /// Mapping to the palette, and dithering.
    ColorMapping,
    /// Averaging chroma over a neighborhood, and taking lightness back from
    /// the source.
    SpatialAveraging,
}

/// What a pass tells the display.
#[derive(Clone, Copy, Debug, PartialEq, Eq, Structural)]
pub enum ProgressEvent {
    /// The pass begins; it will process `total` pixels.
    Started { pass: Pass, total: u64 },
    /// `position` pixels had been processed when the last one was begun.
    Advanced { pass: Pass, position: u64 },
    /// The pass has processed every pixel.
    Finished { pass: Pass },
}

impl Pass {
    /// What the display is labelled with while the pass runs.
    pub open spec fn label_text(self) -> Seq<char> {
        match self {
            Pass::ColorMapping => "Applying Color Mapping and Dithering"@,
            Pass::SpatialAveraging => "Applying Spatial Averaging and Luminance Transfer"@,
        }
    }

    /// What the display says once the pass has ended.
    pub open spec fn completion_text(self) -> Seq<char> {
        match self {
            Pass::ColorMapping => "Color mapping and dithering complete"@,
            Pass::SpatialAveraging => "Spatial averaging and luminance transfer complete"@,
        }
    }

    /// The label of the pass.
    pub fn label(self) -> (text: &'static str)
        ensures
            text@ == self.label_text(),
    {
        match self {
            Pass::ColorMapping => "Applying Color Mapping and Dithering",
            Pass::SpatialAveraging => "Applying Spatial Averaging and Luminance Transfer",
        }
    }

    /// The message that ends the pass.
    pub fn completion_message(self) -> (text: &'static str)
        ensures
            text@ == self.completion_text(),
    {
        match self {
            Pass::ColorMapping => "Color mapping and dithering complete",
            Pass::SpatialAveraging => "Spatial averaging and luminance transfer complete",
        }
    }
}

/// The position to show once a pixel has been processed, where `previous`
/// pixels were processed before it: every pixel is counted, one in
/// `REPORT_INTERVAL` is shown.
pub open spec fn shown_position(previous: u64) -> Option<u64> {
    if previous % REPORT_INTERVAL == 0 {
        Some(previous)
    } else {
        None
    }
}

/// Decides whether the pixel that was begun when `previous` pixels had been
/// processed shows a position.
pub fn position_to_show(previous: u64) -> (shown: Option<u64>)
    ensures
        shown == shown_position(previous),
{
    if previous % REPORT_INTERVAL == 0 {
        Some(previous)
    } else {
        None
    }
}

/// Counts one more processed pixel on the counter that all workers share,
/// and returns the position to show, if this pixel is one that shows. The
/// counter never misses a pixel and never counts one twice; on overflow it
/// starts again at zero.
pub fn update_progress(progress: &AtomicU64) -> (shown: Option<u64>)
    ensures
        shown matches Some(position) ==> shown_position(position) == Some(position),
{
    let prev_count = progress.fetch_add(1, Ordering::Relaxed);
    position_to_show(prev_count)
}

} // verus!
