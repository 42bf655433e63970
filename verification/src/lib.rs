//! Text-region detection over raw RGBA rasters.
//!
//! Given a decoded, row-major RGBA pixel buffer, the library reduces each
//! color channel by a fixed luma weight, collapses every pixel to pure black
//! or white around a caller-supplied threshold, walks each scanline for runs
//! of dark pixels tolerant of small bright gaps, merges horizontally
//! overlapping runs of adjacent rows, and hands back the merged regions as
//! [`Segment`] records with derived width, height and area.

pub mod detect;
pub mod merge;
pub mod pixels;
pub mod scan;

pub use detect::find_text;
pub use detect::find_text_segments;
pub use detect::Segment;
pub use merge::merge_rows;
pub use pixels::grayscale;
pub use pixels::thresholding;
pub use scan::scan_row;
pub use scan::Interval;
