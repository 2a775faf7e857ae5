//! Raster images rendered as grids of glyphs from a fixed-geometry bitmap
//! font.
//!
//! Every sample, weight and score in this crate is a whole number. A sample
//! is a fixed-point number in which `fixed::UNIT` stands for full
//! brightness, so that every result is exact and every contract is a
//! statement about integers.
//!
//! * `fixed`: the unit, sums, division and square roots.
//! * `metrics`: the scores that compare a chunk of samples with a bitmap.
//! * `image`: grayscale buffers, convolution, blur, edges and resizing.
//! * `curve`: the table of the sRGB transfer curve, held against the curve.
//! * `color`: 8-bit colour images.
//! * `font`: glyphs, their features, and the font with its brightness table.
//! * `bdf`: fonts from the glyphs of a parsed BDF file.
//! * `noise`: the offsets that break ties between scores.
//! * `convert`: chunking, matching, dispatch and the conversion algorithms.
//! * `render`: a grid of characters as text and as a picture.

pub mod bdf;
pub mod color;
pub mod convert;
pub mod curve;
pub mod fixed;
pub mod font;
pub mod image;
pub mod metrics;
pub mod noise;
pub mod render;
