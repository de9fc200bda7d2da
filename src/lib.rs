//! Bitmap font pipeline for a monochrome e-paper dashboard: glyph tables
//! compiled from rasterised outlines, bit-packed glyph bitmaps, greedy word
//! wrapping under a pixel budget, and baseline-relative text rasterisation.

pub mod codec;
pub mod font;
pub mod text;
pub mod wrap;
pub mod render;
pub mod atlas;
pub mod weather;
pub mod calendar;
pub mod layout;
pub mod schedule;
