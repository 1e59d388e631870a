//! Renders styled text and overlaid sub-images onto raster images.
//!
//! The library is organized around a few small value types:
//!
//! - [`color::Rgb`], parsed from hex color strings by [`color::hex_to_rgb`];
//! - [`font::SiFont`], a table of pre-rasterized glyphs keyed by character
//!   and scale, together with per-scale baseline metrics;
//! - [`image::SiImage`], an RGBA pixel buffer with its dimensions, offering
//!   text rendering, sub-image overlay, resizing and PNG serialization;
//! - [`preset::SiPreset`], a reusable rendering callback driven by a
//!   string-keyed bag of runtime-typed values.
//!
//! Every operation consumes an image value and returns a new one; nothing is
//! mutated in place from the caller's point of view.

pub mod color;
pub mod compose;
pub mod font;
pub mod image;
pub mod preset;

pub use crate::color::hex_to_rgb;
pub use crate::color::ParseError;
pub use crate::color::Rgb;
pub use crate::font::GlyphEntry;
pub use crate::font::GlyphRaster;
pub use crate::font::Placement;
pub use crate::font::ScaleMetrics;
pub use crate::font::SiFont;
pub use crate::font::TextOptions;
pub use crate::image::DecodeError;
pub use crate::image::EncodeError;
pub use crate::image::SiImage;
pub use crate::preset::PresetError;
pub use crate::preset::SiPreset;
pub use crate::preset::Value;
pub use crate::preset::ValueBag;
pub use crate::preset::ValueKind;
