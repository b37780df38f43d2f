//! Rendering engine for ANSI-colored ASCII art.
//!
//! The engine parses user-supplied hex color strings, computes character-grid
//! dimensions that preserve a source image's aspect ratio under tall monospace
//! glyph cells, parses ANSI-escaped ASCII text into colored cells, and
//! rasterizes those cells into a pixel buffer plus a list of glyph-drawing
//! commands for a font-rendering collaborator.

use vstd::prelude::*;

pub mod ansi;
pub mod color;
pub mod dimensions;
pub mod parser;
pub mod raster;
pub mod render;
pub mod text;

verus! {

/// Errors reported by the engine. Each conversion either completes whole or
/// fails with one of these; no partial result is returned.
#[derive(Debug, PartialEq, Eq)]
pub enum EngineError {
    /// A hex color string failed length or digit validation; carries the
    /// offending input.
    InvalidColor(String),
    /// The source image has zero width or height, or could not be decoded.
    InvalidImageDimensions,
}

} // verus!
