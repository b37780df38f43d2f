//! The renderer façade: configuration, grid computation for a source image,
//! and the text-to-buffer rendering pipeline.
//!
//! One conversion runs decode → dimension calculation → (external ASCII text
//! generation) → parse → rasterize. The text generator and the glyph drawing
//! are collaborators outside this crate; the façade computes everything either
//! side of them.

use vstd::prelude::*;

use crate::ansi::{AnsiColor, Cell, ColorState};
use crate::color::Color;
use crate::dimensions::{calculate_dimensions, grid_dims_spec, MAX_GRID_COLUMNS};
use crate::parser::{parse, parse_line_spec, parse_text_spec, visible_count_spec};
use crate::raster::{
    commands_spec, max_line_len, pixel_color_spec, rasterize, GlyphCommand, PixelBuffer,
    RenderConfig,
};
use crate::text::str_chars;
use crate::EngineError;

verus! {

/// The pixel dimensions of the image encoded by the given bytes, where they
/// encode one: a fixed function of the bytes alone.
pub uninterp spec fn decoded_dimensions(bytes: Seq<u8>) -> Option<(u32, u32)>;

#[verifier::external_type_specification]
#[verifier::external_body]
pub struct ExImageError(image::ImageError);

/// Relies on `image::load_from_memory`, which decodes an image from bytes
/// (guessing the format), and on `GenericImageView::dimensions`, which returns
/// its width and height in pixels: both are deterministic in the bytes, as
/// long as no process-global decoding hook is registered with the crate —
/// nothing in this library or around it registers one.
#[verifier::external_body]
fn load_image_dimensions(bytes: &[u8]) -> (r: Result<(u32, u32), image::ImageError>)
    ensures
        match r {
            Ok(d) => decoded_dimensions(bytes@) == Some(d),
            Err(_) => decoded_dimensions(bytes@) is None,
        },
{
    match image::load_from_memory(bytes) {
        Ok(img) => Ok(image::GenericImageView::dimensions(&img)),
        Err(e) => Err(e),
    }
}

/// One rendering operation's engine: holds the immutable render
/// configuration and offers each pipeline step on it.
#[derive(Debug, Clone, Copy, PartialEq, Eq, Structural)]
pub struct AsciiRenderer {
    pub config: RenderConfig,
}

impl AsciiRenderer {
    /// Creates a renderer drawing 9 by 18 pixel glyph cells on an opaque
    /// black base background, with at most `max_width` grid columns (further
    /// capped at [`MAX_GRID_COLUMNS`]) and the given foreground brightness
    /// boost in thousandths.
    pub fn new(brightness_boost_millis: u32, max_width: u32) -> (r: AsciiRenderer)
        ensures
            r.config.wf(),
            r.config == (RenderConfig {
                cell_width_px: 9u32,
                cell_height_px: 18u32,
                base_background: Color { r: 0, g: 0, b: 0, a: 255 },
                brightness_boost_millis,
                max_columns: if max_width > MAX_GRID_COLUMNS {
                    MAX_GRID_COLUMNS
                } else {
                    max_width
                },
            }),
    {
        let max_columns = if max_width > MAX_GRID_COLUMNS {
            MAX_GRID_COLUMNS
        } else {
            max_width
        };
        AsciiRenderer {
            config: RenderConfig {
                cell_width_px: 9,
                cell_height_px: 18,
                base_background: Color { r: 0, g: 0, b: 0, a: 255 },
                brightness_boost_millis,
                max_columns,
            },
        }
    }

    /// The character grid for a source of the given pixel size, under this
    /// renderer's column limit.
    pub fn calculate_ascii_dimensions(&self, img_width: u32, img_height: u32) -> (r: Result<
        (u32, u32),
        EngineError,
    >)
        ensures
            match r {
                Ok(dims) => img_width > 0 && img_height > 0 && dims == grid_dims_spec(
                    img_width,
                    img_height,
                    self.config.max_columns,
                ) && dims.0 >= 1 && dims.1 >= 1,
                Err(e) => (img_width == 0 || img_height == 0) && e
                    == EngineError::InvalidImageDimensions,
            },
    {
        calculate_dimensions(img_width, img_height, self.config.max_columns)
    }

    /// Decodes only the dimensions of the given image bytes and computes the
    /// character grid for them. Bytes that decode to no image, or to one with
    /// a zero side, are rejected.
    pub fn grid_for_image(&self, image_bytes: &[u8]) -> (r: Result<(u32, u32), EngineError>)
        ensures
            match r {
                Ok(dims) => decoded_dimensions(image_bytes@) matches Some(src) && src.0 > 0
                    && src.1 > 0 && dims == grid_dims_spec(
                    src.0,
                    src.1,
                    self.config.max_columns,
                ) && dims.0 >= 1 && dims.1 >= 1,
                Err(e) => e == EngineError::InvalidImageDimensions && match decoded_dimensions(
                    image_bytes@,
                ) {
                    Some(src) => src.0 == 0 || src.1 == 0,
                    None => true,
                },
            },
    {
        match load_image_dimensions(image_bytes) {
            Ok(d) => self.calculate_ascii_dimensions(d.0, d.1),
            Err(_) => Err(EngineError::InvalidImageDimensions),
        }
    }

    /// The number of visible characters of one line: its cell count once the
    /// escape sequences are stripped.
    pub fn count_visible_chars(&self, line: &str) -> (r: usize)
        ensures
            r == visible_count_spec(line@),
    {
        let chars = str_chars(line);
        let parsed = crate::parser::parse_line(&chars, crate::ansi::default_state());
        parsed.0.len()
    }

    /// Parses one line of ANSI-escaped text from the given color state,
    /// returning its cells and the state left for the next line.
    pub fn parse_colored_line(&self, line: &str, state: ColorState) -> (r: (Vec<Cell>, ColorState))
        ensures
            r.0@ == parse_line_spec(line@, state).0,
            r.1 == parse_line_spec(line@, state).1,
    {
        let chars = str_chars(line);
        crate::parser::parse_line(&chars, state)
    }

    /// Interprets one ANSI color code, given without its `ESC [` introducer
    /// and `m` terminator.
    pub fn parse_ansi_rgb(&self, code: &str) -> (r: Option<AnsiColor>)
        ensures
            r == crate::ansi::ansi_code_spec(code@),
    {
        let chars = str_chars(code);
        crate::ansi::code_action(&chars)
    }

    /// Renders ANSI-escaped ASCII text back toward an image: parses the text
    /// into its cell grid and rasterizes that grid with this renderer's
    /// configuration. Returns the background pixel buffer and the glyph
    /// commands still to be drawn over it.
    pub fn render_to_image(&self, ascii_text: &str) -> (r: (PixelBuffer, Vec<GlyphCommand>))
        requires
            self.config.wf(),
            parse_text_spec(ascii_text@).len() * self.config.cell_height_px <= u32::MAX,
            max_line_len(parse_text_spec(ascii_text@)) * self.config.cell_width_px <= u32::MAX,
            (max_line_len(parse_text_spec(ascii_text@)) * self.config.cell_width_px)
                * (parse_text_spec(ascii_text@).len() * self.config.cell_height_px) <= usize::MAX,
        ensures
            r.0.wf(),
            r.0.width == max_line_len(parse_text_spec(ascii_text@)) * self.config.cell_width_px,
            r.0.height == parse_text_spec(ascii_text@).len() * self.config.cell_height_px,
            forall|px: int, py: int|
                0 <= px < r.0.width && 0 <= py < r.0.height ==> #[trigger] r.0.pixel_spec(px, py)
                    == pixel_color_spec(parse_text_spec(ascii_text@), self.config, px, py),
            r.1@ == commands_spec(parse_text_spec(ascii_text@), self.config),
    {
        let cells = parse(ascii_text);
        rasterize(&cells, &self.config)
    }

    /// Renders like [`Self::render_to_image`], but first checks the machine
    /// limits the buffer must fit within, and returns `None` where the grid
    /// would exceed them instead of asking the caller to rule that out.
    pub fn try_render_to_image(&self, ascii_text: &str) -> (r: Option<
        (PixelBuffer, Vec<GlyphCommand>),
    >)
        requires
            self.config.wf(),
        ensures
            match r {
                Some(out) => {
                    &&& parse_text_spec(ascii_text@).len() * self.config.cell_height_px
                        <= u32::MAX
                    &&& max_line_len(parse_text_spec(ascii_text@)) * self.config.cell_width_px
                        <= u32::MAX
                    &&& (max_line_len(parse_text_spec(ascii_text@)) * self.config.cell_width_px)
                        * (parse_text_spec(ascii_text@).len() * self.config.cell_height_px)
                        <= usize::MAX
                    &&& out.0.wf()
                    &&& out.0.width == max_line_len(parse_text_spec(ascii_text@))
                        * self.config.cell_width_px
                    &&& out.0.height == parse_text_spec(ascii_text@).len()
                        * self.config.cell_height_px
                    &&& forall|px: int, py: int|
                        0 <= px < out.0.width && 0 <= py < out.0.height
                            ==> #[trigger] out.0.pixel_spec(px, py) == pixel_color_spec(
                            parse_text_spec(ascii_text@),
                            self.config,
                            px,
                            py,
                        )
                    &&& out.1@ == commands_spec(parse_text_spec(ascii_text@), self.config)
                },
                None => !(parse_text_spec(ascii_text@).len() * self.config.cell_height_px
                    <= u32::MAX && max_line_len(parse_text_spec(ascii_text@))
                    * self.config.cell_width_px <= u32::MAX && (max_line_len(
                    parse_text_spec(ascii_text@),
                ) * self.config.cell_width_px) * (parse_text_spec(ascii_text@).len()
                    * self.config.cell_height_px) <= usize::MAX),
            },
    {
        let cells = parse(ascii_text);
        let rows = cells.len();
        let cols = crate::raster::grid_columns(&cells);
        let cw = self.config.cell_width_px;
        let ch = self.config.cell_height_px;
        if rows > 0xffff_ffffusize || cols > 0xffff_ffffusize {
            proof {
                assert((rows as int) * (ch as int) >= rows && (cols as int) * (cw as int) >= cols)
                    by (nonlinear_arith)
                    requires
                        cw >= 1,
                        ch >= 1,
                        rows >= 0,
                        cols >= 0,
                ;
            }
            return None;
        }
        assert((rows as u64) * (ch as u64) <= 0xffff_ffffu64 * 0xffff_ffffu64 && (cols as u64) * (
        cw as u64) <= 0xffff_ffffu64 * 0xffff_ffffu64) by (nonlinear_arith)
            requires
                rows <= 0xffff_ffffu64,
                cols <= 0xffff_ffffu64,
                cw <= 0xffff_ffffu64,
                ch <= 0xffff_ffffu64,
        ;
        let h64: u64 = (rows as u64) * (ch as u64);
        let w64: u64 = (cols as u64) * (cw as u64);
        if h64 > 0xffff_ffffu64 || w64 > 0xffff_ffffu64 {
            return None;
        }
        assert(w64 * h64 <= 0xffff_ffffu64 * 0xffff_ffffu64) by (nonlinear_arith)
            requires
                w64 <= 0xffff_ffffu64,
                h64 <= 0xffff_ffffu64,
        ;
        let total: u64 = w64 * h64;
        if total > usize::MAX as u64 {
            return None;
        }
        Some(rasterize(&cells, &self.config))
    }
}

} // verus!
