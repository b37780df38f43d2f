//! The cell rasterizer: turns a grid of parsed cells into a pixel buffer of
//! cell backgrounds plus a list of glyph-drawing commands for a
//! font-rendering collaborator.

use vstd::prelude::*;

use crate::ansi::Cell;
use crate::color::Color;
use crate::text::views_of;

verus! {

/// Configuration of one rendering operation. Immutable once constructed.
///
/// The brightness boost is a per-channel multiplicative gain on foreground
/// colors, in thousandths: 1000 leaves a channel unchanged, 2000 doubles it
/// (clamped to 255).
#[derive(Debug, Clone, Copy, PartialEq, Eq, Structural)]
pub struct RenderConfig {
    pub cell_width_px: u32,
    pub cell_height_px: u32,
    pub base_background: Color,
    pub brightness_boost_millis: u32,
    pub max_columns: u32,
}

impl RenderConfig {
    /// Glyph cells must have a positive pixel size.
    pub open spec fn wf(self) -> bool {
        self.cell_width_px >= 1 && self.cell_height_px >= 1
    }
}

/// One channel under brightness boost: `channel * boost / 1000`, clamped
/// to 255.
pub open spec fn boost_channel_spec(channel: u8, boost_millis: u32) -> u8 {
    let v = (channel * boost_millis) / 1000;
    if v > 255 {
        255u8
    } else {
        v as u8
    }
}

/// Applies the brightness boost to one channel.
pub fn boost_channel(channel: u8, boost_millis: u32) -> (r: u8)
    ensures
        r == boost_channel_spec(channel, boost_millis),
{
    assert((channel as u64) * (boost_millis as u64) <= 255u64 * 0xffff_ffffu64)
        by (nonlinear_arith)
        requires
            channel <= 255,
            boost_millis <= 0xffff_ffffu64,
    ;
    let v: u64 = (channel as u64) * (boost_millis as u64) / 1000;
    if v > 255 {
        255
    } else {
        v as u8
    }
}

/// A foreground color under brightness boost: each of red, green and blue is
/// boosted and clamped independently; alpha passes through unchanged.
pub open spec fn boosted_color_spec(c: Color, boost_millis: u32) -> Color {
    Color {
        r: boost_channel_spec(c.r, boost_millis),
        g: boost_channel_spec(c.g, boost_millis),
        b: boost_channel_spec(c.b, boost_millis),
        a: c.a,
    }
}

/// Applies the brightness boost to a foreground color.
pub fn boosted_color(c: Color, boost_millis: u32) -> (r: Color)
    ensures
        r == boosted_color_spec(c, boost_millis),
{
    Color {
        r: boost_channel(c.r, boost_millis),
        g: boost_channel(c.g, boost_millis),
        b: boost_channel(c.b, boost_millis),
        a: c.a,
    }
}

/// The widest line's cell count: the column count of the output grid.
pub open spec fn max_line_len(lines: Seq<Seq<Cell>>) -> nat
    decreases lines.len(),
{
    if lines.len() == 0 {
        0
    } else {
        let rest = max_line_len(lines.drop_last());
        if lines.last().len() > rest {
            lines.last().len()
        } else {
            rest
        }
    }
}

/// No line is wider than the widest.
pub proof fn lemma_max_line_len_bound(lines: Seq<Seq<Cell>>, i: int)
    requires
        0 <= i < lines.len(),
    ensures
        lines[i].len() <= max_line_len(lines),
    decreases lines.len(),
{
    if i + 1 < lines.len() {
        lemma_max_line_len_bound(lines.drop_last(), i);
        assert(lines.drop_last()[i] == lines[i]);
    }
}

/// Where every line reaches the same width, the grid is exactly that wide, so
/// a rasterized buffer spans that cell count times the cell width in pixels.
pub proof fn lemma_full_width_grid(lines: Seq<Seq<Cell>>, columns: nat)
    requires
        lines.len() > 0,
        forall|i: int| 0 <= i < lines.len() ==> #[trigger] lines[i].len() == columns,
    ensures
        max_line_len(lines) == columns,
    decreases lines.len(),
{
    if lines.len() == 1 {
        assert(lines.last() == lines[0]);
        assert(lines.drop_last() =~= Seq::<Seq<Cell>>::empty());
        assert(max_line_len(lines.drop_last()) == 0);
    } else {
        assert(forall|i: int|
            0 <= i < lines.drop_last().len() ==> #[trigger] lines.drop_last()[i].len()
                == columns);
        lemma_full_width_grid(lines.drop_last(), columns);
        assert(lines.last() == lines[lines.len() - 1]);
    }
}

/// Computes the widest line's cell count.
pub fn grid_columns(lines: &Vec<Vec<Cell>>) -> (r: usize)
    ensures
        r == max_line_len(views_of(lines@)),
{
    let ghost lv = views_of(lines@);
    let mut max_cols: usize = 0;
    let mut k: usize = 0;
    proof {
        assert(lv.take(0) =~= Seq::<Seq<Cell>>::empty());
    }
    while k < lines.len()
        invariant
            0 <= k <= lines@.len(),
            lv == views_of(lines@),
            lv.len() == lines@.len(),
            max_cols == max_line_len(lv.take(k as int)),
        decreases lines@.len() - k,
    {
        let l = lines[k].len();
        proof {
            assert(lv.take(k as int + 1).drop_last() =~= lv.take(k as int));
            assert(lv.take(k as int + 1).last() == lv[k as int]);
            assert(lines@[k as int]@ == lv[k as int]);
        }
        if l > max_cols {
            max_cols = l;
        }
        k = k + 1;
    }
    proof {
        assert(lv.take(lines@.len() as int) =~= lv);
    }
    max_cols
}

/// One glyph to draw: the character `ch` at pixel origin `(x, y)`, in the
/// given (already brightness-adjusted) color, at a point size of one cell
/// height.
#[derive(Debug, Clone, Copy, PartialEq, Eq, Structural)]
pub struct GlyphCommand {
    pub ch: char,
    pub x: u32,
    pub y: u32,
    pub color: Color,
}

/// A pixel buffer, row-major, `width * height` pixels.
#[derive(Debug, PartialEq, Eq)]
pub struct PixelBuffer {
    pub width: u32,
    pub height: u32,
    pub data: Vec<Color>,
}

impl PixelBuffer {
    /// The buffer holds exactly one color per pixel.
    pub open spec fn wf(self) -> bool {
        self.data@.len() == self.width * self.height
    }

    /// The color at pixel `(x, y)`.
    pub open spec fn pixel_spec(self, x: int, y: int) -> Color {
        self.data@[y * self.width + x]
    }

    /// Reads the color at pixel `(x, y)`.
    pub fn pixel(&self, x: u32, y: u32) -> (r: Color)
        requires
            self.wf(),
            x < self.width,
            y < self.height,
        ensures
            r == self.pixel_spec(x as int, y as int),
    {
        let len = self.data.len();
        proof {
            lemma_grid_index_bound(self.width as int, self.height as int, x as int, y as int);
            assert((y as int) * (self.width as int) + (x as int) < len);
        }
        let idx: u64 = (y as u64) * (self.width as u64) + (x as u64);
        self.data[idx as usize]
    }

    /// Flattens the buffer into bytes, four per pixel, in `RGBA` order.
    pub fn to_rgba_bytes(&self) -> (r: Vec<u8>)
        requires
            4 * self.data@.len() <= usize::MAX,
        ensures
            r@.len() == 4 * self.data@.len(),
            forall|i: int|
                0 <= i < self.data@.len() ==> {
                    let c = #[trigger] self.data@[i];
                    &&& r@[4 * i] == c.r
                    &&& r@[4 * i + 1] == c.g
                    &&& r@[4 * i + 2] == c.b
                    &&& r@[4 * i + 3] == c.a
                },
    {
        let n = self.data.len();
        let mut bytes: Vec<u8> = Vec::new();
        let mut i: usize = 0;
        while i < n
            invariant
                0 <= i <= n,
                n == self.data@.len(),
                4 * n <= usize::MAX,
                bytes@.len() == 4 * i,
                forall|j: int|
                    0 <= j < i ==> {
                        let c = #[trigger] self.data@[j];
                        &&& bytes@[4 * j] == c.r
                        &&& bytes@[4 * j + 1] == c.g
                        &&& bytes@[4 * j + 2] == c.b
                        &&& bytes@[4 * j + 3] == c.a
                    },
            decreases n - i,
        {
            let c = self.data[i];
            bytes.push(c.r);
            bytes.push(c.g);
            bytes.push(c.b);
            bytes.push(c.a);
            i = i + 1;
        }
        bytes
    }
}

/// Inside a `width * height` grid, the row-major index of `(x, y)` is in
/// bounds.
proof fn lemma_grid_index_bound(width: int, height: int, x: int, y: int)
    requires
        0 <= x < width,
        0 <= y < height,
    ensures
        0 <= y * width + x < width * height,
{
    assert(y * width + x < width * height) by (nonlinear_arith)
        requires
            0 <= x < width,
            0 <= y < height,
    ;
}

/// The color of the output pixel `(px, py)`: the background of the cell the
/// pixel falls in, where that cell exists and carries one, else the base
/// background. Glyphs are not part of the buffer; they are drawn afterwards
/// from the command list.
pub open spec fn pixel_color_spec(
    lines: Seq<Seq<Cell>>,
    cfg: RenderConfig,
    px: int,
    py: int,
) -> Color
    recommends
        cfg.wf(),
{
    let row = py / (cfg.cell_height_px as int);
    let col = px / (cfg.cell_width_px as int);
    if 0 <= row < lines.len() && 0 <= col < lines[row].len() {
        match lines[row][col].bg {
            Some(c) => c,
            None => cfg.base_background,
        }
    } else {
        cfg.base_background
    }
}

/// The glyph commands of one line at grid row `row`: one command per cell,
/// left to right, each at its cell's pixel origin, with the boosted
/// foreground.
pub open spec fn line_commands_spec(line: Seq<Cell>, row: int, cfg: RenderConfig) -> Seq<
    GlyphCommand,
> {
    Seq::new(
        line.len(),
        |j: int|
            GlyphCommand {
                ch: line[j].ch,
                x: (j * cfg.cell_width_px) as u32,
                y: (row * cfg.cell_height_px) as u32,
                color: boosted_color_spec(line[j].fg, cfg.brightness_boost_millis),
            },
    )
}

/// The glyph commands of the first `k` lines, top to bottom.
pub open spec fn commands_upto(lines: Seq<Seq<Cell>>, cfg: RenderConfig, k: int) -> Seq<
    GlyphCommand,
>
    decreases k,
{
    if k <= 0 {
        Seq::<GlyphCommand>::empty()
    } else {
        commands_upto(lines, cfg, k - 1) + line_commands_spec(lines[k - 1], k - 1, cfg)
    }
}

/// All glyph commands of the grid, top to bottom, left to right.
pub open spec fn commands_spec(lines: Seq<Seq<Cell>>, cfg: RenderConfig) -> Seq<GlyphCommand> {
    commands_upto(lines, cfg, lines.len() as int)
}

proof fn lemma_gc_take_push(s: Seq<GlyphCommand>, x: int)
    requires
        0 <= x < s.len(),
    ensures
        s.take(x + 1) == s.take(x).push(s[x]),
{
    assert(s.take(x + 1) =~= s.take(x).push(s[x]));
}

proof fn lemma_gc_concat_push(a: Seq<GlyphCommand>, b: Seq<GlyphCommand>, v: GlyphCommand)
    ensures
        a + b.push(v) == (a + b).push(v),
{
    assert(a + b.push(v) =~= (a + b).push(v));
}

proof fn lemma_row_major_below(width: int, p: int, q: int, py: int)
    requires
        0 <= q < width,
        0 <= p < py,
    ensures
        0 <= p * width + q && p * width + q < py * width,
{
    assert(p * width + q < py * width) by (nonlinear_arith)
        requires
            0 <= q < width,
            0 <= p < py,
    ;
}

/// Rasterizes a grid of parsed cells.
///
/// The buffer is `columns * cell_width_px` by `rows * cell_height_px` pixels,
/// where `rows` is the number of lines and `columns` the widest line's cell
/// count; zero lines yield a zero-area buffer. Every pixel holds its cell's
/// background color where that cell exists and carries one, and the base
/// background everywhere else, so cells beyond a short line's end stay on the
/// base background. One glyph command per cell says what the font-rendering
/// collaborator must draw on top, with the brightness-boosted foreground.
pub fn rasterize(lines: &Vec<Vec<Cell>>, cfg: &RenderConfig) -> (r: (
    PixelBuffer,
    Vec<GlyphCommand>,
))
    requires
        cfg.wf(),
        lines@.len() * cfg.cell_height_px <= u32::MAX,
        max_line_len(views_of(lines@)) * cfg.cell_width_px <= u32::MAX,
        (max_line_len(views_of(lines@)) * cfg.cell_width_px) * (lines@.len()
            * cfg.cell_height_px) <= usize::MAX,
    ensures
        r.0.wf(),
        r.0.width == max_line_len(views_of(lines@)) * cfg.cell_width_px,
        r.0.height == lines@.len() * cfg.cell_height_px,
        forall|px: int, py: int|
            0 <= px < r.0.width && 0 <= py < r.0.height ==> #[trigger] r.0.pixel_spec(px, py)
                == pixel_color_spec(views_of(lines@), *cfg, px, py),
        r.1@ == commands_spec(views_of(lines@), *cfg),
{
    let ghost lv = views_of(lines@);
    let max_cols = grid_columns(lines);
    let width: u32 = ((max_cols as u64) * (cfg.cell_width_px as u64)) as u32;
    let height: u32 = ((lines.len() as u64) * (cfg.cell_height_px as u64)) as u32;
    assert((width as u64) * (height as u64) <= 0xffff_ffffu64 * 0xffff_ffffu64)
        by (nonlinear_arith)
        requires
            width <= 0xffff_ffffu64,
            height <= 0xffff_ffffu64,
    ;
    let total: usize = ((width as u64) * (height as u64)) as usize;
    let mut data: Vec<Color> = Vec::new();
    let mut py: u32 = 0;
    while py < height
        invariant
            0 <= py <= height,
            cfg.wf(),
            lv == views_of(lines@),
            lv.len() == lines@.len(),
            data@.len() == (py as int) * (width as int),
            forall|p: int, q: int|
                0 <= p < py && 0 <= q < width ==> #[trigger] data@[p * width + q]
                    == pixel_color_spec(lv, *cfg, q, p),
        decreases height - py,
    {
        let mut px: u32 = 0;
        while px < width
            invariant
                0 <= px <= width,
                py < height,
                cfg.wf(),
                lv == views_of(lines@),
                lv.len() == lines@.len(),
                data@.len() == (py as int) * (width as int) + px,
                forall|p: int, q: int|
                    0 <= p < py && 0 <= q < width ==> #[trigger] data@[p * width + q]
                        == pixel_color_spec(lv, *cfg, q, p),
                forall|q: int|
                    0 <= q < px ==> #[trigger] data@[py * width + q] == pixel_color_spec(
                        lv,
                        *cfg,
                        q,
                        py as int,
                    ),
            decreases width - px,
        {
            let row = py / cfg.cell_height_px;
            let col = px / cfg.cell_width_px;
            let color = if (row as usize) < lines.len() {
                proof {
                    assert(lines@[row as int]@ == lv[row as int]);
                }
                let line = &lines[row as usize];
                if (col as usize) < line.len() {
                    match line[col as usize].bg {
                        Some(c) => c,
                        None => cfg.base_background,
                    }
                } else {
                    cfg.base_background
                }
            } else {
                cfg.base_background
            };
            proof {
                assert(color == pixel_color_spec(lv, *cfg, px as int, py as int));
            }
            let ghost old_data = data@;
            data.push(color);
            proof {
                assert forall|p: int, q: int|
                    0 <= p < py && 0 <= q < width implies 0 <= #[trigger] (p * width + q)
                    < old_data.len() by {
                    lemma_row_major_below(width as int, p, q, py as int);
                };
                assert(forall|p: int, q: int|
                    0 <= p < py && 0 <= q < width ==> #[trigger] data@[p * width + q]
                        == pixel_color_spec(lv, *cfg, q, p));
                assert(data@[py * width + px] == color);
            }
            px = px + 1;
        }
        py = py + 1;
        proof {
            assert((py as int) * (width as int) == (py - 1) * width + width) by (nonlinear_arith);
            assert(forall|p: int, q: int|
                0 <= p < py && 0 <= q < width ==> #[trigger] data@[p * width + q]
                    == pixel_color_spec(lv, *cfg, q, p));
        }
    }
    proof {
        assert((height as int) * (width as int) == (width as int) * (height as int))
            by (nonlinear_arith);
    }
    let buffer = PixelBuffer { width, height, data };
    let mut commands: Vec<GlyphCommand> = Vec::new();
    let mut y: usize = 0;
    while y < lines.len()
        invariant
            0 <= y <= lines@.len(),
            cfg.wf(),
            lv == views_of(lines@),
            lv.len() == lines@.len(),
            lines@.len() * cfg.cell_height_px <= u32::MAX,
            max_line_len(lv) * cfg.cell_width_px <= u32::MAX,
            commands@ == commands_upto(lv, *cfg, y as int),
        decreases lines@.len() - y,
    {
        let line = &lines[y];
        let ghost lcs = line_commands_spec(lv[y as int], y as int, *cfg);
        proof {
            assert(lines@[y as int]@ == lv[y as int]);
            assert(lcs.take(0) =~= Seq::<GlyphCommand>::empty());
            assert(commands@ + lcs.take(0) =~= commands@);
        }
        let mut x: usize = 0;
        while x < line.len()
            invariant
                0 <= x <= line@.len(),
                y < lines@.len(),
                cfg.wf(),
                lv == views_of(lines@),
                lv.len() == lines@.len(),
                line@ == lv[y as int],
                lines@.len() * cfg.cell_height_px <= u32::MAX,
                max_line_len(lv) * cfg.cell_width_px <= u32::MAX,
                lcs == line_commands_spec(lv[y as int], y as int, *cfg),
                commands@ == commands_upto(lv, *cfg, y as int) + lcs.take(x as int),
            decreases line@.len() - x,
        {
            let cell = line[x];
            proof {
                lemma_max_line_len_bound(lv, y as int);
                assert((x as int) * (cfg.cell_width_px as int) <= max_line_len(lv)
                    * cfg.cell_width_px) by (nonlinear_arith)
                    requires
                        0 <= x < lv[y as int].len(),
                        lv[y as int].len() <= max_line_len(lv),
                        cfg.cell_width_px >= 0,
                ;
                assert((y as int) * (cfg.cell_height_px as int) <= lines@.len()
                    * cfg.cell_height_px) by (nonlinear_arith)
                    requires
                        0 <= y < lines@.len(),
                        cfg.cell_height_px >= 0,
                ;
            }
            let gx: u32 = ((x as u64) * (cfg.cell_width_px as u64)) as u32;
            let gy: u32 = ((y as u64) * (cfg.cell_height_px as u64)) as u32;
            let gc = GlyphCommand {
                ch: cell.ch,
                x: gx,
                y: gy,
                color: boosted_color(cell.fg, cfg.brightness_boost_millis),
            };
            let ghost old_cmds = commands@;
            commands.push(gc);
            proof {
                assert(gc == lcs[x as int]);
                lemma_gc_take_push(lcs, x as int);
                lemma_gc_concat_push(
                    commands_upto(lv, *cfg, y as int),
                    lcs.take(x as int),
                    lcs[x as int],
                );
            }
            x = x + 1;
        }
        proof {
            assert(lcs.take(line@.len() as int) =~= lcs);
        }
        y = y + 1;
    }
    (buffer, commands)
}

} // verus!
