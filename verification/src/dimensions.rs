//! Character-grid dimensions that preserve a source image's aspect ratio.

use vstd::prelude::*;

use crate::EngineError;

verus! {

/// Fixed ceiling on the character-grid width, capping runaway grid sizes.
pub const MAX_GRID_COLUMNS: u32 = 200;

/// The grid width: the requested maximum, held to the fixed ceiling and to a
/// minimum of one column.
pub open spec fn grid_columns_spec(max_columns: u32) -> u32 {
    let capped = if max_columns > MAX_GRID_COLUMNS {
        MAX_GRID_COLUMNS
    } else {
        max_columns
    };
    if capped < 1 {
        1u32
    } else {
        capped
    }
}

/// The grid height for a source of `width * height` pixels: the whole part of
/// `columns * height / (2 * width)`, held to a minimum of one row. The factor
/// two corrects for monospace glyph cells being twice as tall as wide; this is
/// the exact whole part of `columns / (aspect_ratio * 2)` with
/// `aspect_ratio = width / height`. A quotient beyond `u32::MAX` saturates.
pub open spec fn grid_rows_spec(width: u32, height: u32, columns: u32) -> u32
    recommends
        width > 0,
{
    let quotient = (columns * height) / (2 * width);
    if quotient < 1 {
        1u32
    } else if quotient > u32::MAX {
        u32::MAX
    } else {
        quotient as u32
    }
}

/// The grid `(columns, rows)` for the given source pixel size and requested
/// maximum width.
pub open spec fn grid_dims_spec(width: u32, height: u32, max_columns: u32) -> (u32, u32)
    recommends
        width > 0,
{
    (grid_columns_spec(max_columns), grid_rows_spec(width, height, grid_columns_spec(max_columns)))
}

/// The grid never has zero rows, and its column count is exactly the
/// requested maximum wherever that maximum already lies between one and the
/// fixed ceiling.
pub proof fn lemma_grid_dims(width: u32, height: u32, max_columns: u32)
    requires
        width >= 1,
        1 <= max_columns <= MAX_GRID_COLUMNS,
    ensures
        grid_dims_spec(width, height, max_columns).0 == max_columns,
        grid_dims_spec(width, height, max_columns).1 >= 1,
{
}

/// Computes the character grid `(columns, rows)` that best preserves the
/// aspect ratio of a `source_width * source_height` pixel image, with at most
/// `max_columns` columns (further capped at [`MAX_GRID_COLUMNS`]). Both
/// results are at least one. A source with zero width or height is rejected.
pub fn calculate_dimensions(source_width: u32, source_height: u32, max_columns: u32) -> (r: Result<
    (u32, u32),
    EngineError,
>)
    ensures
        match r {
            Ok(dims) => source_width > 0 && source_height > 0 && dims == grid_dims_spec(
                source_width,
                source_height,
                max_columns,
            ) && dims.0 >= 1 && dims.1 >= 1,
            Err(e) => (source_width == 0 || source_height == 0) && e
                == EngineError::InvalidImageDimensions,
        },
{
    if source_width == 0 || source_height == 0 {
        return Err(EngineError::InvalidImageDimensions);
    }
    let capped: u32 = if max_columns > MAX_GRID_COLUMNS {
        MAX_GRID_COLUMNS
    } else {
        max_columns
    };
    let columns: u32 = if capped < 1 {
        1
    } else {
        capped
    };
    assert((columns as u64) * (source_height as u64) <= 200u64 * 0xffff_ffffu64)
        by (nonlinear_arith)
        requires
            columns <= 200,
            source_height <= 0xffff_ffffu64,
    ;
    let numerator: u64 = (columns as u64) * (source_height as u64);
    let denominator: u64 = 2 * (source_width as u64);
    let quotient: u64 = numerator / denominator;
    let rows: u32 = if quotient < 1 {
        1
    } else if quotient > 0xffff_ffff {
        u32::MAX
    } else {
        quotient as u32
    };
    Ok((columns, rows))
}

} // verus!
