use ansi_raster::dimensions::{calculate_dimensions, MAX_GRID_COLUMNS};
use ansi_raster::EngineError;

#[test]
fn square_image_at_hundred_columns() {
    assert_eq!(calculate_dimensions(100, 100, 100), Ok((100, 50)));
}

#[test]
fn rows_are_never_zero() {
    assert_eq!(calculate_dimensions(10_000, 1, 200), Ok((200, 1)));
    assert_eq!(calculate_dimensions(4, 1, 4), Ok((4, 1)));
    assert_eq!(calculate_dimensions(1, 1, 1), Ok((1, 1)));
}

#[test]
fn columns_are_capped() {
    assert_eq!(MAX_GRID_COLUMNS, 200);
    assert_eq!(calculate_dimensions(100, 100, 1_000), Ok((200, 100)));
}

#[test]
fn zero_columns_become_one() {
    assert_eq!(calculate_dimensions(100, 100, 0), Ok((1, 1)));
}

#[test]
fn zero_sides_are_rejected() {
    assert_eq!(
        calculate_dimensions(0, 5, 100),
        Err(EngineError::InvalidImageDimensions)
    );
    assert_eq!(
        calculate_dimensions(5, 0, 100),
        Err(EngineError::InvalidImageDimensions)
    );
}

#[test]
fn wide_source_grid() {
    assert_eq!(calculate_dimensions(300, 100, 150), Ok((150, 25)));
}

#[test]
fn tall_source_rounds_down() {
    // 100 * 300 / (2 * 100) = 150 rows for a 1:3 image at 100 columns.
    assert_eq!(calculate_dimensions(100, 300, 100), Ok((100, 150)));
    // 7 * 5 / (2 * 9) = 1 (floor of 35/18).
    assert_eq!(calculate_dimensions(9, 5, 7), Ok((7, 1)));
}
