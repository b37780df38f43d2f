use ansi_raster::ansi::Cell;
use ansi_raster::color::Color;
use ansi_raster::raster::{boost_channel, boosted_color, rasterize, RenderConfig};

fn color(r: u8, g: u8, b: u8, a: u8) -> Color {
    Color { r, g, b, a }
}

const WHITE: Color = Color { r: 255, g: 255, b: 255, a: 255 };
const BLACK: Color = Color { r: 0, g: 0, b: 0, a: 255 };

fn config(cw: u32, ch: u32, boost: u32) -> RenderConfig {
    RenderConfig {
        cell_width_px: cw,
        cell_height_px: ch,
        base_background: BLACK,
        brightness_boost_millis: boost,
        max_columns: 200,
    }
}

fn cell(ch: char, fg: Color, bg: Option<Color>) -> Cell {
    Cell { ch, fg, bg }
}

#[test]
fn boost_is_multiplicative_and_clamped() {
    assert_eq!(boost_channel(200, 2000), 255);
    assert_eq!(boost_channel(100, 2000), 200);
    assert_eq!(boost_channel(200, 1000), 200);
    assert_eq!(boost_channel(200, 500), 100);
    assert_eq!(boost_channel(0, 2000), 0);
}

#[test]
fn boost_passes_alpha_through() {
    assert_eq!(
        boosted_color(color(200, 10, 0, 77), 2000),
        color(255, 20, 0, 77)
    );
}

#[test]
fn empty_grid_makes_zero_area_buffer() {
    let (buffer, commands) = rasterize(&vec![], &config(9, 18, 1000));
    assert_eq!(buffer.width, 0);
    assert_eq!(buffer.height, 0);
    assert_eq!(buffer.data.len(), 0);
    assert_eq!(commands.len(), 0);
}

#[test]
fn backgrounds_fill_their_cell_only() {
    let red = color(200, 0, 0, 255);
    let lines = vec![vec![
        cell('a', WHITE, Some(red)),
        cell('b', WHITE, None),
    ]];
    let (buffer, commands) = rasterize(&lines, &config(2, 3, 1000));
    assert_eq!(buffer.width, 4);
    assert_eq!(buffer.height, 3);
    for y in 0..3 {
        for x in 0..4 {
            let expected = if x < 2 { red } else { BLACK };
            assert_eq!(buffer.pixel(x, y), expected, "pixel ({}, {})", x, y);
        }
    }
    assert_eq!(commands.len(), 2);
    assert_eq!(commands[0].ch, 'a');
    assert_eq!((commands[0].x, commands[0].y), (0, 0));
    assert_eq!(commands[1].ch, 'b');
    assert_eq!((commands[1].x, commands[1].y), (2, 0));
    assert_eq!(commands[0].color, WHITE);
}

#[test]
fn short_lines_leave_base_background() {
    let green = color(0, 150, 0, 255);
    let lines = vec![
        vec![cell('x', WHITE, Some(green))],
        vec![cell('y', WHITE, Some(green)), cell('z', WHITE, Some(green))],
    ];
    let (buffer, _) = rasterize(&lines, &config(1, 1, 1000));
    assert_eq!(buffer.width, 2);
    assert_eq!(buffer.height, 2);
    assert_eq!(buffer.pixel(0, 0), green);
    assert_eq!(buffer.pixel(1, 0), BLACK); // beyond the first line's end
    assert_eq!(buffer.pixel(0, 1), green);
    assert_eq!(buffer.pixel(1, 1), green);
}

#[test]
fn commands_carry_boosted_foreground() {
    let lines = vec![vec![cell('q', color(100, 200, 0, 128), None)]];
    let (_, commands) = rasterize(&lines, &config(9, 18, 2000));
    assert_eq!(commands.len(), 1);
    assert_eq!(commands[0].color, color(200, 255, 0, 128));
}

#[test]
fn rgba_bytes_are_flat_row_major() {
    let lines = vec![vec![cell('a', WHITE, Some(color(1, 2, 3, 255)))]];
    let (buffer, _) = rasterize(&lines, &config(2, 1, 1000));
    let bytes = buffer.to_rgba_bytes();
    assert_eq!(bytes, vec![1, 2, 3, 255, 1, 2, 3, 255]);
}
