use std::io::Cursor;

use ansi_raster::color::Color;
use ansi_raster::render::AsciiRenderer;
use ansi_raster::EngineError;

#[test]
fn renderer_configuration() {
    let r = AsciiRenderer::new(400, 150);
    assert_eq!(r.config.cell_width_px, 9);
    assert_eq!(r.config.cell_height_px, 18);
    assert_eq!(r.config.base_background, Color { r: 0, g: 0, b: 0, a: 255 });
    assert_eq!(r.config.brightness_boost_millis, 400);
    assert_eq!(r.config.max_columns, 150);
    assert_eq!(AsciiRenderer::new(400, 10_000).config.max_columns, 200);
}

#[test]
fn grid_for_encoded_image() {
    let img = image::RgbaImage::from_pixel(300, 100, image::Rgba([7, 7, 7, 255]));
    let mut bytes: Vec<u8> = Vec::new();
    img.write_to(&mut Cursor::new(&mut bytes), image::ImageFormat::Png)
        .unwrap();
    let r = AsciiRenderer::new(1000, 150);
    assert_eq!(r.grid_for_image(&bytes), Ok((150, 25)));
}

#[test]
fn undecodable_bytes_are_rejected() {
    let r = AsciiRenderer::new(1000, 150);
    assert_eq!(
        r.grid_for_image(&[1, 2, 3, 4]),
        Err(EngineError::InvalidImageDimensions)
    );
}

#[test]
fn full_width_lines_fill_the_buffer() {
    let r = AsciiRenderer::new(1000, 150);
    assert_eq!(r.calculate_ascii_dimensions(300, 100), Ok((150, 25)));
    let line = "x".repeat(150);
    let mut text = String::new();
    for _ in 0..25 {
        text.push_str(&line);
        text.push('\n');
    }
    let (buffer, commands) = r.render_to_image(&text);
    assert_eq!(buffer.width, 150 * 9);
    assert_eq!(buffer.height, 25 * 18);
    assert_eq!(commands.len(), 150 * 25);
}

#[test]
fn rendered_background_pixels() {
    let r = AsciiRenderer::new(1000, 150);
    let (buffer, commands) = r.render_to_image("\x1b[48;2;10;20;30mA\x1b[0mB");
    assert_eq!(buffer.width, 18); // two 9-pixel cells
    assert_eq!(buffer.height, 18);
    assert_eq!(buffer.pixel(0, 0), Color { r: 10, g: 20, b: 30, a: 255 });
    assert_eq!(buffer.pixel(8, 17), Color { r: 10, g: 20, b: 30, a: 255 });
    assert_eq!(buffer.pixel(9, 0), Color { r: 0, g: 0, b: 0, a: 255 });
    assert_eq!(commands.len(), 2);
    assert_eq!(commands[0].ch, 'A');
    assert_eq!(commands[1].ch, 'B');
    assert_eq!(commands[1].x, 9);
}

#[test]
fn checked_rendering_matches_unchecked() {
    let r = AsciiRenderer::new(1000, 150);
    let text = "\x1b[48;2;10;20;30mA\x1b[0mB\nCD";
    let (buffer, commands) = r.try_render_to_image(text).unwrap();
    let (buffer2, commands2) = r.render_to_image(text);
    assert_eq!(buffer, buffer2);
    assert_eq!(commands, commands2);
    assert_eq!(buffer.width, 18);
    assert_eq!(buffer.height, 36);
}

#[test]
fn rendering_empty_text_yields_zero_area() {
    let r = AsciiRenderer::new(1000, 150);
    let (buffer, commands) = r.render_to_image("");
    assert_eq!(buffer.width, 0);
    assert_eq!(buffer.height, 0);
    assert_eq!(commands.len(), 0);
}
