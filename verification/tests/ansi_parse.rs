use ansi_raster::ansi::{default_state, AnsiColor, Cell};
use ansi_raster::color::Color;
use ansi_raster::parser::parse;
use ansi_raster::render::AsciiRenderer;

fn color(r: u8, g: u8, b: u8, a: u8) -> Color {
    Color { r, g, b, a }
}

const WHITE: Color = Color { r: 255, g: 255, b: 255, a: 255 };

fn cell(ch: char, fg: Color, bg: Option<Color>) -> Cell {
    Cell { ch, fg, bg }
}

#[test]
fn foreground_then_reset() {
    let lines = parse("\x1b[38;2;10;20;30mA\x1b[0mB");
    assert_eq!(lines.len(), 1);
    assert_eq!(
        lines[0],
        vec![
            cell('A', color(10, 20, 30, 255), None),
            cell('B', WHITE, None),
        ]
    );
}

#[test]
fn unknown_code_is_inert() {
    let lines = parse("\x1b[99;1mX");
    assert_eq!(lines.len(), 1);
    assert_eq!(lines[0], vec![cell('X', WHITE, None)]);
}

#[test]
fn unknown_code_keeps_earlier_colors() {
    let lines = parse("\x1b[38;2;1;2;3m\x1b[48;2;4;5;6m\x1b[99;1mX");
    assert_eq!(
        lines[0],
        vec![cell('X', color(1, 2, 3, 255), Some(color(4, 5, 6, 255)))]
    );
}

#[test]
fn background_code_sets_background() {
    let lines = parse("\x1b[48;2;1;2;3mZ");
    assert_eq!(lines[0], vec![cell('Z', WHITE, Some(color(1, 2, 3, 255)))]);
}

#[test]
fn reset_clears_background_too() {
    let lines = parse("\x1b[48;2;1;2;3mA\x1b[0mB");
    assert_eq!(
        lines[0],
        vec![
            cell('A', WHITE, Some(color(1, 2, 3, 255))),
            cell('B', WHITE, None),
        ]
    );
}

#[test]
fn color_state_persists_across_lines() {
    let lines = parse("\x1b[38;2;9;8;7mA\nB");
    assert_eq!(lines.len(), 2);
    assert_eq!(lines[0], vec![cell('A', color(9, 8, 7, 255), None)]);
    assert_eq!(lines[1], vec![cell('B', color(9, 8, 7, 255), None)]);
}

#[test]
fn esc_without_bracket_discards_only_the_esc() {
    let lines = parse("a\x1bXbc");
    assert_eq!(
        lines[0],
        vec![
            cell('a', WHITE, None),
            cell('X', WHITE, None),
            cell('b', WHITE, None),
            cell('c', WHITE, None),
        ]
    );
}

#[test]
fn esc_before_esc_still_opens_an_escape() {
    // The first ESC is unrecognized and discarded; the second one, followed
    // by `[`, starts an ordinary escape sequence.
    let lines = parse("\x1b\x1b[38;2;1;2;3mQ");
    assert_eq!(lines[0], vec![cell('Q', color(1, 2, 3, 255), None)]);
}

#[test]
fn trailing_esc_is_discarded() {
    let lines = parse("ab\x1b");
    assert_eq!(lines[0], vec![cell('a', WHITE, None), cell('b', WHITE, None)]);
}

#[test]
fn unterminated_code_still_applies() {
    let lines = parse("\x1b[38;2;5;6;7\nX");
    assert_eq!(lines.len(), 2);
    assert_eq!(lines[0], vec![]);
    assert_eq!(lines[1], vec![cell('X', color(5, 6, 7, 255), None)]);
}

#[test]
fn lines_split_on_crlf_too() {
    let lines = parse("A\r\nB\n");
    assert_eq!(lines.len(), 2);
    assert_eq!(lines[0], vec![cell('A', WHITE, None)]);
    assert_eq!(lines[1], vec![cell('B', WHITE, None)]);
}

#[test]
fn empty_text_has_no_lines() {
    let lines = parse("");
    assert_eq!(lines.len(), 0);
}

#[test]
fn parse_ansi_rgb_codes() {
    let r = AsciiRenderer::new(1000, 150);
    assert_eq!(
        r.parse_ansi_rgb("38;2;1;2;3"),
        Some(AnsiColor::Foreground(color(1, 2, 3, 255)))
    );
    assert_eq!(
        r.parse_ansi_rgb("48;2;200;100;50"),
        Some(AnsiColor::Background(color(200, 100, 50, 255)))
    );
    assert_eq!(r.parse_ansi_rgb("0"), Some(AnsiColor::Reset));
    assert_eq!(r.parse_ansi_rgb("99"), None);
    assert_eq!(r.parse_ansi_rgb("38;2;256;0;0"), None);
    assert_eq!(r.parse_ansi_rgb("38;2;1;2"), None);
    assert_eq!(r.parse_ansi_rgb("38;2;1;2;x"), None);
    assert_eq!(r.parse_ansi_rgb(""), None);
    // Extra fields after a full color code are ignored.
    assert_eq!(
        r.parse_ansi_rgb("38;2;1;2;3;4"),
        Some(AnsiColor::Foreground(color(1, 2, 3, 255)))
    );
}

#[test]
fn count_visible_chars_strips_escapes() {
    let r = AsciiRenderer::new(1000, 150);
    assert_eq!(r.count_visible_chars("\x1b[38;2;1;2;3mAB\x1b[0mC"), 3);
    assert_eq!(r.count_visible_chars(""), 0);
    assert_eq!(r.count_visible_chars("\x1b[0m"), 0);
}

#[test]
fn parse_colored_line_threads_state() {
    let r = AsciiRenderer::new(1000, 150);
    let (cells, st) = r.parse_colored_line("\x1b[38;2;1;2;3mQ", default_state());
    assert_eq!(cells, vec![cell('Q', color(1, 2, 3, 255), None)]);
    assert_eq!(st.fg, color(1, 2, 3, 255));
    let (cells2, st2) = r.parse_colored_line("W", st);
    assert_eq!(cells2, vec![cell('W', color(1, 2, 3, 255), None)]);
    assert_eq!(st2, st);
}
