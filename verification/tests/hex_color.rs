use ansi_raster::color::{parse_hex_color, Color};
use ansi_raster::EngineError;

fn color(r: u8, g: u8, b: u8, a: u8) -> Color {
    Color { r, g, b, a }
}

#[test]
fn six_digit_opaque() {
    assert_eq!(parse_hex_color("ff00aa"), Ok(color(255, 0, 170, 255)));
    assert_eq!(parse_hex_color("FF00AA"), Ok(color(255, 0, 170, 255)));
    assert_eq!(parse_hex_color("000000"), Ok(color(0, 0, 0, 255)));
}

#[test]
fn prefixes_are_stripped() {
    assert_eq!(parse_hex_color("#ff00aa"), Ok(color(255, 0, 170, 255)));
    assert_eq!(parse_hex_color("0xff00aa"), Ok(color(255, 0, 170, 255)));
    assert_eq!(parse_hex_color("0Xff00aa"), Ok(color(255, 0, 170, 255)));
    assert_eq!(parse_hex_color("#F0A"), Ok(color(255, 0, 170, 255)));
}

#[test]
fn nibble_replication_matches_expanded_form() {
    assert_eq!(parse_hex_color("F0A"), parse_hex_color("FF00AA"));
    assert_eq!(parse_hex_color("F0A"), Ok(color(255, 0, 170, 255)));
    assert_eq!(parse_hex_color("123"), Ok(color(0x11, 0x22, 0x33, 255)));
}

#[test]
fn four_digit_carries_alpha() {
    assert_eq!(parse_hex_color("f0a8"), Ok(color(255, 0, 170, 136)));
    assert_eq!(parse_hex_color("f0a8"), parse_hex_color("ff00aa88"));
}

#[test]
fn eight_digit_carries_alpha() {
    assert_eq!(parse_hex_color("ff00aa88"), Ok(color(255, 0, 170, 136)));
    assert_eq!(parse_hex_color("01020304"), Ok(color(1, 2, 3, 4)));
}

#[test]
fn wrong_length_is_rejected() {
    let cases = [
        ("", ""),
        ("f", "f"),
        ("ff", "ff"),
        ("fffff", "fffff"),
        ("fffffff", "fffffff"),
        ("fffffffff", "fffffffff"),
        ("#FF", "ff"),
        ("0xfffff", "fffff"),
    ];
    for (bad, offending) in cases {
        match parse_hex_color(bad) {
            Err(EngineError::InvalidColor(s)) => assert_eq!(s, offending),
            other => panic!("expected InvalidColor for {:?}, got {:?}", bad, other),
        }
    }
}

#[test]
fn non_hex_digit_is_rejected() {
    let cases = [
        ("ggg", "ggg"),
        ("12345z", "12345z"),
        ("ff00a-", "ff00a-"),
        ("#XYZ", "xyz"),
        ("0x12G4", "12g4"),
    ];
    for (bad, offending) in cases {
        match parse_hex_color(bad) {
            Err(EngineError::InvalidColor(s)) => assert_eq!(s, offending),
            other => panic!("expected InvalidColor for {:?}, got {:?}", bad, other),
        }
    }
}

#[test]
fn invalid_inputs_report_the_stripped_lowercased_text() {
    match parse_hex_color("GG") {
        Err(EngineError::InvalidColor(s)) => assert_eq!(s, "gg"),
        other => panic!("expected InvalidColor, got {:?}", other),
    }
    // The report is the same whichever prefix or case the input came in.
    assert_eq!(parse_hex_color("GG"), parse_hex_color("#gg"));
    assert_eq!(parse_hex_color("GG"), parse_hex_color("0xGg"));
    assert_eq!(parse_hex_color("GG"), parse_hex_color("0XgG"));
}
