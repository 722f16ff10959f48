use rphys::color::{parse_hex_byte, parse_hex_color, parse_hex_color_vfx, Color, VfxConfigError};

#[test]
fn test_parse_color_rgba() {
    let c = parse_hex_color("#ff8800cc").expect("valid rgba color");
    assert_eq!(c, Color::rgba(0xff, 0x88, 0x00, 0xcc));
}

#[test]
fn test_parse_color_rgb() {
    let c = parse_hex_color("#1a2b3c").expect("valid rgb color");
    assert_eq!(c, Color::rgb(0x1a, 0x2b, 0x3c));
}

#[test]
fn test_parse_color_without_hash_is_rejected() {
    let err = parse_hex_color("ff0000").unwrap_err();
    assert!(err.contains("'#RRGGBB' or '#RRGGBBAA'"), "got: {err}");
}

#[test]
fn test_invalid_hex_color_returns_error() {
    let err = parse_hex_color("#xyz123").unwrap_err();
    assert!(err.contains("invalid hex"));
}

#[test]
fn test_invalid_hex_color_wrong_length() {
    let err = parse_hex_color("#ff00").unwrap_err();
    assert!(err.contains("'#RRGGBB' or '#RRGGBBAA'"));
}

#[test]
fn test_parse_hex_color_rgb() {
    let (r, g, b, a) = parse_hex_color_vfx("#FF8800", "test").unwrap();
    assert_eq!((r, g, b, a), (0xFF, 0x88, 0x00, 0xFF));
}

#[test]
fn test_parse_hex_color_rgba() {
    let (_r, _g, _b, a) = parse_hex_color_vfx("#FF880080", "test").unwrap();
    assert_eq!(a, 0x80);
}

#[test]
fn test_parse_hex_color_no_hash_fails() {
    assert!(parse_hex_color_vfx("FF8800", "test").is_err());
}

#[test]
fn color_messages_are_exact() {
    assert_eq!(
        parse_hex_color("ff0000").unwrap_err(),
        "color must be '#RRGGBB' or '#RRGGBBAA' hex, got 'ff0000'"
    );
    assert_eq!(parse_hex_color("#12345g").unwrap_err(), "invalid hex color '#12345g'");
    assert_eq!(parse_hex_color("#1234567").unwrap_err(), "color must be '#RRGGBB' or '#RRGGBBAA' hex, got '#1234567'");
}

#[test]
fn hex_groups_are_exactly_two_hex_digits() {
    assert_eq!(parse_hex_color("#+f+f+f").unwrap_err(), "invalid hex color '#+f+f+f'");
    assert!(parse_hex_color_vfx("#+f+f+f", "x").is_err());
    assert_eq!(parse_hex_color("#1\u{e9}234").unwrap_err(), "invalid hex color '#1\u{e9}234'");
    assert!(parse_hex_color_vfx("#1\u{e9}234", "x").is_err());
    assert!(parse_hex_color("#\u{e9}\u{e9}\u{e9}").is_err());
    assert_eq!(parse_hex_color("#aBcDeF").unwrap(), Color::rgb(0xab, 0xcd, 0xef));
}

#[test]
fn parse_hex_byte_takes_two_hex_digits() {
    for (s, expected) in [("00", Some(0u8)), ("7f", Some(0x7f)), ("FF", Some(255)), ("+a", None), ("g0", None), ("", None), ("-1", None), ("100", None), ("a", None)] {
        assert_eq!(parse_hex_byte(s, "#x").ok(), expected, "{s}");
    }
    assert_eq!(parse_hex_byte("zz", "#zzzzzz").unwrap_err(), "invalid hex color '#zzzzzz'");
}

#[test]
fn vfx_color_error_names_field_and_value() {
    match parse_hex_color_vfx("#12", "winner_pop.colors") {
        Err(VfxConfigError::InvalidColor { field, value }) => {
            assert_eq!(field, "winner_pop.colors");
            assert_eq!(value, "#12");
        }
        other => panic!("unexpected {other:?}"),
    }
}

#[test]
fn named_colors() {
    assert_eq!(Color::white(), Color::rgba(255, 255, 255, 255));
    assert_eq!(Color::black(), Color::rgba(0, 0, 0, 255));
}

#[test]
fn formatted_colors_read_back() {
    for c in [Color::rgba(0, 0, 0, 0), Color::rgba(255, 128, 7, 200), Color::rgba(0x1a, 0x2b, 0x3c, 0xff)] {
        let text = format!("#{:02x}{:02x}{:02x}{:02x}", c.r, c.g, c.b, c.a);
        assert_eq!(parse_hex_color(&text).unwrap(), c);
        assert_eq!(parse_hex_color_vfx(&text, "x").unwrap(), (c.r, c.g, c.b, c.a));
    }
}

#[test]
fn both_color_readers_agree() {
    let inputs = [
        "#000000", "#FFFFFF", "#12abCD", "#12abCD80", "#ff000000", "", "#", "ff0000", "#ff00", "#gg0000",
        "#+f+f+f", "#1é234", "#12345678x", "#ABCDEFab",
    ];
    for s in inputs.iter() {
        let scene = parse_hex_color(s);
        let vfx = parse_hex_color_vfx(s, "color");
        match (scene, vfx) {
            (Ok(c), Ok((r, g, b, a))) => assert_eq!((c.r, c.g, c.b, c.a), (r, g, b, a), "input {s:?}"),
            (Err(_), Err(VfxConfigError::InvalidColor { .. })) => {}
            other => panic!("readers disagree on {s:?}: {other:?}"),
        }
    }
}

#[test]
fn upper_case_rgb_colors_read_back_opaque() {
    for &(r, g, b) in [(0u8, 0u8, 0u8), (255, 255, 255), (0xAB, 0x0C, 0xF1), (10, 200, 99)].iter() {
        let text = format!("#{:02X}{:02X}{:02X}", r, g, b);
        assert_eq!(parse_hex_color(&text).unwrap(), Color::rgb(r, g, b));
    }
}
