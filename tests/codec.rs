use hati_settings::color::{alpha_from_text, format_color, parse_color, Color};

fn rgba(red: u8, green: u8, blue: u8, alpha: &str) -> Color {
    Color { red, green, blue, alpha: alpha.to_string() }
}

#[test]
fn parses_canonical_text() {
    assert_eq!(parse_color("rgba(12, 34, 56, 0.5)"), rgba(12, 34, 56, "0.5"));
    assert_eq!(parse_color("rgba(0, 255, 255, 1)"), rgba(0, 255, 255, "1"));
    assert_eq!(parse_color("rgba(255, 0, 0, 0)"), rgba(255, 0, 0, "0"));
}

#[test]
fn parses_loose_spacing_and_spellings() {
    assert_eq!(parse_color("rgba( 7 ,8,\t9 , 0.25 )"), rgba(7, 8, 9, "0.25"));
    assert_eq!(parse_color("rgba(0010, +2, 255, 1.0)"), rgba(10, 2, 255, "1"));
    assert_eq!(parse_color("rgba(1, 2, 3, +.50)"), rgba(1, 2, 3, "0.5"));
    assert_eq!(parse_color("rgba(1, 2, 3, 007.)"), rgba(1, 2, 3, "7"));
    assert_eq!(parse_color("rgba(1, 2, 3, 5e-1)"), rgba(1, 2, 3, "0.5"));
    assert_eq!(parse_color("rgba(1, 2, 3, -0)"), rgba(1, 2, 3, "0"));
}

#[test]
fn missing_frame_gives_default() {
    let d = rgba(99, 162, 255, "0.7");
    assert_eq!(parse_color(""), d);
    assert_eq!(parse_color("rgb(1, 2, 3, 0.5)"), d);
    assert_eq!(parse_color("rgba(1, 2, 3, 0.5"), d);
    assert_eq!(parse_color("1, 2, 3, 0.5)"), d);
    assert_eq!(parse_color("rgba("), d);
    assert_eq!(Color::fallback(), d);
}

#[test]
fn wrong_component_count_gives_default() {
    let d = rgba(99, 162, 255, "0.7");
    assert_eq!(parse_color("rgba(1, 2, 3)"), d);
    assert_eq!(parse_color("rgba(1, 2, 3, 0.5, 9)"), d);
    assert_eq!(parse_color("rgba()"), d);
}

#[test]
fn bad_component_falls_back_alone() {
    assert_eq!(parse_color("rgba(x, 20, 30, 0.4)"), rgba(99, 20, 30, "0.4"));
    assert_eq!(parse_color("rgba(10, 256, 30, 0.4)"), rgba(10, 162, 30, "0.4"));
    assert_eq!(parse_color("rgba(10, 20, -1, 0.4)"), rgba(10, 20, 255, "0.4"));
    assert_eq!(parse_color("rgba(10, 20, 30, abc)"), rgba(10, 20, 30, "0.7"));
    assert_eq!(parse_color("rgba(, , , )"), rgba(99, 162, 255, "0.7"));
    assert_eq!(parse_color("rgba(1.5, 2, 3, .)"), rgba(99, 2, 3, "0.7"));
}

#[test]
fn formats_fixed_template() {
    assert_eq!(format_color(&rgba(1, 22, 255, "0.7")), "rgba(1, 22, 255, 0.7)");
    assert_eq!(format_color(&rgba(0, 0, 0, "1")), "rgba(0, 0, 0, 1)");
    assert_eq!(format_color(&Color::fallback()), "rgba(99, 162, 255, 0.7)");
}

#[test]
fn rewrite_is_canonical() {
    let text = format_color(&parse_color("rgba(010, +2, 3 , 0.250)"));
    assert_eq!(text, "rgba(10, 2, 3, 0.25)");
    assert_eq!(format_color(&parse_color(&text)), text);
    assert_eq!(parse_color(&text), rgba(10, 2, 3, "0.25"));
}

#[test]
fn read_what_was_written() {
    for (r, g, b, a) in [(0u8, 0u8, 0u8, "0"), (255, 128, 9, "0.125"), (99, 162, 255, "0.7"), (1, 10, 100, "1"), (4, 5, 6, "-0.5"), (7, 8, 9, "250")] {
        let c = rgba(r, g, b, a);
        assert_eq!(parse_color(&format_color(&c)), c);
    }
}

#[test]
fn alpha_spelling() {
    assert_eq!(alpha_from_text("0.70"), Some("0.7".to_string()));
    assert_eq!(alpha_from_text("00.0"), Some("0".to_string()));
    assert_eq!(alpha_from_text("1"), Some("1".to_string()));
    assert_eq!(alpha_from_text(".05"), Some("0.05".to_string()));
    assert_eq!(alpha_from_text(""), None);
    assert_eq!(alpha_from_text("."), None);
    assert_eq!(alpha_from_text(" 0.5"), None);
    assert_eq!(alpha_from_text("inf"), None);
    assert_eq!(alpha_from_text("NaN"), None);
    assert_eq!(alpha_from_text("1e"), None);
    assert_eq!(alpha_from_text("e5"), None);
    assert_eq!(alpha_from_text("1e+"), None);
    assert_eq!(alpha_from_text("0.5x"), None);
}

#[test]
fn alpha_exponent_and_sign() {
    assert_eq!(alpha_from_text("1e-1"), Some("0.1".to_string()));
    assert_eq!(alpha_from_text("5e-1"), Some("0.5".to_string()));
    assert_eq!(alpha_from_text("2.5E+2"), Some("250".to_string()));
    assert_eq!(alpha_from_text("1.e1"), Some("10".to_string()));
    assert_eq!(alpha_from_text(".0125e2"), Some("1.25".to_string()));
    assert_eq!(alpha_from_text("7e-3"), Some("0.007".to_string()));
    assert_eq!(alpha_from_text("120e-2"), Some("1.2".to_string()));
    assert_eq!(alpha_from_text("0e0"), Some("0".to_string()));
    assert_eq!(alpha_from_text("-0"), Some("0".to_string()));
    assert_eq!(alpha_from_text("-0.0e5"), Some("0".to_string()));
    assert_eq!(alpha_from_text("-0.5"), Some("-0.5".to_string()));
    assert_eq!(alpha_from_text("+1E0"), Some("1".to_string()));
    assert_eq!(alpha_from_text("1e1001"), None);
    assert_eq!(alpha_from_text("1e-1001"), None);
    assert!(alpha_from_text("1e1000").is_some());
}
