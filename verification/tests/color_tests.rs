use color_picker::color::{channel_text, parse_rgb_channel, CopyFormat, HslComponents, Rgb};
use color_picker::text::decimal_text;

fn green() -> Rgb {
    Rgb::new(50, 216, 122)
}

#[test]
fn new_keeps_channels() {
    let c = Rgb::new(1, 2, 3);
    assert_eq!((c.r, c.g, c.b), (1, 2, 3));
}

#[test]
fn hex_is_upper_case_with_two_digits_per_channel() {
    assert_eq!(green().hex(), "#32D87A");
    assert_eq!(Rgb::new(0, 10, 255).hex(), "#000AFF");
}

#[test]
fn rgb_and_rgba_notations() {
    assert_eq!(green().rgb(), "rgb(50, 216, 122)");
    assert_eq!(green().rgba(), "rgba(50, 216, 122, 1)");
    assert_eq!(Rgb::new(0, 0, 0).rgb(), "rgb(0, 0, 0)");
}

#[test]
fn hsl_notation_writes_the_given_components() {
    let hsl = HslComponents { hue: 146, saturation: 69, lightness: 52 };
    assert_eq!(green().hsl(hsl), "hsl(146, 69%, 52%)");
    let negative = HslComponents { hue: -5, saturation: 0, lightness: 100 };
    assert_eq!(green().hsl(negative), "hsl(-5, 0%, 100%)");
}

#[test]
fn css_variable_notation() {
    assert_eq!(green().css_variable(), "--color: #32D87A;");
}

#[test]
fn format_picks_the_notation() {
    let hsl = HslComponents { hue: 146, saturation: 69, lightness: 52 };
    assert_eq!(green().format(CopyFormat::Hex, hsl), "#32D87A");
    assert_eq!(green().format(CopyFormat::Rgb, hsl), "rgb(50, 216, 122)");
    assert_eq!(green().format(CopyFormat::Rgba, hsl), "rgba(50, 216, 122, 1)");
    assert_eq!(green().format(CopyFormat::Hsl, hsl), "hsl(146, 69%, 52%)");
    assert_eq!(green().format(CopyFormat::CssVariable, hsl), "--color: #32D87A;");
}

#[test]
fn labels_of_the_formats() {
    let labels: Vec<&str> = CopyFormat::ALL.iter().map(|f| f.label()).collect();
    assert_eq!(labels, vec!["HEX", "RGB", "RGBA", "HSL", "CSS variable"]);
}

#[test]
fn hex_input_accepts_both_cases_and_optional_hashes() {
    assert_eq!(Rgb::from_hex_input("#32D87A"), Some(green()));
    assert_eq!(Rgb::from_hex_input("32d87a"), Some(green()));
    assert_eq!(Rgb::from_hex_input("  ##32D87a\t"), Some(green()));
    assert_eq!(Rgb::from_hex_input("\u{3000}#32D87A\u{2003}"), Some(green()));
}

#[test]
fn hex_input_rejects_other_text() {
    assert_eq!(Rgb::from_hex_input(""), None);
    assert_eq!(Rgb::from_hex_input("#"), None);
    assert_eq!(Rgb::from_hex_input("#32D87"), None);
    assert_eq!(Rgb::from_hex_input("#32D87A0"), None);
    assert_eq!(Rgb::from_hex_input("#32G87A"), None);
    assert_eq!(Rgb::from_hex_input("# 32D87A"), None);
    assert_eq!(Rgb::from_hex_input("32D8é"), None);
    assert_eq!(Rgb::from_hex_input("+32D87A"), None);
}

#[test]
fn hex_input_reads_back_what_hex_writes() {
    for r in (0..=255u8).step_by(15) {
        for g in (0..=255u8).step_by(17) {
            for b in [0u8, 1, 127, 128, 254, 255] {
                let c = Rgb::new(r, g, b);
                assert_eq!(Rgb::from_hex_input(&c.hex()), Some(c));
            }
        }
    }
}

#[test]
fn channel_values_parse_like_u8() {
    assert_eq!(parse_rgb_channel("42"), Some(42));
    assert_eq!(parse_rgb_channel("  42 \n"), Some(42));
    assert_eq!(parse_rgb_channel("+7"), Some(7));
    assert_eq!(parse_rgb_channel("007"), Some(7));
    assert_eq!(parse_rgb_channel("0000000000000000255"), Some(255));
    assert_eq!(parse_rgb_channel("255"), Some(255));
    assert_eq!(parse_rgb_channel("256"), None);
    assert_eq!(parse_rgb_channel("99999999999999999999"), None);
    assert_eq!(parse_rgb_channel("-1"), None);
    assert_eq!(parse_rgb_channel("-0"), None);
    assert_eq!(parse_rgb_channel("+"), None);
    assert_eq!(parse_rgb_channel("++1"), None);
    assert_eq!(parse_rgb_channel(""), None);
    assert_eq!(parse_rgb_channel("   "), None);
    assert_eq!(parse_rgb_channel("1 2"), None);
    assert_eq!(parse_rgb_channel("12a"), None);
    assert_eq!(parse_rgb_channel("\u{a0}12\u{3000}"), Some(12));
}

#[test]
fn channel_values_read_back_what_is_written() {
    for v in 0..=255u8 {
        assert_eq!(parse_rgb_channel(&v.to_string()), Some(v));
        assert_eq!(parse_rgb_channel(&v.to_string()), v.to_string().trim().parse::<u8>().ok());
    }
}

#[test]
fn channel_text_is_decimal() {
    assert_eq!(channel_text(0), "0");
    assert_eq!(channel_text(7), "7");
    assert_eq!(channel_text(216), "216");
    for v in 0..=255u8 {
        assert_eq!(channel_text(v), v.to_string());
        assert_eq!(parse_rgb_channel(&channel_text(v)), Some(v));
    }
}

#[test]
fn decimal_text_matches_to_string() {
    for n in [0u64, 9, 10, 12, 36, 99, 100, 4096, u64::MAX] {
        assert_eq!(decimal_text(n), n.to_string());
    }
}
