use rustlock::util::{
    format_blur_effect, format_hex_color, parse_blur_effect, parse_hex_color, split_pair,
    split_vignette_effect, HexColor,
};

#[test]
fn hex_colors_parse() {
    assert_eq!(parse_hex_color("#FF8000"), Ok(HexColor { r: 255, g: 128, b: 0, a: 255 }));
    assert_eq!(parse_hex_color("ff800080"), Ok(HexColor { r: 255, g: 128, b: 0, a: 128 }));
    assert_eq!(parse_hex_color("##00ff00"), Ok(HexColor { r: 0, g: 255, b: 0, a: 255 }));
    assert_eq!(parse_hex_color("785412"), Ok(HexColor { r: 0x78, g: 0x54, b: 0x12, a: 255 }));
    assert_eq!(parse_hex_color("00000088"), Ok(HexColor { r: 0, g: 0, b: 0, a: 0x88 }));
    // a field may be a plus sign and one digit
    assert_eq!(parse_hex_color("0F0000"), Ok(HexColor { r: 15, g: 0, b: 0, a: 255 }));
}

#[test]
fn hex_color_errors() {
    let len = "Color must be 6 (RRGGBB) or 8 (RRGGBBAA)".to_string();
    assert_eq!(parse_hex_color("12345"), Err(len.clone()));
    assert_eq!(parse_hex_color("1234567"), Err(len.clone()));
    assert_eq!(parse_hex_color(""), Err(len));
    assert_eq!(parse_hex_color("gg0000"), Err("Invalid red".to_string()));
    assert_eq!(parse_hex_color("00zz00"), Err("Invalid green".to_string()));
    assert_eq!(parse_hex_color("0000-1"), Err("Invalid blue".to_string()));
    assert_eq!(parse_hex_color("000000+x"), Err("Invalid alpha".to_string()));
    assert_eq!(parse_hex_color("+f0000"), Err("Invalid red".to_string()));
    assert_eq!(parse_hex_color("+f+f+f"), Err("Invalid red".to_string()));
    assert_eq!(parse_hex_color("00+f00"), Err("Invalid green".to_string()));
    assert_eq!(parse_hex_color("zz0000"), Err("Invalid red".to_string()));
}

#[test]
fn hex_colors_print_and_parse_back() {
    let c = HexColor { r: 255, g: 0, b: 16, a: 255 };
    assert_eq!(format_hex_color(c), "ff0010");
    let t = HexColor { r: 1, g: 171, b: 205, a: 128 };
    assert_eq!(format_hex_color(t), "01abcd80");
    assert_eq!(parse_hex_color(&format_hex_color(c)), Ok(c));
    assert_eq!(parse_hex_color(&format_hex_color(t)), Ok(t));
}

#[test]
fn hex_colors_print_as_lower_case_input() {
    let cases = [
        ("#AB12CDff", "ab12cd"),
        ("##aB12Cd", "ab12cd"),
        ("AB12CD7F", "ab12cd7f"),
        ("0a0B0cFF", "0a0b0c"),
        ("ffffff00", "ffffff00"),
    ];
    for (input, printed) in cases {
        let c = parse_hex_color(input).unwrap();
        assert_eq!(format_hex_color(c), printed);
        assert_eq!(parse_hex_color(printed), Ok(c));
    }
}

#[test]
fn blur_effects_parse() {
    assert_eq!(parse_blur_effect("7x5"), Ok((7, 5)));
    assert_eq!(parse_blur_effect("+7x05"), Ok((7, 5)));
    assert_eq!(parse_blur_effect("4294967295x0"), Ok((4294967295, 0)));
    let shape = "Blur must be radiusxtimes".to_string();
    assert_eq!(parse_blur_effect("7"), Err(shape.clone()));
    assert_eq!(parse_blur_effect("7x5x1"), Err(shape));
    assert_eq!(parse_blur_effect("ax5"), Err("Invalid radius".to_string()));
    assert_eq!(parse_blur_effect("x5"), Err("Invalid radius".to_string()));
    assert_eq!(parse_blur_effect("-1x5"), Err("Invalid radius".to_string()));
    assert_eq!(parse_blur_effect("4294967296x1"), Err("Invalid radius".to_string()));
    assert_eq!(parse_blur_effect("7xb"), Err("Invalid times".to_string()));
    assert_eq!(parse_blur_effect("7x+"), Err("Invalid times".to_string()));
}

#[test]
fn blur_effects_print_and_parse_back() {
    assert_eq!(format_blur_effect(7, 5), "7x5");
    assert_eq!(format_blur_effect(0, 4294967295), "0x4294967295");
    assert_eq!(parse_blur_effect(&format_blur_effect(123, 45)), Ok((123, 45)));
}

#[test]
fn vignette_fields_split() {
    assert_eq!(
        split_vignette_effect("0.5:0.25"),
        Ok(("0.5".to_string(), "0.25".to_string()))
    );
    let shape = "Vignette must be base:factor".to_string();
    assert_eq!(split_vignette_effect("0.5"), Err(shape.clone()));
    assert_eq!(split_vignette_effect("1:2:3"), Err(shape));
    assert_eq!(split_pair(":", ':'), Some((String::new(), String::new())));
}
