use si_img::hex_to_rgb;
use si_img::ParseError;
use si_img::Rgb;

#[test]
fn parse_six_digit_cyan() {
    assert_eq!(hex_to_rgb("#00ffff"), Ok(Rgb { r: 0, g: 255, b: 255 }));
}

#[test]
fn parse_six_digit_red() {
    assert_eq!(hex_to_rgb("#ff0000"), Ok(Rgb { r: 255, g: 0, b: 0 }));
}

#[test]
fn parse_six_digit_without_hash() {
    assert_eq!(hex_to_rgb("336699"), Ok(Rgb { r: 0x33, g: 0x66, b: 0x99 }));
}

#[test]
fn parse_six_digit_mixed_case() {
    assert_eq!(hex_to_rgb("#AbCdEf"), Ok(Rgb { r: 0xab, g: 0xcd, b: 0xef }));
}

#[test]
fn parse_three_digit_shorthand() {
    assert_eq!(hex_to_rgb("abc"), Ok(Rgb { r: 170, g: 187, b: 204 }));
}

#[test]
fn parse_three_digit_with_hash() {
    assert_eq!(hex_to_rgb("#f00"), Ok(Rgb { r: 255, g: 0, b: 0 }));
}

#[test]
fn parse_unsupported_length_yields_white() {
    assert_eq!(hex_to_rgb("#ffff"), Ok(Rgb { r: 255, g: 255, b: 255 }));
    assert_eq!(hex_to_rgb(""), Ok(Rgb { r: 255, g: 255, b: 255 }));
    assert_eq!(hex_to_rgb("#1234567"), Ok(Rgb { r: 255, g: 255, b: 255 }));
}

#[test]
fn parse_bad_digit_six_is_error() {
    assert_eq!(hex_to_rgb("#zzzzzz"), Err(ParseError));
    assert_eq!(hex_to_rgb("12345g"), Err(ParseError));
}

#[test]
fn parse_bad_digit_three_is_error() {
    assert_eq!(hex_to_rgb("xyz"), Err(ParseError));
}

#[test]
fn parse_ignores_repeated_hashes() {
    assert_eq!(hex_to_rgb("##fff"), Ok(Rgb { r: 255, g: 255, b: 255 }));
    assert_eq!(hex_to_rgb("##00ffff"), Ok(Rgb { r: 0, g: 255, b: 255 }));
}
