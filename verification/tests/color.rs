use silicon::canvas::Rgba;
use silicon::error::ParseColorError;
use silicon::utils::ToRgba;
use silicon::utils::parse_str_color;

#[test]
fn to_rgba() {
    assert_eq!(
        "#abcdef".to_rgba(),
        Ok(Rgba { r: 0xab, g: 0xcd, b: 0xef, a: 0xff })
    );
    assert_eq!(
        "#abcdef00".to_rgba(),
        Ok(Rgba { r: 0xab, g: 0xcd, b: 0xef, a: 0x00 })
    );
    assert_eq!(
        "#abc".to_rgba(),
        Ok(Rgba { r: 0xaa, g: 0xbb, b: 0xcc, a: 0xff })
    );
    assert_eq!(
        "#abcd".to_rgba(),
        Ok(Rgba { r: 0xaa, g: 0xbb, b: 0xcc, a: 0xdd })
    );
}

#[test]
fn to_rgba_rejects_missing_hash() {
    assert_eq!("abcdef".to_rgba(), Err(ParseColorError::InvalidDigit));
}

#[test]
fn to_rgba_rejects_bad_digit() {
    assert_eq!("#xyz".to_rgba(), Err(ParseColorError::InvalidDigit));
    assert_eq!("#".to_rgba(), Err(ParseColorError::InvalidDigit));
}

#[test]
fn to_rgba_rejects_bad_length() {
    assert_eq!("#abcde".to_rgba(), Err(ParseColorError::InvalidLength));
    assert_eq!("#ab".to_rgba(), Err(ParseColorError::InvalidLength));
    assert_eq!("#abcdef0".to_rgba(), Err(ParseColorError::InvalidLength));
}

#[test]
fn to_rgba_rejects_overflow() {
    // nine digits overflow the 32-bit accumulator
    assert_eq!("#abcdef012".to_rgba(), Err(ParseColorError::InvalidDigit));
}

#[test]
fn parse_str_color_matches_to_rgba() {
    assert_eq!(
        parse_str_color("#282a36"),
        Ok(Rgba { r: 0x28, g: 0x2a, b: 0x36, a: 0xff })
    );
    assert_eq!(parse_str_color(""), Err(ParseColorError::InvalidDigit));
}

#[test]
fn error_messages() {
    assert_eq!(ParseColorError::InvalidDigit.message(), "Invalid digit");
    assert_eq!(ParseColorError::InvalidLength.message(), "Invalid length");
}
