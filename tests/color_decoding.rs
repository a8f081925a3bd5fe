use logo_timeline::{decode_color, hex_digit_value, ColorError};

#[test]
fn decodes_hash_prefixed_token() {
    assert_eq!(decode_color("#ff0080"), Ok((255, 0, 128)));
}

#[test]
fn decodes_bare_token() {
    assert_eq!(decode_color("00Ff10"), Ok((0, 255, 16)));
}

#[test]
fn other_lengths_fall_back_to_gray() {
    assert_eq!(decode_color("abc"), Ok((155, 155, 155)));
    assert_eq!(decode_color(""), Ok((155, 155, 155)));
    assert_eq!(decode_color("#1234567"), Ok((155, 155, 155)));
    assert_eq!(decode_color("not-a-color"), Ok((155, 155, 155)));
}

#[test]
fn non_hex_digit_is_an_error() {
    assert_eq!(decode_color("#gg0000"), Err(ColorError));
    assert_eq!(decode_color("12345z"), Err(ColorError));
}

#[test]
fn hash_position_is_not_checked() {
    assert_eq!(decode_color("x0a0b0c"), Ok((10, 11, 12)));
}

#[test]
fn hex_digit_values() {
    assert_eq!(hex_digit_value('0'), Some(0));
    assert_eq!(hex_digit_value('9'), Some(9));
    assert_eq!(hex_digit_value('a'), Some(10));
    assert_eq!(hex_digit_value('F'), Some(15));
    assert_eq!(hex_digit_value('g'), None);
}

#[test]
fn length_is_counted_in_bytes() {
    // Six bytes, four characters: a color length with bytes that are no digits.
    assert_eq!(decode_color("ab\u{20ac}d"), Err(ColorError));
    // Six characters, eight bytes: no color length.
    assert_eq!(decode_color("ab\u{20ac}def"), Ok((155, 155, 155)));
    // Seven bytes whose first character takes two.
    assert_eq!(decode_color("\u{e9}12345"), Err(ColorError));
}
