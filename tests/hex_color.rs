use resp_codec::{hex_color, hex_primary, is_hex_digit, to_num, Color, ParseError};

#[test]
fn test_hex_color() {
    assert_eq!(
        hex_color("#2F14DF"),
        Ok((
            "",
            Color {
                red: 47,
                green: 20,
                blue: 223,
            }
        ))
    )
}

#[test]
fn hex_color_keeps_the_rest() {
    assert_eq!(
        hex_color("#000aFf tail"),
        Ok((" tail", Color { red: 0, green: 10, blue: 255 }))
    );
}

#[test]
fn hex_color_rejects_bad_input() {
    assert_eq!(hex_color("2F14DF"), Err(ParseError::Unrecognized));
    assert_eq!(hex_color("#2F14D"), Err(ParseError::Unrecognized));
    assert_eq!(hex_color("#2G14DF"), Err(ParseError::Unrecognized));
}

#[test]
fn hex_digits() {
    assert!(is_hex_digit('0'));
    assert!(is_hex_digit('f'));
    assert!(is_hex_digit('F'));
    assert!(!is_hex_digit('g'));
    assert!(!is_hex_digit(' '));
}

#[test]
fn hex_numbers() {
    assert_eq!(to_num("ff"), Ok(255));
    assert_eq!(to_num("2F"), Ok(47));
    assert_eq!(to_num("7"), Ok(7));
    assert!(to_num("").is_err());
    assert!(to_num("100").is_err());
    assert_eq!(hex_primary("DFx"), Ok(("x", 223)));
    assert_eq!(hex_primary("D"), Err(ParseError::Unrecognized));
}
