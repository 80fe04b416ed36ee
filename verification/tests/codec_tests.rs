use ppekom::Color;
use ppekom::Cursor;
use ppekom::EofField;
use ppekom::Pimage;
use ppekom::PpmError;
use ppekom::decode;
use ppekom::encode;
use ppekom::error;
use ppekom::push_decimal;
use ppekom::read_header;
use ppekom::read_next_color;
use ppekom::read_number;
use ppekom::to_digit;

#[test]
fn literal_two_by_one_scenario() {
    let bytes: Vec<u8> = vec![
        b'P', b'6', b'\n', b'2', b' ', b'1', b'\n', b'2', b'5', b'5', b'\n', 255, 0, 0, 0, 255, 0,
    ];
    assert_eq!(bytes.len(), 17);
    let img = decode(&bytes).unwrap();
    assert_eq!(img.width(), 2);
    assert_eq!(img.height(), 1);
    assert_eq!(img.pixel(0, 0), Color::new(255, 0, 0));
    assert_eq!(img.pixel(1, 0), Color::new(0, 255, 0));
    let out = encode(&img);
    assert_eq!(out, bytes);
}

#[test]
fn round_trip_two_by_two() {
    let mut img = Pimage::new(2, 2, Color::white());
    img.set(0, 0, Color::new(1, 2, 3));
    img.set(1, 0, Color::new(4, 5, 6));
    img.set(0, 1, Color::new(7, 8, 9));
    img.set(1, 1, Color::new(250, 128, 0));
    let bytes = encode(&img);
    let back = decode(&bytes).unwrap();
    assert!(back == img);
}

#[test]
fn round_trip_digits_nine_and_zero_in_dimensions() {
    let mut img = Pimage::new(19, 10, Color::new(0, 0, 0));
    img.set(18, 9, Color::new(90, 9, 0));
    let bytes = encode(&img);
    assert!(bytes.starts_with(b"P6\n19 10\n255\n"));
    let back = decode(&bytes).unwrap();
    assert!(back == img);
    assert_eq!(back.pixel(18, 9), Color::new(90, 9, 0));
}

#[test]
fn empty_input_is_empty_input() {
    let bytes: Vec<u8> = vec![];
    assert_eq!(decode(&bytes), Err(PpmError::EmptyInput));
}

#[test]
fn wrong_magic_is_magic_mismatch() {
    assert_eq!(decode(b"Q6\n2 2\n255\n"), Err(PpmError::MagicMismatch));
}

#[test]
fn wrong_format_is_unsupported_format() {
    assert_eq!(decode(b"P7\n2 2\n255\n"), Err(PpmError::UnsupportedFormat));
}

#[test]
fn space_after_magic_is_malformed_header() {
    assert_eq!(decode(b"P6 2 2\n255\n"), Err(PpmError::MalformedHeader));
}

#[test]
fn max_value_254_is_rejected() {
    assert_eq!(decode(b"P6\n2 2\n254\n"), Err(PpmError::UnsupportedMaxValue));
}

#[test]
fn truncated_pixel_bytes_fail_with_eof() {
    // A well-formed 2 by 2 header followed by fewer than 12 pixel bytes.
    for missing in 1..=12usize {
        let mut bytes: Vec<u8> = b"P6\n2 2\n255\n".to_vec();
        for i in 0..(12 - missing) {
            bytes.push(i as u8);
        }
        let got = decode(&bytes);
        assert!(matches!(got, Err(PpmError::UnexpectedEof(_))), "missing {}", missing);
    }
}

#[test]
fn trailing_bytes_are_ignored() {
    let mut bytes: Vec<u8> = b"P6\n1 1\n255\n".to_vec();
    bytes.extend_from_slice(&[10, 20, 30]);
    bytes.extend_from_slice(b"arbitrary trailing garbage \x00\xff\x80");
    let img = decode(&bytes).unwrap();
    assert_eq!(img.width(), 1);
    assert_eq!(img.height(), 1);
    assert_eq!(img.pixel(0, 0), Color::new(10, 20, 30));
}

#[test]
fn to_digit_accepts_the_full_digit_range() {
    assert_eq!(to_digit(b'0'), Some(0));
    assert_eq!(to_digit(b'4'), Some(4));
    assert_eq!(to_digit(b'9'), Some(9));
    assert_eq!(to_digit(b'a'), None);
    assert_eq!(to_digit(b'/'), None);
    assert_eq!(to_digit(b':'), None);
    assert_eq!(to_digit(b' '), None);
}

#[test]
fn read_number_reads_and_stops_at_whitespace() {
    let bytes = b"123 rest";
    let mut cur = Cursor::new(bytes);
    assert_eq!(read_number(&mut cur), Ok(123));
}

#[test]
fn read_number_rejects_stray_bytes() {
    let mut cur = Cursor::new(b"12a ");
    assert_eq!(read_number(&mut cur), Err(PpmError::MalformedHeader));
}

#[test]
fn read_number_rejects_unterminated_token() {
    let mut cur = Cursor::new(b"12");
    assert_eq!(
        read_number(&mut cur),
        Err(PpmError::UnexpectedEof(EofField::HeaderNumber))
    );
}

#[test]
fn read_number_rejects_oversized_token() {
    let mut cur = Cursor::new(b"99999999999999999999999999999 ");
    assert_eq!(read_number(&mut cur), Err(PpmError::MalformedHeader));
}

#[test]
fn read_header_returns_the_resolution() {
    let mut cur = Cursor::new(b"P6\n640 480\n255\nxyz");
    assert_eq!(read_header(&mut cur), Ok((640, 480)));
}

#[test]
fn read_header_eof_variants() {
    let mut empty = Cursor::new(b"");
    assert_eq!(read_header(&mut empty), Err(PpmError::EmptyInput));
    let mut only_p = Cursor::new(b"P");
    assert_eq!(
        read_header(&mut only_p),
        Err(PpmError::UnexpectedEof(EofField::FormatMarker))
    );
    let mut only_magic = Cursor::new(b"P6");
    assert_eq!(
        read_header(&mut only_magic),
        Err(PpmError::UnexpectedEof(EofField::MagicNewline))
    );
    let mut no_number = Cursor::new(b"P6\n");
    assert_eq!(
        read_header(&mut no_number),
        Err(PpmError::UnexpectedEof(EofField::HeaderNumber))
    );
}

#[test]
fn read_next_color_reads_three_channels() {
    let mut cur = Cursor::new(&[7, 8, 9, 10]);
    assert_eq!(read_next_color(&mut cur), Ok(Color::new(7, 8, 9)));
}

#[test]
fn read_next_color_names_the_missing_channel() {
    let mut none = Cursor::new(b"");
    assert_eq!(
        read_next_color(&mut none),
        Err(PpmError::UnexpectedEof(EofField::Red))
    );
    let mut one = Cursor::new(&[1]);
    assert_eq!(
        read_next_color(&mut one),
        Err(PpmError::UnexpectedEof(EofField::Green))
    );
    let mut two = Cursor::new(&[1, 2]);
    assert_eq!(
        read_next_color(&mut two),
        Err(PpmError::UnexpectedEof(EofField::Blue))
    );
}

#[test]
fn encode_writes_the_exact_layout() {
    let img = Pimage::new(1, 2, Color::white());
    let bytes = encode(&img);
    let expected: Vec<u8> = vec![
        b'P', b'6', b'\n', b'1', b' ', b'2', b'\n', b'2', b'5', b'5', b'\n', 255, 255, 255, 255,
        255, 255,
    ];
    assert_eq!(bytes, expected);
}

#[test]
fn push_decimal_writes_plain_decimal_digits() {
    let mut v: Vec<u8> = vec![b'#'];
    push_decimal(&mut v, 0);
    assert_eq!(v, b"#0");
    let mut v2: Vec<u8> = Vec::new();
    push_decimal(&mut v2, 255);
    assert_eq!(v2, b"255");
    let mut v3: Vec<u8> = Vec::new();
    push_decimal(&mut v3, 9081);
    assert_eq!(v3, b"9081");
}

#[test]
fn error_is_a_shorthand_for_err() {
    let r: Result<usize, PpmError> = error(PpmError::MagicMismatch);
    assert_eq!(r, Err(PpmError::MagicMismatch));
}

#[test]
fn messages_name_what_went_wrong() {
    assert_eq!(
        PpmError::EmptyInput.message(),
        "empty input, expected the magic byte 'P'"
    );
    assert_eq!(
        PpmError::UnexpectedEof(EofField::Green).message(),
        "input ended before the next green value"
    );
    assert_eq!(
        PpmError::UnsupportedMaxValue.message(),
        "expected a maximum channel value of 255"
    );
}
