use pnm::decode::{
    decode_header, expect, expect_magic, is_ascii_digit, is_ascii_whitespace, magic, next_byte,
    read_til, same, skip_whitespace, Error, Header,
};

#[test]
fn number_at_the_limit_of_a_byte() {
    let mut x: &[u8] = b"255";
    assert_eq!(read_til(&mut x, 255), Ok(255));
    assert!(x.is_empty());
}

#[test]
fn number_over_the_limit_of_a_byte() {
    let mut x: &[u8] = b"256";
    assert_eq!(read_til(&mut x, 255), Err(Error::Overflow));
    assert!(x.is_empty());
}

#[test]
fn number_overflow_comes_with_the_digit_that_causes_it() {
    let mut x: &[u8] = b"2551 7";
    assert_eq!(read_til(&mut x, 255), Err(Error::Overflow));
    assert_eq!(x, b" 7");
    let mut x: &[u8] = b"26 7";
    assert_eq!(read_til(&mut x, 25), Err(Error::Overflow));
    assert_eq!(x, b" 7");
}

#[test]
fn number_at_the_limit_of_32_bits() {
    let mut x: &[u8] = b"4294967295\nrest";
    assert_eq!(read_til(&mut x, u32::MAX), Ok(4294967295));
    assert_eq!(x, b"rest");
    let mut x: &[u8] = b"4294967296\nrest";
    assert_eq!(read_til(&mut x, u32::MAX), Err(Error::Overflow));
    assert_eq!(x, b"\nrest");
    let mut x: &[u8] = b"99999999999";
    assert_eq!(read_til(&mut x, u32::MAX), Err(Error::Overflow));
    assert_eq!(x, b"9");
}

#[test]
fn number_ends_at_whitespace_which_is_read() {
    let mut x: &[u8] = b"12 34";
    assert_eq!(read_til(&mut x, 255), Ok(12));
    assert_eq!(x, b"34");
    assert_eq!(read_til(&mut x, 255), Ok(34));
    assert!(x.is_empty());
    for ws in [b' ', b'\t', b'\n', 0x0c, b'\r'] {
        let text = [b'7', ws, b'8'];
        let mut x: &[u8] = &text;
        assert_eq!(read_til(&mut x, 255), Ok(7));
        assert_eq!(x, b"8");
    }
}

#[test]
fn number_without_digits_is_zero() {
    let mut x: &[u8] = b"";
    assert_eq!(read_til(&mut x, 255), Ok(0));
    let mut x: &[u8] = b" 5";
    assert_eq!(read_til(&mut x, 255), Ok(0));
    assert_eq!(x, b"5");
}

#[test]
fn number_with_leading_zeros() {
    let mut x: &[u8] = b"000255 ";
    assert_eq!(read_til(&mut x, 255), Ok(255));
    assert!(x.is_empty());
}

#[test]
fn number_stops_at_what_is_no_digit() {
    let mut x: &[u8] = b"1x2";
    assert_eq!(read_til(&mut x, 255), Err(Error::NotDigit('x')));
    assert_eq!(x, b"2");
    let mut x: &[u8] = b"-1";
    assert_eq!(read_til(&mut x, 255), Err(Error::NotDigit('-')));
    let mut x: &[u8] = &[b'1', 0x0b];
    assert_eq!(read_til(&mut x, 255), Err(Error::NotDigit('\u{b}')));
    let mut x: &[u8] = &[0xe9];
    assert_eq!(read_til(&mut x, 255), Err(Error::NotDigit('\u{e9}')));
}

#[test]
fn byte_classes() {
    for b in 0..=255u8 {
        assert_eq!(is_ascii_whitespace(b), b.is_ascii_whitespace());
        assert_eq!(is_ascii_digit(b), b.is_ascii_digit());
    }
}

#[test]
fn next_byte_moves_the_cursor() {
    let mut x: &[u8] = b"ab";
    assert_eq!(next_byte(&mut x), Some(b'a'));
    assert_eq!(x, b"b");
    assert_eq!(next_byte(&mut x), Some(b'b'));
    assert_eq!(next_byte(&mut x), None);
    assert!(x.is_empty());
}

#[test]
fn whitespace_is_skipped_up_to_what_follows() {
    let mut x: &[u8] = b" \t\r\n\x0cx y";
    skip_whitespace(&mut x);
    assert_eq!(x, b"x y");
    skip_whitespace(&mut x);
    assert_eq!(x, b"x y");
    let mut x: &[u8] = b"   ";
    skip_whitespace(&mut x);
    assert!(x.is_empty());
}

#[test]
fn magic_number_is_read_with_its_whitespace() {
    let mut x: &[u8] = b"P6 4 4";
    assert_eq!(magic(&mut x), Some(6));
    assert_eq!(x, b"4 4");
    let mut x: &[u8] = b"P1\n\n  # c";
    assert_eq!(magic(&mut x), Some(1));
    assert_eq!(x, b"# c");
    let mut x: &[u8] = b"P7WIDTH";
    assert_eq!(magic(&mut x), Some(7));
    assert_eq!(x, b"WIDTH");
}

#[test]
fn magic_number_is_missing() {
    let mut x: &[u8] = b"";
    assert_eq!(magic(&mut x), None);
    let mut x: &[u8] = b"X6 1";
    assert_eq!(magic(&mut x), None);
    assert_eq!(x, b"6 1");
    let mut x: &[u8] = b"P";
    assert_eq!(magic(&mut x), None);
    assert!(x.is_empty());
    let mut x: &[u8] = b"P/ 1";
    assert_eq!(magic(&mut x), None);
    assert_eq!(x, b"1");
    let mut x: &[u8] = b"P/";
    assert_eq!(magic(&mut x), None);
    assert!(x.is_empty());
}

#[test]
fn magic_number_with_nothing_behind_it() {
    let mut x: &[u8] = b"P5";
    assert_eq!(magic(&mut x), Some(5));
    assert!(x.is_empty());
    let mut x: &[u8] = b"P6  \n";
    assert_eq!(magic(&mut x), Some(6));
    assert!(x.is_empty());
    let mut x: &[u8] = b"P5";
    assert_eq!(expect_magic(&mut x, 5), Ok(()));
    let mut x: &[u8] = b"P5";
    assert_eq!(expect_magic(&mut x, 6), Err(Error::WrongMagic { got: 5, should: 6 }));
}

#[test]
fn magic_number_is_the_byte_less_the_digit_zero() {
    let mut x: &[u8] = b"P0 x";
    assert_eq!(magic(&mut x), Some(0));
    let mut x: &[u8] = b"P9 x";
    assert_eq!(magic(&mut x), Some(9));
    let mut x: &[u8] = b"P: x";
    assert_eq!(magic(&mut x), Some(10));
    let mut x: &[u8] = &[b'P', 0xff, b' ', b'x'];
    assert_eq!(magic(&mut x), Some(207));
}

#[test]
fn expected_magic_number() {
    let mut x: &[u8] = b"P5 1 1 255\n0";
    assert_eq!(expect_magic(&mut x, 5), Ok(()));
    assert_eq!(x, b"1 1 255\n0");
    let mut x: &[u8] = b"P6 1 1 255\n0";
    assert_eq!(expect_magic(&mut x, 5), Err(Error::WrongMagic { got: 6, should: 5 }));
    let mut x: &[u8] = b"hello";
    assert_eq!(expect_magic(&mut x, 5), Err(Error::MissingMagic));
}

#[test]
fn header_with_zero_width() {
    let mut x: &[u8] = b"P1 0 5\n";
    assert_eq!(magic(&mut x), Some(1));
    assert_eq!(decode_header(&mut x, 1), Err(Error::ZeroWidth));
}

#[test]
fn header_with_zero_height() {
    let mut x: &[u8] = b"P1 5 0\n";
    assert_eq!(magic(&mut x), Some(1));
    assert_eq!(decode_header(&mut x, 1), Err(Error::ZeroHeight));
}

#[test]
fn header_of_a_pixmap() {
    let mut x: &[u8] = b"3 2\n255\nDATA";
    assert_eq!(
        decode_header(&mut x, 6),
        Ok(Header { magic: 6, width: 3, height: 2, max: Some(255) })
    );
    assert_eq!(x, b"DATA");
}

#[test]
fn header_with_comments() {
    let mut x: &[u8] = b"# a comment\n# another # one\n#\n3 2\n7\nDATA";
    assert_eq!(
        decode_header(&mut x, 2),
        Ok(Header { magic: 2, width: 3, height: 2, max: Some(7) })
    );
    assert_eq!(x, b"DATA");
}

#[test]
fn header_with_a_comment_that_does_not_end() {
    let mut x: &[u8] = b"# no line feed";
    assert_eq!(decode_header(&mut x, 6), Err(Error::ZeroWidth));
    assert!(x.is_empty());
}

#[test]
fn header_of_a_bitmap_has_no_maximum() {
    let mut x: &[u8] = b"3 2\n101";
    assert_eq!(decode_header(&mut x, 1), Ok(Header { magic: 1, width: 3, height: 2, max: None }));
    assert_eq!(x, b"101");
    let mut x: &[u8] = b"3 2\n\x80";
    assert_eq!(decode_header(&mut x, 4), Ok(Header { magic: 4, width: 3, height: 2, max: None }));
    assert_eq!(x, b"\x80");
}

#[test]
fn header_of_a_raw_bitmap_keeps_whitespace_before_the_image() {
    let mut x: &[u8] = b"3 2\n\n \x00";
    assert_eq!(decode_header(&mut x, 4), Ok(Header { magic: 4, width: 3, height: 2, max: None }));
    assert_eq!(x, b"\n \x00");
    let mut x: &[u8] = b"3 2\n";
    assert_eq!(decode_header(&mut x, 4), Ok(Header { magic: 4, width: 3, height: 2, max: None }));
    assert!(x.is_empty());
}

#[test]
fn header_of_other_formats_skips_whitespace_before_the_image() {
    let mut x: &[u8] = b"3 2 255\n  \n\tX ";
    assert_eq!(
        decode_header(&mut x, 5),
        Ok(Header { magic: 5, width: 3, height: 2, max: Some(255) })
    );
    assert_eq!(x, b"X ");
    let mut x: &[u8] = b"3 2\n \n1";
    assert_eq!(decode_header(&mut x, 1), Ok(Header { magic: 1, width: 3, height: 2, max: None }));
    assert_eq!(x, b"1");
}

#[test]
fn header_without_an_image() {
    let mut x: &[u8] = b"3 2\n";
    assert_eq!(decode_header(&mut x, 1), Err(Error::MissingData));
    let mut x: &[u8] = b"3 2 255\n   ";
    assert_eq!(decode_header(&mut x, 6), Err(Error::MissingData));
    let mut x: &[u8] = b"3 2";
    assert_eq!(decode_header(&mut x, 3), Err(Error::MissingData));
}

#[test]
fn header_of_too_many_pixels() {
    let mut x: &[u8] = b"65536 65536\nX";
    assert_eq!(decode_header(&mut x, 4), Err(Error::TooLarge));
    let mut x: &[u8] = b"65535 65537\nX";
    assert_eq!(
        decode_header(&mut x, 4),
        Ok(Header { magic: 4, width: 65535, height: 65537, max: None })
    );
    let mut x: &[u8] = b"4294967295 2\nX";
    assert_eq!(decode_header(&mut x, 4), Err(Error::TooLarge));
}

#[test]
fn header_with_numbers_that_overflow() {
    let mut x: &[u8] = b"4294967296 1\nX";
    assert_eq!(decode_header(&mut x, 4), Err(Error::Overflow));
    let mut x: &[u8] = b"1 4294967296\nX";
    assert_eq!(decode_header(&mut x, 4), Err(Error::Overflow));
    let mut x: &[u8] = b"3 2 256\nX";
    assert_eq!(decode_header(&mut x, 5), Err(Error::Overflow));
}

#[test]
fn header_with_what_is_no_digit() {
    let mut x: &[u8] = b"3x 2\nX";
    assert_eq!(decode_header(&mut x, 4), Err(Error::NotDigit('x')));
    let mut x: &[u8] = b"3 2 #\n255\nX";
    assert_eq!(decode_header(&mut x, 5), Err(Error::NotDigit('#')));
}

#[test]
fn keys_are_expected_byte_for_byte() {
    let mut x: &[u8] = b"WIDTH 5";
    assert!(expect(&mut x, "WIDTH "));
    assert_eq!(x, b"5");
    let mut x: &[u8] = b"WIDTH\t5";
    assert!(!expect(&mut x, "WIDTH "));
    assert_eq!(x, b"5");
    let mut x: &[u8] = b"WID";
    assert!(!expect(&mut x, "WIDTH "));
    assert!(x.is_empty());
    assert!(same(b"RGB", "RGB"));
    assert!(!same(b"RGB_", "RGB"));
    assert!(!same(b"RG", "RGB"));
    assert!(!same(b"RGb", "RGB"));
    assert!(same(b"", ""));
}

#[test]
fn messages() {
    assert_eq!(Error::TooLarge.message(), "image too big");
    assert_eq!(Error::NotDigit('x').message(), "found x while decoding number");
    assert_eq!(Error::NotDigit('\u{e9}').message(), "found \u{e9} while decoding number");
    assert_eq!(Error::BadMagic(8).message(), "8 is not a valid magic number");
    assert_eq!(Error::BadMagic(207).message(), "207 is not a valid magic number");
    assert_eq!(
        Error::WrongMagic { got: 6, should: 5 }.message(),
        "expected magic number 5 found 6"
    );
    assert_eq!(Error::MissingMagic.message(), "no magic number (likely not a pnm image)");
    assert_eq!(Error::ZeroWidth.message(), "zero width");
    assert_eq!(Error::ZeroHeight.message(), "zero height");
    assert_eq!(Error::MissingWidth.message(), "no width");
    assert_eq!(Error::MissingHeight.message(), "no height");
    assert_eq!(Error::MissingData.message(), "no data");
    assert_eq!(Error::MissingMax.message(), "no max value");
    assert_eq!(Error::MissingDepth.message(), "no depth");
    assert_eq!(Error::MissingTupltype.message(), "no tupltype");
    assert_eq!(Error::Overflow.message(), "overflow while parsing number");
}
