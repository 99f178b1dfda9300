use pnm::decode::Error;
use pnm::image::{Image, Uninit};
use pnm::pbm::{plain, raw};

/// The gray image that the bitmaps of these tests are made of: a pattern of
/// light and dark.
fn gray() -> Vec<u8> {
    (0..300u32).map(|i| ((i * 37 + (i / 20) * 11) % 256) as u8).collect()
}

fn tdata() -> Vec<bool> {
    gray().iter().map(|&x| x <= 128).collect::<Vec<_>>()
}

fn plain_file() -> String {
    let mut text = String::from("P1 20 15\n");
    for row in tdata().chunks(20) {
        for &on in row {
            text.push(if on { '1' } else { '0' });
            text.push(' ');
        }
        text.push('\n');
    }
    text
}

fn raw_file() -> Vec<u8> {
    let mut file = b"P4 20 15\n".to_vec();
    for row in tdata().chunks(20) {
        let mut bytes = [0u8; 3];
        for (i, &on) in row.iter().enumerate() {
            if on {
                bytes[i / 8] += 128 >> (i % 8);
            }
        }
        file.extend_from_slice(&bytes);
    }
    file
}

#[test]
fn pbm_test_encode() {
    let img = Image::<bool, 1>::new(20, 15, tdata()).unwrap();
    assert_eq!(plain::encode(&img), plain_file());
    assert_eq!(raw::encode(&img), raw_file());
}

#[test]
fn pbm_test_decode() {
    assert_eq!(plain::decode(plain_file().as_bytes()).unwrap().buffer(), tdata());
    assert_eq!(raw::decode(&raw_file()).unwrap().buffer(), tdata());
}

#[test]
fn plain_bitmap_byte_for_byte() {
    let img = Image::<bool, 1>::new(3, 2, vec![true, false, true, false, false, true]).unwrap();
    assert_eq!(plain::encode(&img), "P1 3 2\n1 0 1 \n0 0 1 \n");
    let mut out = b"..".to_vec();
    assert_eq!(plain::encode_into(&img, &mut out), 21);
    assert_eq!(out, b"..P1 3 2\n1 0 1 \n0 0 1 \n");
    assert_eq!(plain::size(&img), 2 + 23 + 2 + 12);
}

#[test]
fn plain_bitmap_is_read_back() {
    for (w, h) in [(1u32, 1u32), (1, 7), (7, 1), (8, 8), (9, 3), (20, 15)] {
        let v: Vec<bool> = (0..w * h).map(|i| i % 3 == 0 || i % 7 == 2).collect();
        let img = Image::<bool, 1>::new(w, h, v).unwrap();
        let file = plain::encode(&img);
        assert!(file.len() <= plain::size(&img));
        assert_eq!(plain::decode(file.as_bytes()), Ok(img));
    }
}

#[test]
fn plain_bitmap_passes_over_what_is_no_pixel() {
    let img = plain::decode(b"P1\n# two by two\n2 2\n0x1\n\n 2 1,0 and more 1 1 1").unwrap();
    assert_eq!((img.width(), img.height()), (2, 2));
    assert_eq!(img.buffer(), [false, true, true, false]);
    let img = plain::decode(b"P1 3 1 101").unwrap();
    assert_eq!(img.buffer(), [true, false, true]);
}

#[test]
fn plain_bitmap_with_pixels_missing() {
    assert_eq!(plain::decode(b"P1 2 2\n0 1 1"), Err(Error::MissingData));
    assert_eq!(plain::decode(b"P1 2 2\n2 3 4 5 6"), Err(Error::MissingData));
    assert_eq!(plain::decode(b"P1 2 2\n"), Err(Error::MissingData));
    assert!(plain::decode(b"P1 2 2\n0 1 1 0").is_ok());
}

#[test]
fn plain_bitmap_with_a_bad_start() {
    assert_eq!(plain::decode(b"P4 2 2\n0 1 1 0"), Err(Error::WrongMagic { got: 4, should: 1 }));
    assert_eq!(plain::decode(b""), Err(Error::MissingMagic));
    assert_eq!(plain::decode(b"P1 0 2\n"), Err(Error::ZeroWidth));
    assert_eq!(plain::decode(b"P1 2 0\n"), Err(Error::ZeroHeight));
    assert_eq!(plain::decode_wo_magic(b"2 x\n"), Err(Error::NotDigit('x')));
    assert_eq!(plain::decode_wo_magic(b"65536 65536\n1"), Err(Error::TooLarge));
    assert_eq!(plain::decode_wo_magic(b"2 1\n1 0").unwrap().buffer(), [true, false]);
}

#[test]
fn plain_bitmap_as_a_graymap() {
    let into = Uninit::<u8, 1>::new(2, 2).unwrap();
    let img = plain::decode_body_into_u8(b"0 1\n1 0\n", into).unwrap();
    assert_eq!((img.width(), img.height()), (2, 2));
    assert_eq!(img.buffer(), [255, 0, 0, 255]);
    let into = Uninit::<u8, 1>::new(2, 2).unwrap();
    assert_eq!(plain::decode_body_into_u8(b"0 1\n1 \n", into), Err(Error::MissingData));
    let into = Uninit::<bool, 1>::new(2, 1).unwrap();
    assert_eq!(plain::decode_body_into(b"10111", into).unwrap().buffer(), [true, false]);
}

#[test]
fn nine_pixels_pack_into_two_bytes() {
    let row = vec![true, false, true, false, true, false, true, false, true];
    let img = Image::<bool, 1>::new(9, 1, row.clone()).unwrap();
    let file = raw::encode(&img);
    assert_eq!(file, b"P4 9 1\n\xaa\x80");
    let back = raw::decode(&file).unwrap();
    assert_eq!((back.width(), back.height()), (9, 1));
    assert_eq!(back.buffer(), row);
    let into = Uninit::<bool, 1>::new(9, 1).unwrap();
    assert_eq!(raw::decode_body_into(&[0xaa, 0xff], into).unwrap().buffer(), row);
}

#[test]
fn raw_bitmap_byte_for_byte() {
    let v = vec![
        true, true, false, false, false, false, false, false, false, true, // row 0
        false, false, false, false, false, false, false, true, true, false, // row 1
    ];
    let img = Image::<bool, 1>::new(10, 2, v).unwrap();
    assert_eq!(raw::encode(&img), b"P4 10 2\n\xc0\x40\x01\x80");
    let mut out = b"..".to_vec();
    assert_eq!(raw::encode_into(&img, &mut out), 12);
    assert_eq!(out, b"..P4 10 2\n\xc0\x40\x01\x80");
    assert_eq!(raw::size(&img), 2 + 23 + 2 + 2);
    let img = Image::<bool, 1>::new(16, 1, vec![true; 16]).unwrap();
    assert_eq!(raw::encode(&img), b"P4 16 1\n\xff\xff");
    assert_eq!(raw::size(&img), 2 + 23 + 2);
}

#[test]
fn raw_bitmap_is_read_back() {
    for (w, h) in [(1u32, 1u32), (1, 9), (7, 2), (8, 3), (9, 3), (15, 2), (16, 2), (17, 5), (20, 15)]
    {
        let v: Vec<bool> = (0..w * h).map(|i| i % 3 == 0 || i % 7 == 2).collect();
        let img = Image::<bool, 1>::new(w, h, v).unwrap();
        let file = raw::encode(&img);
        assert!(file.len() <= raw::size(&img));
        assert_eq!(raw::decode(&file), Ok(img));
    }
}

#[test]
fn raw_bitmap_that_starts_with_whitespace() {
    let v = vec![
        false, false, true, false, false, false, false, false, // a space
        false, false, false, false, true, false, true, false, // a line feed
    ];
    let img = Image::<bool, 1>::new(8, 2, v).unwrap();
    let file = raw::encode(&img);
    assert_eq!(file, b"P4 8 2\n \n");
    assert_eq!(raw::decode(&file), Ok(img));
}

#[test]
fn raw_bitmap_with_rows_missing() {
    assert_eq!(raw::decode(b"P4 9 2\n\xaa\x80\xaa"), Err(Error::MissingData));
    assert_eq!(raw::decode(b"P4 9 2\n"), Err(Error::MissingData));
    assert!(raw::decode(b"P4 9 2\n\xaa\x80\xaa\x80").is_ok());
    assert!(raw::decode(b"P4 9 2\n\xaa\x80\xaa\x80 and more").is_ok());
}

#[test]
fn raw_bitmap_with_a_bad_start() {
    assert_eq!(raw::decode(b"P1 2 2\n0 1 1 0"), Err(Error::WrongMagic { got: 1, should: 4 }));
    assert_eq!(raw::decode(b"P"), Err(Error::MissingMagic));
    assert_eq!(raw::decode(b"P4 0 2\n"), Err(Error::ZeroWidth));
    assert_eq!(raw::decode_wo_magic(b"2 0\n"), Err(Error::ZeroHeight));
    assert_eq!(raw::decode_wo_magic(b"2 1\n\x80").unwrap().buffer(), [true, false]);
}

#[test]
fn raw_bitmap_as_a_graymap() {
    let into = Uninit::<u8, 1>::new(3, 2).unwrap();
    let img = raw::decode_body_into_u8(&[0b1010_0000, 0b0111_1111], into).unwrap();
    assert_eq!((img.width(), img.height()), (3, 2));
    assert_eq!(img.buffer(), [0, 255, 0, 255, 0, 0]);
    let into = Uninit::<u8, 1>::new(3, 2).unwrap();
    assert_eq!(raw::decode_body_into_u8(&[0b1010_0000], into), Err(Error::MissingData));
}
