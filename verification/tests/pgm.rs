use pnm::decode::Error;
use pnm::image::{Image, Uninit};
use pnm::pgm::{plain, raw};

#[test]
fn raw_graymap_decoder_on_a_pixmap() {
    assert_eq!(raw::decode(b"P6 1 1 255\n123"), Err(Error::WrongMagic { got: 6, should: 5 }));
}

#[test]
fn raw_graymap_byte_for_byte() {
    let img = Image::<u8, 1>::new(3, 2, vec![0, 127, 255, 1, 2, 3]).unwrap();
    assert_eq!(raw::encode(&img), b"P5 3 2 255\n\x00\x7f\xff\x01\x02\x03");
    let mut out = Vec::new();
    assert_eq!(raw::encode_into(&img, &mut out), 17);
    assert_eq!(raw::size(&img), 2 + 22 + 5 + 6);
    assert_eq!(raw::decode(&out), Ok(img));
}

#[test]
fn raw_graymap_is_read_back() {
    for (w, h) in [(1u32, 1u32), (1, 4), (5, 1), (3, 3), (20, 15)] {
        let v: Vec<u8> = (0..w * h).map(|i| ((i + 1) * 29 % 256) as u8).collect();
        let img = Image::<u8, 1>::new(w, h, v).unwrap();
        let file = raw::encode(&img);
        assert!(file.len() <= raw::size(&img));
        assert_eq!(raw::decode(&file), Ok(img));
    }
}

#[test]
fn raw_graymap_with_bytes_missing() {
    assert_eq!(raw::decode(b"P5 2 2 255\nabc"), Err(Error::MissingData));
    assert_eq!(raw::decode(b"P5 2 2 255\nabcd").unwrap().buffer(), *b"abcd");
    assert_eq!(raw::decode_wo_magic(b"2 2 255\nabcd").unwrap().buffer(), *b"abcd");
    let into = Uninit::<u8, 1>::new(2, 2).unwrap();
    assert_eq!(raw::decode_body_into(b"abc", into), Err(Error::MissingData));
    let into = Uninit::<u8, 1>::new(2, 2).unwrap();
    assert_eq!(raw::decode_body_into(b"abcde", into).unwrap().buffer(), *b"abcd");
}

#[test]
fn plain_graymap_byte_for_byte() {
    let img = Image::<u8, 1>::new(3, 2, vec![0, 127, 255, 1, 20, 3]).unwrap();
    let text = "P2 3 2 255\n0   127 255 \n1   20  3   \n";
    assert_eq!(plain::encode(&img), text);
    let mut out = Vec::new();
    assert_eq!(plain::encode_into(&img, &mut out), text.len());
    assert_eq!(out, text.as_bytes());
    assert_eq!(plain::size(&img), 2 + 22 + 5 + 2 + 24);
    assert_eq!(plain::decode(text.as_bytes()), Ok(img));
}

#[test]
fn plain_graymap_is_read_back() {
    for (w, h) in [(1u32, 1u32), (1, 4), (5, 1), (3, 3), (20, 15)] {
        let v: Vec<u8> = (0..w * h).map(|i| (i * 29 % 256) as u8).collect();
        let img = Image::<u8, 1>::new(w, h, v).unwrap();
        let file = plain::encode(&img);
        assert!(file.len() <= plain::size(&img));
        assert_eq!(plain::decode(file.as_bytes()), Ok(img));
    }
}

#[test]
fn plain_graymap_of_another_scale() {
    let img = plain::decode(b"P2\n# shades of four\n2 2\n3\n0 1\n2 3\n").unwrap();
    assert_eq!((img.width(), img.height()), (2, 2));
    assert_eq!(img.buffer(), [0, 85, 170, 255]);
    let into = Uninit::<u8, 1>::new(2, 1).unwrap();
    assert_eq!(plain::decode_body_into(b"1 3", into, 6).unwrap().buffer(), [43, 128]);
    assert_eq!(plain::decode_wo_magic(b"1 1 1\n1").unwrap().buffer(), [255]);
}

#[test]
fn plain_graymap_with_a_bad_start() {
    assert_eq!(plain::decode(b"P5 1 1 255\n1"), Err(Error::WrongMagic { got: 5, should: 2 }));
    assert_eq!(plain::decode(b"P2 1 1 255\n"), Err(Error::MissingData));
    assert_eq!(plain::decode(b"P2 1 1 255\n256"), Err(Error::MissingData));
    assert_eq!(plain::decode(b"P2 1 1 1e2\n1"), Err(Error::NotDigit('e')));
}
