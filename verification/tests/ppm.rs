use pnm::decode::Error;
use pnm::image::{Image, Uninit};
use pnm::ppm::{plain, raw};

fn tdata() -> Vec<u8> {
    (0..900u32).map(|i| ((i * 7 + (i / 60) * 13) % 256) as u8).collect()
}

fn plain_file() -> String {
    let mut text = String::from("P3 20 15 255\n");
    for row in tdata().chunks(60) {
        for &sample in row {
            text.push_str(&format!("{sample:<4}"));
        }
        text.push('\n');
    }
    text
}

fn raw_file() -> Vec<u8> {
    let mut file = b"P6 20 15 255\n".to_vec();
    file.extend_from_slice(&tdata());
    file
}

#[test]
fn ppm_test_encode() {
    let img = Image::<u8, 3>::new(20, 15, tdata()).unwrap();
    assert_eq!(plain::encode(&img), plain_file());
    assert_eq!(raw::encode(&img), raw_file());
}

#[test]
fn ppm_test_decode() {
    assert_eq!(plain::decode(plain_file().as_bytes()).unwrap().buffer(), tdata());
    assert_eq!(raw::decode(&raw_file()).unwrap().buffer(), tdata());
}

#[test]
fn plain_pixmap_byte_for_byte() {
    let img = Image::<u8, 3>::new(2, 2, vec![255, 0, 10, 1, 2, 3, 100, 99, 9, 0, 0, 0]).unwrap();
    let text = "P3 2 2 255\n255 0   10  1   2   3   \n100 99  9   0   0   0   \n";
    assert_eq!(plain::encode(&img), text);
    let mut out = b"..".to_vec();
    assert_eq!(plain::encode_into(&img, &mut out), text.len());
    assert_eq!(out, format!("..{text}").into_bytes());
    assert_eq!(plain::size(&img), 2 + 22 + 5 + 2 + 48);
}

#[test]
fn plain_pixmap_is_read_back() {
    for (w, h) in [(1u32, 1u32), (1, 4), (5, 1), (3, 3), (20, 15)] {
        let v: Vec<u8> = (0..w * h * 3).map(|i| (i * 29 % 256) as u8).collect();
        let img = Image::<u8, 3>::new(w, h, v).unwrap();
        let file = plain::encode(&img);
        assert!(file.len() <= plain::size(&img));
        assert_eq!(plain::decode(file.as_bytes()), Ok(img));
    }
}

#[test]
fn plain_pixmap_takes_samples_to_the_scale_up_to_255() {
    let into = Uninit::<u8, 3>::new(2, 1).unwrap();
    let img = plain::decode_body_into(b"0 1 2 3 4 5", into, 5).unwrap();
    assert_eq!(img.buffer(), [0, 51, 102, 153, 204, 255]);
    let into = Uninit::<u8, 3>::new(1, 1).unwrap();
    assert_eq!(plain::decode_body_into(b"1 100 5", into, 2).unwrap().buffer(), [128, 255, 255]);
    let into = Uninit::<u8, 3>::new(1, 1).unwrap();
    assert_eq!(plain::decode_body_into(b"1 2 5", into, 7).unwrap().buffer(), [36, 73, 182]);
    let into = Uninit::<u8, 3>::new(1, 1).unwrap();
    assert_eq!(plain::decode_body_into(b"1 127 128", into, 254).unwrap().buffer(), [1, 128, 129]);
    let into = Uninit::<u8, 3>::new(1, 1).unwrap();
    assert_eq!(plain::decode_body_into(b"0 1 255", into, 0).unwrap().buffer(), [0, 255, 255]);
    let into = Uninit::<u8, 3>::new(1, 1).unwrap();
    assert_eq!(plain::decode_body_into(b"0 1 254", into, 255).unwrap().buffer(), [0, 1, 254]);
    let img = plain::decode(b"P3 1 1 15\n0 8 15").unwrap();
    assert_eq!(img.buffer(), [0, 136, 255]);
}

#[test]
fn plain_pixmap_passes_over_what_is_no_sample() {
    let into = Uninit::<u8, 3>::new(1, 1).unwrap();
    let img = plain::decode_body_into(b"  7\t256 1000 0255 1x -3 08\n\n009 12", into, 255);
    assert_eq!(img.unwrap().buffer(), [7, 8, 9]);
    let into = Uninit::<u8, 3>::new(1, 1).unwrap();
    assert_eq!(plain::decode_body_into(b"1 2 3", into, 255).unwrap().buffer(), [1, 2, 3]);
    let into = Uninit::<u8, 3>::new(1, 1).unwrap();
    assert_eq!(plain::decode_body_into(b"255 255 255 ", into, 255).unwrap().buffer(), [255; 3]);
}

#[test]
fn plain_pixmap_with_samples_missing() {
    assert_eq!(plain::decode(b"P3 1 2 255\n1 2 3 4 5"), Err(Error::MissingData));
    assert_eq!(plain::decode(b"P3 1 2 255\n1 2 3 4 5 256 1000"), Err(Error::MissingData));
    assert_eq!(plain::decode(b"P3 1 2 255\n"), Err(Error::MissingData));
    assert!(plain::decode(b"P3 1 2 255\n1 2 3 4 5 6").is_ok());
    assert!(plain::decode(b"P3 1 2 255\n1 2 3 4 5 6 7 8").is_ok());
}

#[test]
fn plain_pixmap_with_a_bad_start() {
    assert_eq!(plain::decode(b"P6 1 1 255\n123"), Err(Error::WrongMagic { got: 6, should: 3 }));
    assert_eq!(plain::decode(b"3 1 1"), Err(Error::MissingMagic));
    assert_eq!(plain::decode(b"P3 1 1 999\n1 2 3"), Err(Error::Overflow));
    assert_eq!(plain::decode_wo_magic(b"1 1 255\n1 2 3").unwrap().buffer(), [1, 2, 3]);
    assert_eq!(plain::decode_wo_magic(b"0 1 255\n1 2 3"), Err(Error::ZeroWidth));
}

#[test]
fn raw_pixmap_byte_for_byte() {
    let img = Image::<u8, 3>::new(2, 1, vec![255, 0, 10, 1, 2, 3]).unwrap();
    assert_eq!(raw::encode(&img), b"P6 2 1 255\n\xff\x00\x0a\x01\x02\x03");
    let mut out = b"..".to_vec();
    assert_eq!(raw::encode_into(&img, &mut out), 17);
    assert_eq!(out, b"..P6 2 1 255\n\xff\x00\x0a\x01\x02\x03");
    assert_eq!(raw::size(&img), 2 + 22 + 5 + 6);
}

#[test]
fn raw_pixmap_is_read_back() {
    for (w, h) in [(1u32, 1u32), (1, 4), (5, 1), (3, 3), (20, 15)] {
        let v: Vec<u8> = (0..w * h * 3).map(|i| ((i + 1) * 29 % 256) as u8).collect();
        let img = Image::<u8, 3>::new(w, h, v).unwrap();
        let file = raw::encode(&img);
        assert!(file.len() <= raw::size(&img));
        assert_eq!(raw::decode(&file), Ok(img));
    }
}

#[test]
fn raw_pixmap_of_sixteen_pixels_with_a_byte_missing() {
    let mut file = b"P6 4 4 255\n".to_vec();
    file.extend_from_slice(&[b'x'; 47]);
    assert_eq!(raw::decode(&file), Err(Error::MissingData));
    file.push(b'x');
    assert_eq!(raw::decode(&file).unwrap().buffer(), [b'x'; 48]);
    file.push(b'y');
    assert_eq!(raw::decode(&file).unwrap().buffer(), [b'x'; 48]);
}

#[test]
fn raw_pixmap_takes_samples_as_they_are() {
    let img = raw::decode(b"P6 1 1 15\n\x00\x08\x0f").unwrap();
    assert_eq!(img.buffer(), [0, 8, 15]);
    let into = Uninit::<u8, 3>::new(1, 2).unwrap();
    assert_eq!(raw::decode_body_into(b"abcdefg", into).unwrap().buffer(), *b"abcdef");
    let into = Uninit::<u8, 3>::new(1, 2).unwrap();
    assert_eq!(raw::decode_body_into(b"abcde", into), Err(Error::MissingData));
}

#[test]
fn raw_pixmap_loses_the_whitespace_that_it_starts_with() {
    let img = Image::<u8, 3>::new(1, 1, vec![b' ', 1, 2]).unwrap();
    let file = raw::encode(&img);
    assert_eq!(file, b"P6 1 1 255\n \x01\x02");
    assert_eq!(raw::decode(&file), Err(Error::MissingData));
}

#[test]
fn raw_pixmap_with_a_bad_start() {
    assert_eq!(raw::decode(b"P5 1 1 255\n123"), Err(Error::WrongMagic { got: 5, should: 6 }));
    assert_eq!(raw::decode(b"\n"), Err(Error::MissingMagic));
    assert_eq!(raw::decode(b"P6 1 0 255\n123"), Err(Error::ZeroHeight));
    assert_eq!(raw::decode_wo_magic(b"1 1 255\n123").unwrap().buffer(), *b"123");
    assert_eq!(raw::decode_wo_magic(b"1 1 255\n"), Err(Error::MissingData));
}
