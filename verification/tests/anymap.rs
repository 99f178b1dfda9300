use pnm::decode::Error;
use pnm::image::{DynImage, Image};
use pnm::{decode, encode, encode_plain, Encode};

#[test]
fn raw_pixmap_goes_there_and_back() {
    let mut data = b"P6 2 2 255\n".to_vec();
    data.extend_from_slice(&[1, 2, 3, 40, 50, 60, 7, 8, 9, 255, 0, 128]);
    let out = decode(&data).unwrap();
    assert_eq!(encode(&out), data);
}

#[test]
fn each_magic_number_has_its_decoder() {
    let y = |v: Vec<u8>| Ok(DynImage::Y(Image::new(2, 1, v).unwrap()));
    assert_eq!(decode(b"P1 2 1\n1 0"), y(vec![0, 255]));
    assert_eq!(decode(b"P4 2 1\n\x40"), y(vec![255, 0]));
    assert_eq!(decode(b"P2 2 1 255\n1 0"), y(vec![1, 0]));
    assert_eq!(decode(b"P2 2 1 3\n1 0"), y(vec![85, 0]));
    assert_eq!(decode(b"P5 2 1 255\n10"), y(vec![b'1', b'0']));
    assert_eq!(
        decode(b"P3 1 1 255\n1 0 2"),
        Ok(DynImage::Rgb(Image::new(1, 1, vec![1, 0, 2]).unwrap()))
    );
    assert_eq!(
        decode(b"P6 1 1 255\n102"),
        Ok(DynImage::Rgb(Image::new(1, 1, vec![b'1', b'0', b'2']).unwrap()))
    );
    assert_eq!(
        decode(b"P7\nWIDTH 1\nHEIGHT 1\nDEPTH 4\nMAXVAL 255\nTUPLTYPE RGB_ALPHA\nENDHDR\n1024"),
        Ok(DynImage::Rgba(Image::new(1, 1, b"1024".to_vec()).unwrap()))
    );
}

#[test]
fn other_magic_numbers_are_bad() {
    assert_eq!(decode(b"P0 1 1\n1"), Err(Error::BadMagic(0)));
    assert_eq!(decode(b"P8 1 1\n1"), Err(Error::BadMagic(8)));
    assert_eq!(decode(b"P9 1 1\n1"), Err(Error::BadMagic(9)));
    assert_eq!(decode(b"P: 1 1\n1"), Err(Error::BadMagic(10)));
}

#[test]
fn magic_number_is_missing_from_what_is_no_anymap() {
    assert_eq!(decode(b""), Err(Error::MissingMagic));
    assert_eq!(decode(b"\x89PNG\r\n"), Err(Error::MissingMagic));
    assert_eq!(decode(b"P"), Err(Error::MissingMagic));
    assert_eq!(decode(b"P/ 1 1\n1"), Err(Error::MissingMagic));
}

#[test]
fn file_that_ends_behind_its_magic_number() {
    assert_eq!(decode(b"P6"), Err(Error::ZeroWidth));
    assert_eq!(decode(b"P1\n"), Err(Error::ZeroWidth));
    assert_eq!(decode(b"P4 "), Err(Error::ZeroWidth));
    assert_eq!(decode(b"P7"), Err(Error::MissingWidth));
    assert_eq!(decode(b"P8"), Err(Error::BadMagic(8)));
}

#[test]
fn errors_of_the_decoders_come_through() {
    assert_eq!(decode(b"P1 0 5\n"), Err(Error::ZeroWidth));
    assert_eq!(decode(b"P1 5 0\n"), Err(Error::ZeroHeight));
    assert_eq!(decode(b"P4 5 0\n"), Err(Error::ZeroHeight));
    assert_eq!(decode(b"P4 9 2\n\xaa\x80\xaa"), Err(Error::MissingData));
    assert_eq!(decode(b"P1 2 2\n1 0 1"), Err(Error::MissingData));
    assert_eq!(decode(b"P5 2 2 256\n"), Err(Error::Overflow));
    assert_eq!(decode(b"P6 65536 65536 255\n"), Err(Error::TooLarge));
    assert_eq!(decode(b"P3 2 z 255\n"), Err(Error::NotDigit('z')));
    assert_eq!(decode(b"P7\nWIDTH 1\nHEIGHT 1\nDEPTH 1\n"), Err(Error::MissingMax));
}

#[test]
fn images_are_encoded_by_their_kind() {
    let y = Image::<u8, 1>::new(2, 1, vec![1, 2]).unwrap();
    assert_eq!(encode(&y), b"P5 2 1 255\n\x01\x02");
    assert_eq!(encode_plain(&y), "P2 2 1 255\n1   2   \n");
    let ya = Image::<u8, 2>::new(2, 1, vec![1, 201, 2, 202]).unwrap();
    assert_eq!(encode(&ya), b"P5 2 1 255\n\x01\x02");
    assert_eq!(encode_plain(&ya), "P2 2 1 255\n1   2   \n");
    let rgb = Image::<u8, 3>::new(1, 2, vec![1, 2, 3, 4, 5, 6]).unwrap();
    assert_eq!(encode(&rgb), b"P6 1 2 255\n\x01\x02\x03\x04\x05\x06");
    assert_eq!(encode_plain(&rgb), "P3 1 2 255\n1   2   3   \n4   5   6   \n");
    let rgba = Image::<u8, 4>::new(1, 2, vec![1, 2, 3, 201, 4, 5, 6, 202]).unwrap();
    assert_eq!(encode(&rgba), b"P6 1 2 255\n\x01\x02\x03\x04\x05\x06");
    assert_eq!(encode_plain(&rgba), "P3 1 2 255\n1   2   3   \n4   5   6   \n");
    assert_eq!(rgba.encode(), encode(&rgba));
    assert_eq!(rgba.encode_plain(), encode_plain(&rgba));
}

#[test]
fn images_of_any_kind_are_encoded_as_what_they_hold() {
    let y = DynImage::Y(Image::new(2, 1, vec![1, 2]).unwrap());
    assert_eq!(encode(&y), b"P5 2 1 255\n\x01\x02");
    assert_eq!(encode_plain(&y), "P2 2 1 255\n1   2   \n");
    let ya = DynImage::Ya(Image::new(2, 1, vec![1, 201, 2, 202]).unwrap());
    assert_eq!(encode(&ya), b"P5 2 1 255\n\x01\x02");
    assert_eq!(encode_plain(&ya), "P2 2 1 255\n1   2   \n");
    let rgb = DynImage::Rgb(Image::new(1, 1, vec![1, 2, 3]).unwrap());
    assert_eq!(encode(&rgb), b"P6 1 1 255\n\x01\x02\x03");
    assert_eq!(encode_plain(&rgb), "P3 1 1 255\n1   2   3   \n");
    let rgba = DynImage::Rgba(Image::new(1, 1, vec![1, 2, 3, 201]).unwrap());
    assert_eq!(encode(&rgba), b"P6 1 1 255\n\x01\x02\x03");
    assert_eq!(encode_plain(&rgba), "P3 1 1 255\n1   2   3   \n");
}

#[test]
fn what_was_encoded_is_decoded_to_what_it_was() {
    for (w, h) in [(1u32, 1u32), (4, 3), (20, 15)] {
        let gray: Vec<u8> = (0..w * h).map(|i| ((i + 1) * 29 % 256) as u8).collect();
        let y = DynImage::Y(Image::new(w, h, gray).unwrap());
        assert_eq!(decode(&encode(&y)).as_ref(), Ok(&y));
        assert_eq!(decode(encode_plain(&y).as_bytes()).as_ref(), Ok(&y));
        let colors: Vec<u8> = (0..w * h * 3).map(|i| ((i + 1) * 29 % 256) as u8).collect();
        let rgb = DynImage::Rgb(Image::new(w, h, colors).unwrap());
        assert_eq!(decode(&encode(&rgb)).as_ref(), Ok(&rgb));
        assert_eq!(decode(encode_plain(&rgb).as_bytes()).as_ref(), Ok(&rgb));
    }
}

#[test]
fn bitmaps_are_decoded_to_graymaps() {
    let pixels = vec![true, false, false, true, true, true, false, false, false, true];
    let shades = vec![0, 255, 255, 0, 0, 0, 255, 255, 255, 0];
    for (w, h) in [(10u32, 1u32), (5, 2), (2, 5), (1, 10)] {
        let bitmap = Image::<bool, 1>::new(w, h, pixels.clone()).unwrap();
        let gray = DynImage::Y(Image::new(w, h, shades.clone()).unwrap());
        assert_eq!(decode(&pnm::pbm::raw::encode(&bitmap)).as_ref(), Ok(&gray));
        assert_eq!(decode(pnm::pbm::plain::encode(&bitmap).as_bytes()).as_ref(), Ok(&gray));
        assert_eq!(decode(&pnm::pam::encode_bitmap(&bitmap)).as_ref(), Ok(&gray));
    }
}

#[test]
fn what_the_newer_format_holds_is_decoded_to_what_it_was() {
    for (w, h) in [(1u32, 1u32), (4, 3), (20, 15)] {
        let v = |c: u32| (0..w * h * c).map(|i| (i * 31 % 256) as u8).collect::<Vec<u8>>();
        let y = DynImage::Y(Image::new(w, h, v(1)).unwrap());
        assert_eq!(decode(&pnm::pam::encode(&y)).as_ref(), Ok(&y));
        let ya = DynImage::Ya(Image::new(w, h, v(2)).unwrap());
        assert_eq!(decode(&pnm::pam::encode(&ya)).as_ref(), Ok(&ya));
        let rgb = DynImage::Rgb(Image::new(w, h, v(3)).unwrap());
        assert_eq!(decode(&pnm::pam::encode(&rgb)).as_ref(), Ok(&rgb));
        let rgba = DynImage::Rgba(Image::new(w, h, v(4)).unwrap());
        assert_eq!(decode(&pnm::pam::encode(&rgba)).as_ref(), Ok(&rgba));
    }
}

#[test]
fn alpha_is_lost_in_the_older_formats() {
    let ya = DynImage::Ya(Image::new(2, 1, vec![1, 201, 2, 202]).unwrap());
    let y = DynImage::Y(Image::new(2, 1, vec![1, 2]).unwrap());
    assert_eq!(decode(&encode(&ya)).as_ref(), Ok(&y));
    assert_eq!(decode(encode_plain(&ya).as_bytes()).as_ref(), Ok(&y));
    let rgba = DynImage::Rgba(Image::new(1, 2, vec![1, 2, 3, 201, 4, 5, 6, 202]).unwrap());
    let rgb = DynImage::Rgb(Image::new(1, 2, vec![1, 2, 3, 4, 5, 6]).unwrap());
    assert_eq!(decode(&encode(&rgba)).as_ref(), Ok(&rgb));
    assert_eq!(decode(encode_plain(&rgba).as_bytes()).as_ref(), Ok(&rgb));
}
