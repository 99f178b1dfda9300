//! Decoding and encoding of the portable anymap formats.
//!
//! ### a quick guide to the various functions for everyday use
//!
//! - [`decode()`]: your go-to for all PNM image decoding.
//!   If you have a specific format you need to support, use its module
//!   directly. Note that this function reads both plain and raw formats.
//! - [`encode()`]: this function is a little tricky.
//!   It supports the "older" PNM formats, and, due to their age they do not
//!   know of an alpha channel. If possible, use [`pam::encode`] instead.
//! - [`encode_plain`]: the `PAM` format cannot be read by humans, so this is
//!   still useful at times. Outputs data in decimal digits.
//!
//! ### what is proved
//!
//! Every function states what it returns over the bytes it is given, and for
//! each format a law states that a file that was written is read back as the
//! image that it was written of.
use crate::decode::{decode_header, is_space, tag, Error, Result};
use crate::encode::chars;
use crate::image::{lemma_without_last, opaque, DynImage, Image, Picture, Raster, Uninit};
use crate::pbm::shades;
use crate::pixmap::{
    plain_decoding_wo_magic, plain_encoding, raw_decoding_wo_magic, raw_encoding, roundtrip_plain,
    roundtrip_raw,
};
use vstd::prelude::*;

pub mod decode;
pub mod encode;
pub mod image;
pub mod pam;
pub mod pbm;
pub mod pgm;
pub mod pixmap;
pub mod ppm;

pub use crate::pam::PAM;

verus! {

/// The graymap of what decoding a bitmap gave.
pub open spec fn gray(bitmap: Result<Raster<bool>>) -> Result<Picture> {
    match bitmap {
        Err(e) => Err(e),
        Ok(r) => Ok(
            Picture::Y(Raster { width: r.width, height: r.height, samples: shades(r.samples) }),
        ),
    }
}

/// The picture of what decoding a graymap gave.
pub open spec fn y(graymap: Result<Raster<u8>>) -> Result<Picture> {
    match graymap {
        Err(e) => Err(e),
        Ok(r) => Ok(Picture::Y(r)),
    }
}

/// The picture of what decoding a pixmap gave.
pub open spec fn rgb(pixmap: Result<Raster<u8>>) -> Result<Picture> {
    match pixmap {
        Err(e) => Err(e),
        Ok(r) => Ok(Picture::Rgb(r)),
    }
}

/// The picture that a file of any of the formats holds. The magic number
/// says which format it is. A bitmap is read as a graymap, 255 where it is
/// off and 0 where it is on.
pub open spec fn decoding(s: Seq<u8>) -> Result<Picture> {
    let rest = tag(s).1;
    match tag(s).0 {
        None => Err(Error::MissingMagic),
        Some(magic) => if magic == pbm::raw::MAGIC {
            gray(pbm::raw::decoding_wo_magic(rest))
        } else if magic == pbm::plain::MAGIC {
            gray(pbm::plain::decoding_wo_magic(rest))
        } else if magic == pgm::raw::MAGIC {
            y(raw_decoding_wo_magic(rest, magic, 1))
        } else if magic == pgm::plain::MAGIC {
            y(plain_decoding_wo_magic(rest, magic, 1))
        } else if magic == ppm::raw::MAGIC {
            rgb(raw_decoding_wo_magic(rest, magic, 3))
        } else if magic == ppm::plain::MAGIC {
            rgb(plain_decoding_wo_magic(rest, magic, 3))
        } else if magic == pam::MAGIC {
            pam::decoding_wo_magic(rest)
        } else {
            Err(Error::BadMagic(magic))
        },
    }
}

/// Decode any [`pgm`], [`ppm`], [`pbm`], [`pam`] image.
pub fn decode(x: &[u8]) -> (r: Result<DynImage>)
    ensures
        r matches Ok(img) ==> decoding(x@) == Ok::<Picture, Error>(img@),
        r matches Err(e) ==> decoding(x@) == Err::<Picture, Error>(e),
{
    let mut x = x;
    let magic: u8 = match decode::magic(&mut x) {
        Some(magic) => magic,
        None => {
            return Err(Error::MissingMagic);
        },
    };
    match magic {
        pbm::raw::MAGIC => {
            let head = decode_header(&mut x, pbm::raw::MAGIC)?;
            match Uninit::new(head.width, head.height) {
                Some(into) => Ok(DynImage::Y(pbm::raw::decode_body_into_u8(x, into)?)),
                None => Err(Error::MissingData),
            }
        },
        pbm::plain::MAGIC => {
            let head = decode_header(&mut x, pbm::plain::MAGIC)?;
            match Uninit::new(head.width, head.height) {
                Some(into) => Ok(DynImage::Y(pbm::plain::decode_body_into_u8(x, into)?)),
                None => Err(Error::MissingData),
            }
        },
        pgm::raw::MAGIC => Ok(DynImage::Y(pgm::raw::decode_wo_magic(x)?)),
        pgm::plain::MAGIC => Ok(DynImage::Y(pgm::plain::decode_wo_magic(x)?)),
        ppm::raw::MAGIC => Ok(DynImage::Rgb(ppm::raw::decode_wo_magic(x)?)),
        ppm::plain::MAGIC => Ok(DynImage::Rgb(ppm::plain::decode_wo_magic(x)?)),
        pam::MAGIC => pam::decode_wo_magic(x),
        _ => Err(Error::BadMagic(magic)),
    }
}

/// Images that can be written in one of the older formats.
pub trait Encode {
    /// The raw file of the image.
    spec fn encoded(&self) -> Seq<u8>;

    /// The plain file of the image.
    spec fn encoded_plain(&self) -> Seq<u8>;

    /// Encodes the image in the raw format.
    fn encode(&self) -> (y: Vec<u8>)
        ensures
            y@ == self.encoded(),
    ;

    /// Encodes the image in the plain format.
    fn encode_plain(&self) -> (y: String)
        ensures
            y@ == chars(self.encoded_plain()),
    ;
}

impl Encode for Image<u8, 1> {
    open spec fn encoded(&self) -> Seq<u8> {
        raw_encoding(pgm::raw::MAGIC, self@)
    }

    open spec fn encoded_plain(&self) -> Seq<u8> {
        plain_encoding(pgm::plain::MAGIC, self@, 1)
    }

    fn encode(&self) -> (y: Vec<u8>) {
        pgm::raw::encode(self)
    }

    fn encode_plain(&self) -> (y: String) {
        pgm::plain::encode(self)
    }
}

impl Encode for Image<u8, 2> {
    open spec fn encoded(&self) -> Seq<u8> {
        raw_encoding(pgm::raw::MAGIC, opaque(self@, 2))
    }

    open spec fn encoded_plain(&self) -> Seq<u8> {
        plain_encoding(pgm::plain::MAGIC, opaque(self@, 2), 1)
    }

    fn encode(&self) -> (y: Vec<u8>) {
        pgm::raw::encode(&self.y())
    }

    fn encode_plain(&self) -> (y: String) {
        pgm::plain::encode(&self.y())
    }
}

impl Encode for Image<u8, 3> {
    open spec fn encoded(&self) -> Seq<u8> {
        raw_encoding(ppm::raw::MAGIC, self@)
    }

    open spec fn encoded_plain(&self) -> Seq<u8> {
        plain_encoding(ppm::plain::MAGIC, self@, 3)
    }

    fn encode(&self) -> (y: Vec<u8>) {
        ppm::raw::encode(self)
    }

    fn encode_plain(&self) -> (y: String) {
        ppm::plain::encode(self)
    }
}

impl Encode for Image<u8, 4> {
    open spec fn encoded(&self) -> Seq<u8> {
        raw_encoding(ppm::raw::MAGIC, opaque(self@, 4))
    }

    open spec fn encoded_plain(&self) -> Seq<u8> {
        plain_encoding(ppm::plain::MAGIC, opaque(self@, 4), 3)
    }

    fn encode(&self) -> (y: Vec<u8>) {
        ppm::raw::encode(&self.rgb())
    }

    fn encode_plain(&self) -> (y: String) {
        ppm::plain::encode(&self.rgb())
    }
}

impl Encode for DynImage {
    open spec fn encoded(&self) -> Seq<u8> {
        match self {
            DynImage::Y(x) => x.encoded(),
            DynImage::Ya(x) => x.encoded(),
            DynImage::Rgb(x) => x.encoded(),
            DynImage::Rgba(x) => x.encoded(),
        }
    }

    open spec fn encoded_plain(&self) -> Seq<u8> {
        match self {
            DynImage::Y(x) => x.encoded_plain(),
            DynImage::Ya(x) => x.encoded_plain(),
            DynImage::Rgb(x) => x.encoded_plain(),
            DynImage::Rgba(x) => x.encoded_plain(),
        }
    }

    fn encode(&self) -> (y: Vec<u8>) {
        match self {
            DynImage::Y(x) => encode(x),
            DynImage::Ya(x) => encode(x),
            DynImage::Rgb(x) => encode(x),
            DynImage::Rgba(x) => encode(x),
        }
    }

    fn encode_plain(&self) -> (y: String) {
        match self {
            DynImage::Y(x) => encode_plain(x),
            DynImage::Ya(x) => encode_plain(x),
            DynImage::Rgb(x) => encode_plain(x),
            DynImage::Rgba(x) => encode_plain(x),
        }
    }
}

/// Encodes an image to one of the [`pgm`] or [`ppm`] portable anymap formats.
///
/// Please note that this will not produce a [`pam`], use [`pam::PAM`] for
/// that.
pub fn encode<E: Encode>(x: &E) -> (y: Vec<u8>)
    ensures
        y@ == x.encoded(),
{
    x.encode()
}

/// Encodes an image to one of the [`pgm`] or [`ppm`] portable anymap formats,
/// in decimal digits.
///
/// Please note that this will not produce a [`pam`], use [`pam::PAM`] for
/// that.
pub fn encode_plain<E: Encode>(x: &E) -> (y: String)
    ensures
        y@ == chars(x.encoded_plain()),
{
    x.encode_plain()
}

impl Picture {
    /// The picture as the older formats hold it: without its alpha.
    pub open spec fn without_alpha(self) -> Picture {
        match self {
            Picture::Y(r) => Picture::Y(r),
            Picture::Ya(r) => Picture::Y(opaque(r, 2)),
            Picture::Rgb(r) => Picture::Rgb(r),
            Picture::Rgba(r) => Picture::Rgb(opaque(r, 4)),
        }
    }
}

/// A picture without its alpha is sound if the picture is, and starts with
/// the same sample.
proof fn lemma_without_alpha(p: Picture)
    requires
        p.wf(),
    ensures
        p.without_alpha().wf(),
        p.without_alpha().raster().width == p.raster().width,
        p.without_alpha().raster().height == p.raster().height,
        p.without_alpha().raster().samples.len() > 0,
        p.without_alpha().raster().samples[0] == p.raster().samples[0],
{
    let r = p.raster();
    let pixels = r.width * r.height;
    assert(pixels >= 1 && pixels * p.without_alpha().channels() >= 1) by (nonlinear_arith)
        requires
            pixels == r.width * r.height,
            r.width >= 1,
            r.height >= 1,
            p.without_alpha().channels() >= 1,
    ;
    lemma_without_last(r.samples, p.channels(), pixels);
}

/// What [`encode`] wrote of an image is read back by [`decode`] as that
/// image without its alpha, if the image's first sample is no whitespace byte
/// and its pixels can be counted in 32 bits.
pub proof fn roundtrip(img: DynImage)
    requires
        img@.wf(),
        img@.raster().width * img@.raster().height <= u32::MAX,
        !is_space(img@.raster().samples[0]),
    ensures
        decoding(img.encoded()) == Ok::<Picture, Error>(img@.without_alpha()),
{
    lemma_without_alpha(img@);
    match img@.without_alpha() {
        Picture::Y(r) => roundtrip_raw(pgm::raw::MAGIC, r, 1),
        Picture::Rgb(r) => roundtrip_raw(ppm::raw::MAGIC, r, 3),
        _ => {},
    }
}

/// What [`encode_plain`] wrote of an image is read back by [`decode`] as that
/// image without its alpha, if the image's pixels can be counted in 32 bits.
pub proof fn roundtrip_of_plain(img: DynImage)
    requires
        img@.wf(),
        img@.raster().width * img@.raster().height <= u32::MAX,
    ensures
        decoding(img.encoded_plain()) == Ok::<Picture, Error>(img@.without_alpha()),
{
    lemma_without_alpha(img@);
    match img@.without_alpha() {
        Picture::Y(r) => roundtrip_plain(pgm::plain::MAGIC, r, 1),
        Picture::Rgb(r) => roundtrip_plain(ppm::plain::MAGIC, r, 3),
        _ => {},
    }
}

/// The raw file of a bitmap is read back by [`decode`] as the graymap of that
/// bitmap, if its pixels can be counted in 32 bits.
pub proof fn roundtrip_of_raw_bitmap(r: Raster<bool>)
    requires
        r.wf(1),
        r.width * r.height <= u32::MAX,
    ensures
        decoding(pbm::raw::encoding(r)) == gray(Ok(r)),
{
    pbm::raw::roundtrip(r);
}

/// The plain file of a bitmap is read back by [`decode`] as the graymap of
/// that bitmap, if its pixels can be counted in 32 bits.
pub proof fn roundtrip_of_plain_bitmap(r: Raster<bool>)
    requires
        r.wf(1),
        r.width * r.height <= u32::MAX,
    ensures
        decoding(pbm::plain::encoding(r)) == gray(Ok(r)),
{
    pbm::plain::roundtrip(r);
}

/// What [`pam::encode`] wrote of an image is read back by [`decode`] as that
/// image, if its pixels can be counted in 32 bits.
pub proof fn roundtrip_of_pam(img: DynImage)
    requires
        img@.wf(),
        img@.raster().width * img@.raster().height <= u32::MAX,
    ensures
        decoding(pam::PAM::pam(&img)) == Ok::<Picture, Error>(img@),
{
    match img@ {
        Picture::Y(r) => pam::roundtrip(pam::Type::Y, r),
        Picture::Ya(r) => pam::roundtrip(pam::Type::YA, r),
        Picture::Rgb(r) => pam::roundtrip(pam::Type::RGB, r),
        Picture::Rgba(r) => pam::roundtrip(pam::Type::RGBA, r),
    }
}

/// What [`pam::encode_bitmap`] wrote of a bitmap is read back by [`decode`]
/// as the graymap of that bitmap, if its pixels can be counted in 32 bits.
pub proof fn roundtrip_of_pam_bitmap(r: Raster<bool>)
    requires
        r.wf(1),
        r.width * r.height <= u32::MAX,
    ensures
        decoding(pam::file(r.width, r.height, pam::Type::Bit, pam::stored_bits(r.samples))) == gray(
            Ok(r),
        ),
{
    pam::roundtrip_bitmap(r);
}

} // verus!
