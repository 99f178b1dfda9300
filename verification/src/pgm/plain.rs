//! Plain ascii (human readable)
//! [PGM](https://en.wikipedia.org/wiki/Netpbm#PGM_example) (grayscale) images.
use crate::decode::{Error, Result};
use crate::encode::{ascii_string, chars};
use crate::image::Raster;
use crate::pixmap::{
    capped, decode_plain, decode_plain_body, decode_plain_wo_magic, encode_plain,
    lemma_plain_is_text, plain_body, plain_decoding, plain_decoding_wo_magic, plain_encoding,
    plain_estimate, plain_size,
};
use crate::pgm::{Input, Output, Uninit};
use vstd::prelude::*;

verus! {

/// The magic number of the format.
pub const MAGIC: u8 = 2;

/// Encode an image into a PGM ASCII image.
pub fn encode(x: Input) -> (y: String)
    ensures
        y@ == chars(plain_encoding(MAGIC, x@, 1)),
{
    let mut y = Vec::with_capacity(size(x));
    encode_into(x, &mut y);
    proof {
        lemma_plain_is_text(MAGIC, x@, 1);
    }
    ascii_string(y)
}

/// Decode an ASCII PGM image.
pub fn decode(x: &[u8]) -> (r: Result<Output>)
    ensures
        r matches Ok(img) ==> plain_decoding(x@, MAGIC, 1) == Ok::<Raster<u8>, Error>(img@),
        r matches Err(e) ==> plain_decoding(x@, MAGIC, 1) == Err::<Raster<u8>, Error>(e),
{
    decode_plain(x, MAGIC)
}

/// Decode without magic.
pub fn decode_wo_magic(x: &[u8]) -> (r: Result<Output>)
    ensures
        r matches Ok(img) ==> plain_decoding_wo_magic(x@, MAGIC, 1) == Ok::<Raster<u8>, Error>(
            img@,
        ),
        r matches Err(e) ==> plain_decoding_wo_magic(x@, MAGIC, 1) == Err::<Raster<u8>, Error>(e),
{
    decode_plain_wo_magic(x, MAGIC)
}

/// Reads the image that follows the header into the room that `into` has for
/// it. `max` is the maximum value that the header gave: samples are taken
/// from its scale to the scale up to 255.
pub fn decode_body_into(x: &[u8], into: Uninit, max: u8) -> (r: Result<Output>)
    ensures
        r matches Ok(img) ==> plain_body(x@, into.total(), max) == Ok::<Seq<u8>, Error>(
            img@.samples,
        ) && img@.width == into.spec_width() && img@.height == into.spec_height(),
        r matches Err(e) ==> plain_body(x@, into.total(), max) == Err::<Seq<u8>, Error>(e),
{
    decode_plain_body(x, into, max)
}

/// Writes the file behind what `out` holds, and returns the number of bytes
/// written, which is at most [`size`].
pub fn encode_into(x: Input, out: &mut Vec<u8>) -> (n: usize)
    ensures
        final(out)@ == old(out)@ + plain_encoding(MAGIC, x@, 1),
        n == plain_encoding(MAGIC, x@, 1).len(),
        n <= capped(plain_size(x@.height, x@.samples.len())),
{
    encode_plain(MAGIC, x, out)
}

/// An upper bound of the length of the file that [`encode_into`] writes.
pub fn size(x: Input) -> (n: usize)
    ensures
        n == capped(plain_size(x@.height, x@.samples.len())),
{
    plain_estimate(x.height(), x.len())
}

} // verus!
