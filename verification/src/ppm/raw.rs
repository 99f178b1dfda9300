//! Raw (binary) [PPM](https://en.wikipedia.org/wiki/Netpbm#PPM_example) (rgb)
//! images.
use crate::decode::{Error, Result};
use crate::image::Raster;
use crate::pixmap::{
    capped, decode_raw, decode_raw_body, decode_raw_wo_magic, encode_raw, raw_body, raw_decoding,
    raw_decoding_wo_magic, raw_encoding, raw_estimate, raw_size,
};
use crate::ppm::{Input, Output, Uninit};
use vstd::prelude::*;

verus! {

/// The magic number of the format.
pub const MAGIC: u8 = 6;

/// Encode an image into a raw (binary) PPM image.
pub fn encode(x: Input) -> (y: Vec<u8>)
    ensures
        y@ == raw_encoding(MAGIC, x@),
{
    let mut y = Vec::with_capacity(size(x));
    encode_into(x, &mut y);
    y
}

/// Decode a raw binary PPM image.
pub fn decode(x: &[u8]) -> (r: Result<Output>)
    ensures
        r matches Ok(img) ==> raw_decoding(x@, MAGIC, 3) == Ok::<Raster<u8>, Error>(img@),
        r matches Err(e) ==> raw_decoding(x@, MAGIC, 3) == Err::<Raster<u8>, Error>(e),
{
    decode_raw(x, MAGIC)
}

/// Decode without magic.
pub fn decode_wo_magic(x: &[u8]) -> (r: Result<Output>)
    ensures
        r matches Ok(img) ==> raw_decoding_wo_magic(x@, MAGIC, 3) == Ok::<Raster<u8>, Error>(img@),
        r matches Err(e) ==> raw_decoding_wo_magic(x@, MAGIC, 3) == Err::<Raster<u8>, Error>(e),
{
    decode_raw_wo_magic(x, MAGIC)
}

/// Writes the file behind what `out` holds, and returns the number of bytes
/// written, which is at most [`size`].
pub fn encode_into(x: Input, out: &mut Vec<u8>) -> (n: usize)
    ensures
        final(out)@ == old(out)@ + raw_encoding(MAGIC, x@),
        n == raw_encoding(MAGIC, x@).len(),
        n <= capped(raw_size(x@.samples.len())),
{
    encode_raw(MAGIC, x, out)
}

/// Reads the image that follows the header into the room that `into` has for
/// it. The input has to hold all of its samples.
pub fn decode_body_into(x: &[u8], into: Uninit) -> (r: Result<Output>)
    ensures
        r matches Ok(img) ==> raw_body(x@, into.total()) == Ok::<Seq<u8>, Error>(img@.samples)
            && img@.width == into.spec_width() && img@.height == into.spec_height(),
        r matches Err(e) ==> raw_body(x@, into.total()) == Err::<Seq<u8>, Error>(e),
{
    decode_raw_body(x, into)
}

/// An upper bound of the length of the file that [`encode_into`] writes.
pub fn size(x: Input) -> (n: usize)
    ensures
        n == capped(raw_size(x@.samples.len())),
{
    raw_estimate(x.len())
}

} // verus!
