//! [Portable GrayMap Format](https://en.wikipedia.org/wiki/Netpbm#PGM_example)
//! grayscale (no alpha) image encoding and decoding.
use crate::image::Image;
use vstd::prelude::*;

pub mod plain;
pub mod raw;

verus! {

/// The number of samples of a pixel.
pub const CHANNELS: usize = 1;

/// What the encoders take.
pub type Input<'a> = &'a Image<u8, 1>;

/// What the decoders give.
pub type Output = Image<u8, 1>;

/// Room for what the decoders give.
pub type Uninit = crate::image::Uninit<u8, 1>;

} // verus!
