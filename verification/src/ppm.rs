//! [Portable PixMap Format](https://en.wikipedia.org/wiki/Netpbm#PPM_example)
//! RGB (no alpha) image encoding and decoding.
use crate::image::Image;
use vstd::prelude::*;

pub mod plain;
pub mod raw;

verus! {

/// The number of samples of a pixel.
pub const CHANNELS: usize = 3;

/// What the encoders take.
pub type Input<'a> = &'a Image<u8, 3>;

/// What the decoders give.
pub type Output = Image<u8, 3>;

/// Room for what the decoders give.
pub type Uninit = crate::image::Uninit<u8, 3>;

} // verus!
