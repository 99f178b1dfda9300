//! [Portable BitMap Format](https://en.wikipedia.org/wiki/Netpbm#PBM_example)
//! black and white image encoding and decoding.
//!
//! A pixel of a bitmap is `true` where the bitmap is on, which is where it is
//! black.
use crate::image::Image;
use vstd::prelude::*;

pub mod plain;
pub mod raw;

verus! {

/// What the encoders take.
pub type Input<'a> = &'a Image<bool, 1>;

/// What the decoders give.
pub type Output = Image<bool, 1>;

/// Room for what the decoders give.
pub type Uninit = crate::image::Uninit<bool, 1>;

/// The gray of a bitmap's pixel: 0 for one that is on, 255 for one that is
/// off.
pub open spec fn shade(on: bool) -> u8 {
    if on {
        0
    } else {
        0xff
    }
}

/// The graymap of a bitmap.
pub open spec fn shades(v: Seq<bool>) -> Seq<u8> {
    Seq::new(v.len(), |i: int| shade(v[i]))
}

/// What a bitmap's pixel can be decoded to: itself, or its gray.
pub trait Pixel: Sized {
    /// What the pixel is decoded to.
    spec fn of(on: bool) -> Self;

    /// Decodes the pixel.
    fn make(on: bool) -> (r: Self)
        ensures
            r == Self::of(on),
    ;
}

impl Pixel for bool {
    open spec fn of(on: bool) -> bool {
        on
    }

    fn make(on: bool) -> (r: bool) {
        on
    }
}

impl Pixel for u8 {
    open spec fn of(on: bool) -> u8 {
        shade(on)
    }

    fn make(on: bool) -> (r: u8) {
        if on {
            0
        } else {
            0xff
        }
    }
}

/// What the pixels of a bitmap are decoded to.
pub open spec fn pixels<T: Pixel>(v: Seq<bool>) -> Seq<T> {
    Seq::new(v.len(), |i: int| T::of(v[i]))
}

} // verus!
