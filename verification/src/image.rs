//! The pixel containers that the codecs read from and write into.
//!
//! An [`Image`] always holds `width * height * CHANNELS` samples and has no
//! empty side. Its mathematical model is a [`Raster`]: two sizes and the
//! samples in row-major order. Contracts across the crate speak of rasters.
use vstd::prelude::*;

verus! {

/// The model of an image: its size and its samples, row by row, pixel by
/// pixel, channel by channel.
pub struct Raster<T> {
    pub width: nat,
    pub height: nat,
    pub samples: Seq<T>,
}

impl<T> Raster<T> {
    /// A raster of `channels` samples per pixel is sound when neither side is
    /// empty, a pixel has at least one sample, and every pixel has all of its
    /// samples.
    pub open spec fn wf(self, channels: nat) -> bool {
        &&& self.width > 0
        &&& self.height > 0
        &&& channels > 0
        &&& self.samples.len() == self.width * self.height * channels
    }
}

/// The number of samples in an image of the given size, or `None` when that
/// number does not fit a `usize`.
pub fn sample_count(width: u32, height: u32, channels: usize) -> (n: Option<usize>)
    ensures
        n matches Some(k) ==> k == width * height * channels,
        n.is_none() <==> width * height * channels > usize::MAX,
{
    if width == 0 || height == 0 || channels == 0 {
        assert(width * height * channels == 0) by (nonlinear_arith)
            requires
                width == 0 || height == 0 || channels == 0,
        ;
        return Some(0);
    }
    assert(1 <= width * height <= u64::MAX) by (nonlinear_arith)
        requires
            1 <= width <= u32::MAX,
            1 <= height <= u32::MAX,
    ;
    let area: u64 = width as u64 * height as u64;
    if area > usize::MAX as u64 {
        assert(width * height * channels > usize::MAX) by (nonlinear_arith)
            requires
                width * height > usize::MAX,
                channels >= 1,
        ;
        return None;
    }
    (area as usize).checked_mul(channels)
}

/// An image of `CHANNELS` samples per pixel.
#[derive(Debug, PartialEq, Eq)]
pub struct Image<T, const CHANNELS: usize> {
    width: u32,
    height: u32,
    buffer: Vec<T>,
}

impl<T, const CHANNELS: usize> View for Image<T, CHANNELS> {
    type V = Raster<T>;

    closed spec fn view(&self) -> Raster<T> {
        Raster { width: self.width as nat, height: self.height as nat, samples: self.buffer@ }
    }
}

impl<T, const CHANNELS: usize> Image<T, CHANNELS> {
    #[verifier::type_invariant]
    spec fn inv(&self) -> bool {
        self@.wf(CHANNELS as nat)
    }

    /// Makes an image out of its parts, or `None` when a side is zero, when
    /// `CHANNELS` is zero, or when `buffer` does not hold exactly
    /// `width * height * CHANNELS` samples.
    pub fn new(width: u32, height: u32, buffer: Vec<T>) -> (r: Option<Self>)
        ensures
            r.is_some() <==> (Raster {
                width: width as nat,
                height: height as nat,
                samples: buffer@,
            }).wf(CHANNELS as nat),
            r matches Some(img) ==> img@ == (Raster {
                width: width as nat,
                height: height as nat,
                samples: buffer@,
            }),
    {
        if width == 0 || height == 0 || CHANNELS == 0 {
            return None;
        }
        let ghost model = Raster { width: width as nat, height: height as nat, samples: buffer@ };
        assert(model.width * model.height * (CHANNELS as nat) == width * height * CHANNELS);
        let len: usize = buffer.len();
        match sample_count(width, height, CHANNELS) {
            Some(n) => {
                if len == n {
                    Some(Image { width, height, buffer })
                } else {
                    None
                }
            },
            None => None,
        }
    }

    /// Makes an image out of parts that fit together.
    pub(crate) fn assemble(width: u32, height: u32, buffer: Vec<T>) -> (r: Self)
        requires
            (Raster { width: width as nat, height: height as nat, samples: buffer@ }).wf(
                CHANNELS as nat,
            ),
        ensures
            r@ == (Raster { width: width as nat, height: height as nat, samples: buffer@ }),
    {
        Image { width, height, buffer }
    }

    /// The number of samples per pixel.
    pub fn channels(&self) -> (c: usize)
        ensures
            c == CHANNELS,
            self@.wf(CHANNELS as nat),
    {
        proof {
            use_type_invariant(self);
        }
        CHANNELS
    }

    /// The number of pixels in a row.
    pub fn width(&self) -> (w: u32)
        ensures
            w == self@.width,
            self@.wf(CHANNELS as nat),
    {
        proof {
            use_type_invariant(self);
        }
        self.width
    }

    /// The number of rows.
    pub fn height(&self) -> (h: u32)
        ensures
            h == self@.height,
            self@.wf(CHANNELS as nat),
    {
        proof {
            use_type_invariant(self);
        }
        self.height
    }

    /// The samples, in row-major order.
    pub fn buffer(&self) -> (b: &[T])
        ensures
            b@ == self@.samples,
            self@.wf(CHANNELS as nat),
    {
        proof {
            use_type_invariant(self);
        }
        self.buffer.as_slice()
    }

    /// The number of samples.
    pub fn len(&self) -> (n: usize)
        ensures
            n == self@.samples.len(),
            n == self@.width * self@.height * CHANNELS,
            self@.wf(CHANNELS as nat),
    {
        proof {
            use_type_invariant(self);
        }
        self.buffer.len()
    }

    /// Gives up the image for its samples.
    pub fn take_buffer(self) -> (b: Vec<T>)
        ensures
            b@ == self@.samples,
            self@.wf(CHANNELS as nat),
    {
        proof {
            use_type_invariant(&self);
        }
        self.buffer
    }
}

/// Room for an image that is yet to be decoded: its size is known, and none
/// of its samples is.
pub struct Uninit<T, const CHANNELS: usize> {
    width: u32,
    height: u32,
    buffer: Vec<T>,
}

impl<T, const CHANNELS: usize> Uninit<T, CHANNELS> {
    #[verifier::type_invariant]
    spec fn inv(&self) -> bool {
        &&& self.width > 0
        &&& self.height > 0
        &&& CHANNELS > 0
        &&& self.width * self.height * CHANNELS <= usize::MAX
        &&& self.buffer@.len() == 0
    }

    /// The number of pixels in a row of the image.
    pub closed spec fn spec_width(&self) -> nat {
        self.width as nat
    }

    /// The number of rows of the image.
    pub closed spec fn spec_height(&self) -> nat {
        self.height as nat
    }

    /// The number of samples of the image.
    pub open spec fn total(&self) -> nat {
        self.spec_width() * self.spec_height() * (CHANNELS as nat)
    }

    /// What every value of this type satisfies.
    pub open spec fn wf(&self) -> bool {
        &&& 0 < self.spec_width() <= u32::MAX
        &&& 0 < self.spec_height() <= u32::MAX
        &&& CHANNELS > 0
        &&& self.total() <= usize::MAX
    }

    /// Reserves room for an image of `width` by `height` pixels, or returns
    /// `None` when a side is zero, when `CHANNELS` is zero, or when the
    /// number of samples does not fit a `usize`.
    pub fn new(width: u32, height: u32) -> (r: Option<Self>)
        ensures
            r.is_some() <==> width > 0 && height > 0 && CHANNELS > 0 && width * height * CHANNELS
                <= usize::MAX,
            r matches Some(u) ==> u.spec_width() == width && u.spec_height() == height && u.wf(),
    {
        if width == 0 || height == 0 || CHANNELS == 0 {
            return None;
        }
        match sample_count(width, height, CHANNELS) {
            Some(n) => Some(Uninit { width, height, buffer: Vec::with_capacity(n) }),
            None => None,
        }
    }

    /// The number of pixels in a row of the image.
    pub fn width(&self) -> (w: u32)
        ensures
            w == self.spec_width(),
            self.wf(),
    {
        proof {
            use_type_invariant(self);
        }
        self.width
    }

    /// The number of rows of the image.
    pub fn height(&self) -> (h: u32)
        ensures
            h == self.spec_height(),
            self.wf(),
    {
        proof {
            use_type_invariant(self);
        }
        self.height
    }

    /// The number of samples of the image.
    pub fn len(&self) -> (n: usize)
        ensures
            n == self.total(),
            self.wf(),
    {
        proof {
            use_type_invariant(self);
        }
        match sample_count(self.width, self.height, CHANNELS) {
            Some(k) => k,
            None => 0,
        }
    }

    /// Gives up the reserved room, to be filled.
    pub(crate) fn take_buffer(self) -> (b: Vec<T>)
        ensures
            b@.len() == 0,
    {
        proof {
            use_type_invariant(&self);
        }
        self.buffer
    }
}

/// The samples `s` of pixels of `channels` samples each, without the last
/// sample of each pixel.
pub open spec fn without_last(s: Seq<u8>, channels: nat) -> Seq<u8>
    decreases s.len(),
{
    if channels == 0 || s.len() < channels {
        Seq::empty()
    } else {
        without_last(s.take(s.len() - channels), channels) + s.subrange(
            s.len() - channels,
            s.len() - 1,
        )
    }
}

/// The raster `r` of pixels of `channels` samples each, without the last
/// sample of each pixel, which is its alpha.
pub open spec fn opaque(r: Raster<u8>, channels: nat) -> Raster<u8> {
    Raster { width: r.width, height: r.height, samples: without_last(r.samples, channels) }
}

/// Pixels without their last sample have one sample fewer each, and start
/// with the same sample where they have two samples or more.
pub proof fn lemma_without_last(s: Seq<u8>, channels: nat, pixels: nat)
    requires
        channels >= 1,
        s.len() == pixels * channels,
    ensures
        without_last(s, channels).len() == pixels * (channels - 1),
        pixels >= 1 && channels >= 2 ==> without_last(s, channels)[0] == s[0],
    decreases pixels,
{
    if pixels == 0 {
        assert(s.len() == 0 && pixels * (channels - 1) == 0) by (nonlinear_arith)
            requires
                s.len() == pixels * channels,
                pixels == 0,
        ;
    } else {
        assert(s.len() - channels == (pixels - 1) * channels && s.len() >= channels && pixels * (
        channels - 1) == (pixels - 1) * (channels - 1) + (channels - 1) && (pixels - 1) * (channels
            - 1) >= 0) by (nonlinear_arith)
            requires
                s.len() == pixels * channels,
                pixels >= 1,
                channels >= 1,
        ;
        let front = s.take(s.len() - channels);
        lemma_without_last(front, channels, (pixels - 1) as nat);
        if pixels == 1 {
            assert(front.len() == 0) by (nonlinear_arith)
                requires
                    front.len() == (pixels - 1) * channels,
                    pixels == 1,
            ;
            assert(without_last(front, channels) =~= Seq::<u8>::empty());
        } else {
            assert((pixels - 1) * (channels - 1) >= 1 || channels < 2) by (nonlinear_arith)
                requires
                    pixels >= 2,
                    channels >= 1,
            ;
        }
    }
}

/// Copies an image without the last sample of each pixel.
fn drop_last_channel<const FROM: usize, const TO: usize>(x: &Image<u8, FROM>) -> (r: Image<u8, TO>)
    requires
        FROM == TO + 1,
        TO > 0,
    ensures
        r@ == opaque(x@, FROM as nat),
{
    let width: u32 = x.width();
    let height: u32 = x.height();
    let v = x.buffer();
    assert(v@.len() == v.len());
    let mut out: Vec<u8> = Vec::with_capacity(v.len());
    let mut i: usize = 0;
    let ghost mut pixels: nat = 0;
    assert(v@.take(0) =~= Seq::<u8>::empty());
    assert(0 * FROM == 0 && 0 * TO == 0) by (nonlinear_arith);
    while i < v.len()
        invariant
            FROM == TO + 1,
            TO > 0,
            v@.len() == v.len(),
            v@.len() == width * height * FROM,
            i == pixels * FROM,
            i <= v@.len(),
            out@ == without_last(v@.take(i as int), FROM as nat),
            out@.len() == pixels * TO,
        decreases v.len() - i,
    {
        assert(i + FROM <= v@.len() && i + FROM == (pixels + 1) * FROM && (pixels + 1) * TO
            == pixels * TO + TO) by (nonlinear_arith)
            requires
                i == pixels * FROM,
                i < v@.len(),
                v@.len() == width * height * FROM,
                FROM > 0,
        ;
        let ghost before = out@;
        let mut c: usize = 0;
        assert(before + v@.subrange(i as int, i as int) =~= before);
        while c < TO
            invariant
                c <= TO,
                FROM == TO + 1,
                i + FROM <= v@.len(),
                v@.len() == v.len(),
                out@ == before + v@.subrange(i as int, i + c),
            decreases TO - c,
        {
            out.push(v[i + c]);
            c += 1;
            assert(out@ =~= before + v@.subrange(i as int, i + c));
        }
        proof {
            let next = v@.take(i + FROM);
            assert(next.take(next.len() - FROM) =~= v@.take(i as int));
            assert(next.subrange(next.len() - FROM, next.len() - 1) =~= v@.subrange(
                i as int,
                i + TO,
            ));
            pixels = pixels + 1;
        }
        i += FROM;
    }
    assert(v@.take(i as int) =~= v@);
    assert(out@.len() == width * height * TO) by (nonlinear_arith)
        requires
            out@.len() == pixels * TO,
            pixels * FROM == width * height * FROM,
            FROM > 0,
    ;
    Image::assemble(width, height, out)
}

impl Image<u8, 2> {
    /// The image without its alpha.
    pub fn y(&self) -> (r: Image<u8, 1>)
        ensures
            r@ == opaque(self@, 2),
    {
        drop_last_channel::<2, 1>(self)
    }
}

impl Image<u8, 4> {
    /// The image without its alpha.
    pub fn rgb(&self) -> (r: Image<u8, 3>)
        ensures
            r@ == opaque(self@, 4),
    {
        drop_last_channel::<4, 3>(self)
    }
}

/// The model of a [`DynImage`]: which kind of image it is, and its raster.
pub enum Picture {
    /// One sample per pixel: luminance.
    Y(Raster<u8>),
    /// Two samples per pixel: luminance and alpha.
    Ya(Raster<u8>),
    /// Three samples per pixel: red, green and blue.
    Rgb(Raster<u8>),
    /// Four samples per pixel: red, green, blue and alpha.
    Rgba(Raster<u8>),
}

impl Picture {
    /// The raster, whatever the kind.
    pub open spec fn raster(self) -> Raster<u8> {
        match self {
            Picture::Y(r) => r,
            Picture::Ya(r) => r,
            Picture::Rgb(r) => r,
            Picture::Rgba(r) => r,
        }
    }

    /// The number of samples per pixel.
    pub open spec fn channels(self) -> nat {
        match self {
            Picture::Y(_) => 1,
            Picture::Ya(_) => 2,
            Picture::Rgb(_) => 3,
            Picture::Rgba(_) => 4,
        }
    }

    /// Whether the raster is sound for this kind of image.
    pub open spec fn wf(self) -> bool {
        self.raster().wf(self.channels())
    }
}

/// An image whose number of channels is known only when it has been decoded.
#[derive(Debug, PartialEq, Eq)]
pub enum DynImage {
    /// One sample per pixel: luminance.
    Y(Image<u8, 1>),
    /// Two samples per pixel: luminance and alpha.
    Ya(Image<u8, 2>),
    /// Three samples per pixel: red, green and blue.
    Rgb(Image<u8, 3>),
    /// Four samples per pixel: red, green, blue and alpha.
    Rgba(Image<u8, 4>),
}

impl View for DynImage {
    type V = Picture;

    open spec fn view(&self) -> Picture {
        match self {
            DynImage::Y(i) => Picture::Y(i@),
            DynImage::Ya(i) => Picture::Ya(i@),
            DynImage::Rgb(i) => Picture::Rgb(i@),
            DynImage::Rgba(i) => Picture::Rgba(i@),
        }
    }
}

impl DynImage {
    /// The number of pixels in a row.
    pub fn width(&self) -> (w: u32)
        ensures
            w == self@.raster().width,
            self@.wf(),
    {
        match self {
            DynImage::Y(i) => i.width(),
            DynImage::Ya(i) => i.width(),
            DynImage::Rgb(i) => i.width(),
            DynImage::Rgba(i) => i.width(),
        }
    }

    /// The number of rows.
    pub fn height(&self) -> (h: u32)
        ensures
            h == self@.raster().height,
            self@.wf(),
    {
        match self {
            DynImage::Y(i) => i.height(),
            DynImage::Ya(i) => i.height(),
            DynImage::Rgb(i) => i.height(),
            DynImage::Rgba(i) => i.height(),
        }
    }

    /// The samples, in row-major order.
    pub fn buffer(&self) -> (b: &[u8])
        ensures
            b@ == self@.raster().samples,
            self@.wf(),
    {
        match self {
            DynImage::Y(i) => i.buffer(),
            DynImage::Ya(i) => i.buffer(),
            DynImage::Rgb(i) => i.buffer(),
            DynImage::Rgba(i) => i.buffer(),
        }
    }
}

} // verus!
