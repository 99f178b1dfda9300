//! [Portable Arbitrary Format](https://en.wikipedia.org/wiki/Netpbm#PAM_graphics_format)
//! image encoding and decoding.
use crate::decode::{
    after, expect, expect_magic, is_space, number, read_til, same, skip_spaces, starts_with, tag,
    tagged, Error, Result,
};
use crate::encode::{
    ascii, decimal, encodeu32, lemma_decimal, lemma_number_decimal, put,
};
use crate::image::{sample_count, DynImage, Image, Picture, Raster};
use crate::pixmap::capped;
use vstd::prelude::*;
use vstd::slice::slice_subrange;

verus! {

/// The magic number of the format.
pub const MAGIC: u8 = 7;

/// Tupltype. See [pam wikipedia page](https://en.wikipedia.org/wiki/Netpbm#PAM_graphics_format)
/// for more information.
#[derive(Copy, Clone, Debug, PartialEq, Eq)]
pub enum Type {
    /// Black and white bitmap type, corresponding to `BLACKANDWHITE`
    Bit,
    /// Grayscale type, corresponds to `GRAYSCALE`
    Y,
    RGB,
    /// Black and white with alpha, `BLACKANDWHITE_ALPHA`
    BitA,
    /// Gray with alpha. `GRAYSCALE_ALPHA`
    YA,
    RGBA,
}

impl Type {
    /// The number of bytes that a pixel of this type takes.
    pub open spec fn channels(self) -> nat {
        match self {
            Type::Bit | Type::Y => 1,
            Type::BitA | Type::YA => 2,
            Type::RGB => 3,
            Type::RGBA => 4,
        }
    }

    /// The name of the type in a header.
    pub open spec fn name(self) -> Seq<u8> {
        match self {
            Type::Bit => ascii("BLACKANDWHITE"@),
            Type::BitA => ascii("BLACKANDWHITE_ALPHA"@),
            Type::Y => ascii("GRAYSCALE"@),
            Type::YA => ascii("GRAYSCALE_ALPHA"@),
            Type::RGB => ascii("RGB"@),
            Type::RGBA => ascii("RGB_ALPHA"@),
        }
    }

    /// Whether the type's samples are stored as `0` and `1`.
    pub open spec fn is_bits(self) -> bool {
        self is Bit || self is BitA
    }

    /// The number of bytes that a pixel of this type takes.
    pub fn bytes(self) -> (n: u8)
        ensures
            n == self.channels(),
    {
        match self {
            Type::Bit | Type::Y => 1,
            Type::BitA | Type::YA => 2,
            Type::RGB => 3,
            Type::RGBA => 4,
        }
    }
}

/// Header for PAM images.
#[derive(Copy, Clone, Debug, PartialEq, Eq)]
pub struct PAMHeader {
    pub width: u32,
    pub height: u32,
    /// Channel count
    pub depth: u8,
    /// Max value
    pub max: u8,
    /// Data type
    pub tupltype: Type,
}

impl PAMHeader {
    /// What holds of every header that [`decode_pam_header`] returns: no side
    /// is zero, and the number of pixels fits 32 bits.
    pub open spec fn wf(self) -> bool {
        self.width > 0 && self.height > 0 && self.width * self.height <= u32::MAX
    }
}

/// The number of bytes before the first line feed of `s`, if it has one.
pub open spec fn line_length(s: Seq<u8>) -> Option<nat>
    decreases s.len(),
{
    if s.len() == 0 {
        None
    } else if s[0] == '\n' as u8 {
        Some(0)
    } else {
        match line_length(s.skip(1)) {
            Some(n) => Some(n + 1),
            None => None,
        }
    }
}

/// The type that `name` is the name of, if it is one.
pub open spec fn type_named(name: Seq<u8>) -> Option<Type> {
    if name == Type::Bit.name() {
        Some(Type::Bit)
    } else if name == Type::BitA.name() {
        Some(Type::BitA)
    } else if name == Type::Y.name() {
        Some(Type::Y)
    } else if name == Type::YA.name() {
        Some(Type::YA)
    } else if name == Type::RGB.name() {
        Some(Type::RGB)
    } else if name == Type::RGBA.name() {
        Some(Type::RGBA)
    } else {
        None
    }
}

/// What [`decode_pam_header`] makes of the bytes `s` that follow the magic
/// number: the header or the error, and the bytes left. The five fields come
/// in one order, each behind its key: the width and the height, neither of
/// them zero, their product within 32 bits; the depth and the maximum value,
/// at most 255 each; the tupltype, one of the six names and ended by a line
/// feed. The line `ENDHDR` closes the header. A field whose key is not where
/// it should be is missing.
pub open spec fn pam_header(s: Seq<u8>) -> (Result<PAMHeader>, Seq<u8>) {
    let s1 = after(s, "WIDTH "@.len());
    let (width, s2) = number(s1, 0, u32::MAX);
    let s3 = after(s2, "HEIGHT "@.len());
    let (height, s4) = number(s3, 0, u32::MAX);
    let s5 = after(s4, "DEPTH "@.len());
    let (depth, s6) = number(s5, 0, 255);
    let s7 = after(s6, "MAXVAL "@.len());
    let (max, s8) = number(s7, 0, 255);
    let s9 = after(s8, "TUPLTYPE "@.len());
    if !starts_with(s, ascii("WIDTH "@)) {
        (Err(Error::MissingWidth), s1)
    } else if width is Err {
        (Err(width->Err_0), s2)
    } else if width->Ok_0 == 0 {
        (Err(Error::ZeroWidth), s2)
    } else if !starts_with(s2, ascii("HEIGHT "@)) {
        (Err(Error::MissingHeight), s3)
    } else if height is Err {
        (Err(height->Err_0), s4)
    } else if height->Ok_0 == 0 {
        (Err(Error::ZeroHeight), s4)
    } else if width->Ok_0 * height->Ok_0 > u32::MAX {
        (Err(Error::TooLarge), s4)
    } else if !starts_with(s4, ascii("DEPTH "@)) {
        (Err(Error::MissingDepth), s5)
    } else if depth is Err {
        (Err(depth->Err_0), s6)
    } else if !starts_with(s6, ascii("MAXVAL "@)) {
        (Err(Error::MissingMax), s7)
    } else if max is Err {
        (Err(max->Err_0), s8)
    } else if !starts_with(s8, ascii("TUPLTYPE "@)) {
        (Err(Error::MissingTupltype), s9)
    } else if line_length(s9) is None || type_named(s9.take(line_length(s9)->Some_0 as int))
        is None {
        (Err(Error::MissingTupltype), s9)
    } else {
        let n = line_length(s9)->Some_0;
        let s10 = s9.skip(n as int);
        if !starts_with(s10, ascii("\nENDHDR\n"@)) {
            (Err(Error::MissingData), after(s10, "\nENDHDR\n"@.len()))
        } else {
            (
                Ok(
                    PAMHeader {
                        width: width->Ok_0,
                        height: height->Ok_0,
                        depth: depth->Ok_0 as u8,
                        max: max->Ok_0 as u8,
                        tupltype: type_named(s9.take(n as int))->Some_0,
                    },
                ),
                after(s10, "\nENDHDR\n"@.len()),
            )
        }
    }
}

/// Finds the first line feed.
fn find_newline(x: &[u8]) -> (r: Option<usize>)
    ensures
        r matches Some(n) ==> line_length(x@) == Some(n as nat) && n < x@.len(),
        r is None ==> line_length(x@) is None,
{
    let mut i: usize = 0;
    assert(x@.skip(0) =~= x@);
    while i < x.len()
        invariant
            i <= x.len(),
            line_length(x@) == match line_length(x@.skip(i as int)) {
                Some(n) => Some(n + i as nat),
                None => None,
            },
        decreases x.len() - i,
    {
        if x[i] == '\n' as u8 {
            return Some(i);
        }
        assert(x@.skip(i as int).skip(1) =~= x@.skip(i + 1));
        i += 1;
    }
    None
}

/// Finds the type that `name` is the name of.
fn type_of_name(name: &[u8]) -> (r: Option<Type>)
    ensures
        r == type_named(name@),
{
    proof {
        reveal_strlit("BLACKANDWHITE");
        reveal_strlit("BLACKANDWHITE_ALPHA");
        reveal_strlit("GRAYSCALE");
        reveal_strlit("GRAYSCALE_ALPHA");
        reveal_strlit("RGB");
        reveal_strlit("RGB_ALPHA");
    }
    if same(name, "BLACKANDWHITE") {
        Some(Type::Bit)
    } else if same(name, "BLACKANDWHITE_ALPHA") {
        Some(Type::BitA)
    } else if same(name, "GRAYSCALE") {
        Some(Type::Y)
    } else if same(name, "GRAYSCALE_ALPHA") {
        Some(Type::YA)
    } else if same(name, "RGB") {
        Some(Type::RGB)
    } else if same(name, "RGB_ALPHA") {
        Some(Type::RGBA)
    } else {
        None
    }
}

/// Decodes the header of a PAM image. Expects no magic.
pub fn decode_pam_header(x: &mut &[u8]) -> (r: Result<PAMHeader>)
    ensures
        r == pam_header(old(x)@).0,
        final(x)@ == pam_header(old(x)@).1,
        r matches Ok(h) ==> h.wf(),
{
    proof {
        reveal_strlit("WIDTH ");
        reveal_strlit("HEIGHT ");
        reveal_strlit("DEPTH ");
        reveal_strlit("MAXVAL ");
        reveal_strlit("TUPLTYPE ");
        reveal_strlit("\nENDHDR\n");
    }
    if !expect(x, "WIDTH ") {
        return Err(Error::MissingWidth);
    }
    let width: u32 = read_til(x, u32::MAX)?;
    if width == 0 {
        return Err(Error::ZeroWidth);
    }
    if !expect(x, "HEIGHT ") {
        return Err(Error::MissingHeight);
    }
    let height: u32 = read_til(x, u32::MAX)?;
    if height == 0 {
        return Err(Error::ZeroHeight);
    }
    if width.checked_mul(height).is_none() {
        return Err(Error::TooLarge);
    }
    if !expect(x, "DEPTH ") {
        return Err(Error::MissingDepth);
    }
    let depth: u8 = read_til(x, 255)? as u8;
    if !expect(x, "MAXVAL ") {
        return Err(Error::MissingMax);
    }
    let max: u8 = read_til(x, 255)? as u8;
    if !expect(x, "TUPLTYPE ") {
        return Err(Error::MissingTupltype);
    }
    let end: usize = match find_newline(*x) {
        Some(end) => end,
        None => {
            return Err(Error::MissingTupltype);
        },
    };
    let tupltype: Type = match type_of_name(slice_subrange(*x, 0, end)) {
        Some(t) => t,
        None => {
            return Err(Error::MissingTupltype);
        },
    };
    *x = slice_subrange(*x, end, x.len());
    if !expect(x, "\nENDHDR\n") {
        return Err(Error::MissingData);
    }
    Ok(PAMHeader { width, height, depth, max, tupltype })
}

/// The sample that a stored byte of a bitmap stands for: 255 for `1`, and 0
/// for any other.
pub open spec fn expand(b: u8) -> u8 {
    if b == 1 {
        0xff
    } else {
        0
    }
}

/// The samples of the image whose header is `header` and whose bytes are
/// `s`: as many bytes as the header's sides and tupltype ask for, as they
/// are, or for a bitmap each as the sample that it stands for.
pub open spec fn body(s: Seq<u8>, header: PAMHeader) -> Result<Seq<u8>> {
    let n = header.width * header.height * header.tupltype.channels();
    if s.len() < n {
        Err(Error::MissingData)
    } else if header.tupltype.is_bits() {
        Ok(Seq::new(n as nat, |i: int| expand(s[i])))
    } else {
        Ok(s.take(n))
    }
}

/// The picture that samples of the type `tupltype` make.
pub open spec fn picture(tupltype: Type, r: Raster<u8>) -> Picture {
    match tupltype {
        Type::Bit | Type::Y => Picture::Y(r),
        Type::BitA | Type::YA => Picture::Ya(r),
        Type::RGB => Picture::Rgb(r),
        Type::RGBA => Picture::Rgba(r),
    }
}

/// The picture that a file without its magic number holds.
pub open spec fn decoding_wo_magic(s: Seq<u8>) -> Result<Picture> {
    let (head, rest) = pam_header(s);
    match head {
        Err(e) => Err(e),
        Ok(h) => match body(rest, h) {
            Err(e) => Err(e),
            Ok(samples) => Ok(
                picture(
                    h.tupltype,
                    Raster { width: h.width as nat, height: h.height as nat, samples },
                ),
            ),
        },
    }
}

/// The picture that a file holds.
pub open spec fn decoding(s: Seq<u8>) -> Result<Picture> {
    match tagged(s, MAGIC) {
        Err(e) => Err(e),
        Ok(rest) => decoding_wo_magic(rest),
    }
}

/// Decodes this pam image's body, placing it behind what `into` holds, and
/// returns the number of bytes placed. Nothing is placed where bytes are
/// missing.
pub fn decode_inner(x: &[u8], into: &mut Vec<u8>, header: PAMHeader) -> (r: Result<usize>)
    ensures
        r matches Ok(n) ==> body(x@, header) is Ok && final(into)@ == old(into)@ + body(
            x@,
            header,
        )->Ok_0 && n == header.width * header.height * header.tupltype.channels(),
        r matches Err(e) ==> body(x@, header) == Err::<Seq<u8>, Error>(e) && final(into)@ == old(
            into,
        )@,
{
    assert(x@.len() == x.len());
    let n: usize = match sample_count(
        header.width,
        header.height,
        header.tupltype.bytes() as usize,
    ) {
        Some(n) => n,
        None => {
            return Err(Error::MissingData);
        },
    };
    if x.len() < n {
        return Err(Error::MissingData);
    }
    match header.tupltype {
        Type::Bit | Type::BitA => {
            let mut i: usize = 0;
            while i < n
                invariant
                    i <= n <= x@.len(),
                    into@ == old(into)@ + Seq::new(i as nat, |k: int| expand(x@[k])),
                decreases n - i,
            {
                into.push(
                    if x[i] == 1 {
                        0xff
                    } else {
                        0
                    },
                );
                i += 1;
                assert(into@ =~= old(into)@ + Seq::new(i as nat, |k: int| expand(x@[k])));
            }
        },
        _ => {
            into.extend_from_slice(slice_subrange(x, 0, n));
            assert(into@ =~= old(into)@ + x@.take(n as int));
        },
    }
    Ok(n)
}

/// Decode a magicless PAM image.
pub fn decode_wo_magic(x: &[u8]) -> (r: Result<DynImage>)
    ensures
        r matches Ok(img) ==> decoding_wo_magic(x@) == Ok::<Picture, Error>(img@),
        r matches Err(e) ==> decoding_wo_magic(x@) == Err::<Picture, Error>(e),
{
    let mut x = x;
    let header = decode_pam_header(&mut x)?;
    let room: usize = match sample_count(
        header.width,
        header.height,
        header.tupltype.bytes() as usize,
    ) {
        Some(n) => n,
        None => 0,
    };
    let mut alloc: Vec<u8> = Vec::with_capacity(room);
    decode_inner(x, &mut alloc, header)?;
    assert(alloc@ =~= body(x@, header)->Ok_0);
    Ok(
        match header.tupltype {
            Type::Bit | Type::Y => DynImage::Y(Image::assemble(header.width, header.height, alloc)),
            Type::BitA | Type::YA => DynImage::Ya(
                Image::assemble(header.width, header.height, alloc),
            ),
            Type::RGB => DynImage::Rgb(Image::assemble(header.width, header.height, alloc)),
            Type::RGBA => DynImage::Rgba(Image::assemble(header.width, header.height, alloc)),
        },
    )
}

/// Decode a PAM image into a [`DynImage`].
pub fn decode(x: &[u8]) -> (r: Result<DynImage>)
    ensures
        r matches Ok(img) ==> decoding(x@) == Ok::<Picture, Error>(img@),
        r matches Err(e) ==> decoding(x@) == Err::<Picture, Error>(e),
{
    let mut x = x;
    expect_magic(&mut x, MAGIC)?;
    decode_wo_magic(x)
}

/// The most bytes that the file of `samples` samples takes: 92 for the
/// header, and the samples.
pub open spec fn file_size(samples: nat) -> nat {
    92 + samples
}

/// An upper bound of the length of the file that an image of the samples `x`
/// is encoded to.
pub fn size<T>(x: &[T]) -> (n: usize)
    ensures
        n == capped(file_size(x@.len())),
{
    assert(x@.len() == x.len());
    x.len().saturating_add(92)
}

/// A line of the header: the key, the value and a line feed.
pub open spec fn line(key: Seq<u8>, value: Seq<u8>) -> Seq<u8> {
    key + value + seq!['\n' as u8]
}

/// A header: the five fields with 255 as the maximum value, and the line
/// that ends it.
pub open spec fn fields(width: nat, height: nat, tupltype: Type) -> Seq<u8> {
    line(ascii("WIDTH "@), decimal(width)) + line(ascii("HEIGHT "@), decimal(height)) + line(
        ascii("DEPTH "@),
        decimal(tupltype.channels()),
    ) + line(ascii("MAXVAL "@), decimal(255)) + line(ascii("TUPLTYPE "@), tupltype.name())
        + ascii("ENDHDR\n"@)
}

/// A file: the magic number, the header, and the image's bytes.
pub open spec fn file(width: nat, height: nat, tupltype: Type, stored: Seq<u8>) -> Seq<u8> {
    ascii("P7\n"@) + fields(width, height, tupltype) + stored
}

/// The bytes that the pixels of a bitmap are stored as: `0` for one that is
/// on, `1` for one that is off.
pub open spec fn stored_bits(v: Seq<bool>) -> Seq<u8> {
    Seq::new(
        v.len(),
        |i: int|
            if v[i] {
                0u8
            } else {
                1u8
            },
    )
}

impl Type {
    /// The name of the type in a header.
    pub fn text(self) -> (r: &'static str)
        ensures
            vstd::utf8::is_ascii_chars(r@),
            ascii(r@) == self.name(),
    {
        proof {
            reveal_strlit("BLACKANDWHITE");
            reveal_strlit("BLACKANDWHITE_ALPHA");
            reveal_strlit("GRAYSCALE");
            reveal_strlit("GRAYSCALE_ALPHA");
            reveal_strlit("RGB");
            reveal_strlit("RGB_ALPHA");
        }
        match self {
            Type::Bit => "BLACKANDWHITE",
            Type::BitA => "BLACKANDWHITE_ALPHA",
            Type::Y => "GRAYSCALE",
            Type::YA => "GRAYSCALE_ALPHA",
            Type::RGB => "RGB",
            Type::RGBA => "RGB_ALPHA",
        }
    }
}

/// Writes a line of the header whose value is a number.
fn put_field(out: &mut Vec<u8>, key: &str, value: u32)
    requires
        vstd::utf8::is_ascii_chars(key@),
    ensures
        final(out)@ == old(out)@ + line(ascii(key@), decimal(value as nat)),
{
    put(out, key);
    encodeu32(value, out);
    out.push('\n' as u8);
    assert(final(out)@ =~= old(out)@ + line(ascii(key@), decimal(value as nat)));
}

/// Writes the magic number and the header.
fn encode_header(width: u32, height: u32, tupltype: Type, out: &mut Vec<u8>)
    ensures
        final(out)@ == old(out)@ + file(width as nat, height as nat, tupltype, Seq::empty()),
{
    assert(vstd::utf8::is_ascii_chars("P7\n"@)) by {
        reveal_strlit("P7\n");
    }
    assert(vstd::utf8::is_ascii_chars("WIDTH "@)) by {
        reveal_strlit("WIDTH ");
    }
    assert(vstd::utf8::is_ascii_chars("HEIGHT "@)) by {
        reveal_strlit("HEIGHT ");
    }
    assert(vstd::utf8::is_ascii_chars("DEPTH "@)) by {
        reveal_strlit("DEPTH ");
    }
    assert(vstd::utf8::is_ascii_chars("MAXVAL "@)) by {
        reveal_strlit("MAXVAL ");
    }
    assert(vstd::utf8::is_ascii_chars("TUPLTYPE "@)) by {
        reveal_strlit("TUPLTYPE ");
    }
    assert(vstd::utf8::is_ascii_chars("ENDHDR\n"@)) by {
        reveal_strlit("ENDHDR\n");
    }
    put(out, "P7\n");
    put_field(out, "WIDTH ", width);
    put_field(out, "HEIGHT ", height);
    put_field(out, "DEPTH ", tupltype.bytes() as u32);
    put_field(out, "MAXVAL ", 255);
    let ghost fields = out@;
    put(out, "TUPLTYPE ");
    put(out, tupltype.text());
    out.push('\n' as u8);
    assert(out@ =~= fields + line(ascii("TUPLTYPE "@), tupltype.name()));
    put(out, "ENDHDR\n");
    assert(final(out)@ =~= old(out)@ + file(
        width as nat,
        height as nat,
        tupltype,
        Seq::empty(),
    ));
}

/// A file has at most 93 bytes before the image's, and at most 92 where the
/// tupltype is not the longest.
proof fn lemma_file_len(width: u32, height: u32, tupltype: Type, stored: Seq<u8>)
    ensures
        file(width as nat, height as nat, tupltype, stored).len() <= 93 + stored.len(),
        tupltype !is BitA ==> file(width as nat, height as nat, tupltype, stored).len() <= 92
            + stored.len(),
        file(width as nat, height as nat, tupltype, stored) == file(
            width as nat,
            height as nat,
            tupltype,
            Seq::empty(),
        ) + stored,
{
    reveal_strlit("P7\n");
    reveal_strlit("WIDTH ");
    reveal_strlit("HEIGHT ");
    reveal_strlit("DEPTH ");
    reveal_strlit("MAXVAL ");
    reveal_strlit("TUPLTYPE ");
    reveal_strlit("ENDHDR\n");
    reveal_strlit("BLACKANDWHITE");
    reveal_strlit("BLACKANDWHITE_ALPHA");
    reveal_strlit("GRAYSCALE");
    reveal_strlit("GRAYSCALE_ALPHA");
    reveal_strlit("RGB");
    reveal_strlit("RGB_ALPHA");
    lemma_decimal(width as nat);
    lemma_decimal(height as nat);
    lemma_decimal(tupltype.channels());
    lemma_decimal(255);
    assert(file(width as nat, height as nat, tupltype, stored) =~= file(
        width as nat,
        height as nat,
        tupltype,
        Seq::empty(),
    ) + stored);
}

/// Writes the file of an image of the type `tupltype` with the bytes `buf`
/// behind what `out` holds, and returns its length.
fn encode_into(buf: &[u8], width: u32, height: u32, tupltype: Type, out: &mut Vec<u8>) -> (n: usize)
    ensures
        final(out)@ == old(out)@ + file(width as nat, height as nat, tupltype, buf@),
        n == file(width as nat, height as nat, tupltype, buf@).len(),
        tupltype !is BitA ==> n <= capped(file_size(buf@.len())),
{
    let start: usize = out.len();
    encode_header(width, height, tupltype, out);
    out.extend_from_slice(buf);
    proof {
        lemma_file_len(width, height, tupltype, buf@);
    }
    assert(final(out)@ =~= old(out)@ + file(width as nat, height as nat, tupltype, buf@));
    out.len() - start
}

/// Images that can be written as a PAM file.
pub trait PAM {
    /// The file of the image.
    spec fn pam(&self) -> Seq<u8>;

    /// Encodes the image.
    fn encode(&self) -> (y: Vec<u8>)
        ensures
            y@ == self.pam(),
    ;

    /// Writes the file of `x` behind what `out` holds, and returns its
    /// length.
    fn encode_into(x: &Self, out: &mut Vec<u8>) -> (n: usize)
        ensures
            final(out)@ == old(out)@ + x.pam(),
            n == x.pam().len(),
    ;
}

/// Bitmaps that can be written as a PAM file.
pub trait PAMBit {
    /// The file of the bitmap.
    spec fn pam_bitmap(&self) -> Seq<u8>;

    /// Encodes the bitmap.
    fn encode_bitmap(&self) -> (y: Vec<u8>)
        ensures
            y@ == self.pam_bitmap(),
    ;

    /// Writes the file of `x` behind what `out` holds, and returns its
    /// length.
    fn encode_into(x: &Self, out: &mut Vec<u8>) -> (n: usize)
        ensures
            final(out)@ == old(out)@ + x.pam_bitmap(),
            n == x.pam_bitmap().len(),
    ;
}

impl PAM for Image<u8, 1> {
    open spec fn pam(&self) -> Seq<u8> {
        file(self@.width, self@.height, Type::Y, self@.samples)
    }

    fn encode(&self) -> (y: Vec<u8>) {
        let mut y = Vec::with_capacity(size(self.buffer()));
        <Self as PAM>::encode_into(self, &mut y);
        y
    }

    fn encode_into(x: &Self, out: &mut Vec<u8>) -> (n: usize)
        ensures
            n <= capped(file_size(x@.samples.len())),
    {
        encode_into(x.buffer(), x.width(), x.height(), Type::Y, out)
    }
}

impl PAMBit for Image<bool, 1> {
    open spec fn pam_bitmap(&self) -> Seq<u8> {
        file(self@.width, self@.height, Type::Bit, stored_bits(self@.samples))
    }

    fn encode_bitmap(&self) -> (y: Vec<u8>) {
        let mut y = Vec::with_capacity(size(self.buffer()));
        <Self as PAMBit>::encode_into(self, &mut y);
        y
    }

    fn encode_into(x: &Self, out: &mut Vec<u8>) -> (n: usize)
        ensures
            n <= capped(file_size(x@.samples.len())),
    {
        let start: usize = out.len();
        let v = x.buffer();
        let width: u32 = x.width();
        let height: u32 = x.height();
        encode_header(width, height, Type::Bit, out);
        let ghost head = out@;
        let mut i: usize = 0;
        while i < v.len()
            invariant
                i <= v.len(),
                v@.len() == v.len(),
                out@ == head + stored_bits(v@.take(i as int)),
            decreases v.len() - i,
        {
            out.push(
                if v[i] {
                    0
                } else {
                    1
                },
            );
            i += 1;
            assert(out@ =~= head + stored_bits(v@.take(i as int)));
        }
        assert(v@.take(i as int) =~= v@);
        proof {
            lemma_file_len(width, height, Type::Bit, stored_bits(v@));
        }
        assert(final(out)@ =~= old(out)@ + x.pam_bitmap());
        out.len() - start
    }
}

impl PAM for Image<u8, 2> {
    open spec fn pam(&self) -> Seq<u8> {
        file(self@.width, self@.height, Type::YA, self@.samples)
    }

    fn encode(&self) -> (y: Vec<u8>) {
        let mut y = Vec::with_capacity(size(self.buffer()));
        <Self as PAM>::encode_into(self, &mut y);
        y
    }

    fn encode_into(x: &Self, out: &mut Vec<u8>) -> (n: usize)
        ensures
            n <= capped(file_size(x@.samples.len())),
    {
        encode_into(x.buffer(), x.width(), x.height(), Type::YA, out)
    }
}

impl PAM for Image<u8, 3> {
    open spec fn pam(&self) -> Seq<u8> {
        file(self@.width, self@.height, Type::RGB, self@.samples)
    }

    fn encode(&self) -> (y: Vec<u8>) {
        let mut y = Vec::with_capacity(size(self.buffer()));
        <Self as PAM>::encode_into(self, &mut y);
        y
    }

    fn encode_into(x: &Self, out: &mut Vec<u8>) -> (n: usize)
        ensures
            n <= capped(file_size(x@.samples.len())),
    {
        encode_into(x.buffer(), x.width(), x.height(), Type::RGB, out)
    }
}

impl PAM for Image<u8, 4> {
    open spec fn pam(&self) -> Seq<u8> {
        file(self@.width, self@.height, Type::RGBA, self@.samples)
    }

    fn encode(&self) -> (y: Vec<u8>) {
        let mut y = Vec::with_capacity(size(self.buffer()));
        <Self as PAM>::encode_into(self, &mut y);
        y
    }

    fn encode_into(x: &Self, out: &mut Vec<u8>) -> (n: usize)
        ensures
            n <= capped(file_size(x@.samples.len())),
    {
        encode_into(x.buffer(), x.width(), x.height(), Type::RGBA, out)
    }
}

impl PAM for DynImage {
    open spec fn pam(&self) -> Seq<u8> {
        match self {
            DynImage::Y(x) => x.pam(),
            DynImage::Ya(x) => x.pam(),
            DynImage::Rgb(x) => x.pam(),
            DynImage::Rgba(x) => x.pam(),
        }
    }

    fn encode(&self) -> (y: Vec<u8>) {
        match self {
            DynImage::Y(x) => encode(x),
            DynImage::Ya(x) => encode(x),
            DynImage::Rgb(x) => encode(x),
            DynImage::Rgba(x) => encode(x),
        }
    }

    fn encode_into(x: &Self, out: &mut Vec<u8>) -> (n: usize) {
        match x {
            DynImage::Y(x) => PAM::encode_into(x, out),
            DynImage::Ya(x) => PAM::encode_into(x, out),
            DynImage::Rgb(x) => PAM::encode_into(x, out),
            DynImage::Rgba(x) => PAM::encode_into(x, out),
        }
    }
}

/// Encode this image to a PAM raw (binary) image.
pub fn encode<P: PAM>(x: &P) -> (y: Vec<u8>)
    ensures
        y@ == x.pam(),
{
    x.encode()
}

/// Encode this bitmap to a PAM raw (binary) image.
pub fn encode_bitmap<P: PAMBit>(x: &P) -> (y: Vec<u8>)
    ensures
        y@ == x.pam_bitmap(),
{
    x.encode_bitmap()
}

/// Bytes that start with a key start with it, and the rest is left behind
/// it.
proof fn lemma_key(key: Seq<u8>, rest: Seq<u8>)
    ensures
        starts_with(key + rest, key),
        after(key + rest, key.len()) == rest,
{
    assert((key + rest).take(key.len() as int) =~= key);
    assert((key + rest).skip(key.len() as int) =~= rest);
}

/// A line of the header whose value is a number is read back: the key is
/// found, and the number behind it is the one that was written.
proof fn lemma_field(key: Seq<u8>, value: nat, limit: u32, rest: Seq<u8>)
    requires
        value <= limit,
    ensures
        starts_with(line(key, decimal(value)) + rest, key),
        number(after(line(key, decimal(value)) + rest, key.len()), 0, limit) == (
            Ok::<u32, Error>(value as u32),
            rest,
        ),
{
    let tail = decimal(value) + seq!['\n' as u8] + rest;
    assert(line(key, decimal(value)) + rest =~= key + tail);
    lemma_key(key, tail);
    lemma_number_decimal(value, limit, '\n' as u8, rest);
}

/// The line of a text that holds no line feed, and has one behind it, is as
/// long as the text.
proof fn lemma_line_length(name: Seq<u8>, rest: Seq<u8>)
    requires
        forall|i: int| 0 <= i < name.len() ==> #[trigger] name[i] != '\n' as u8,
        rest.len() > 0,
        rest[0] == '\n' as u8,
    ensures
        line_length(name + rest) == Some(name.len()),
    decreases name.len(),
{
    if name.len() == 0 {
        assert(name + rest =~= rest);
    } else {
        assert(name[0] != '\n' as u8);
        assert((name + rest).skip(1) =~= name.skip(1) + rest);
        assert forall|i: int| 0 <= i < name.skip(1).len() implies #[trigger] name.skip(1)[i]
            != '\n' as u8 by {
            assert(name.skip(1)[i] == name[i + 1]);
        }
        lemma_line_length(name.skip(1), rest);
    }
}

/// Each name is the name of one type, and holds no line feed.
proof fn lemma_names(t: Type)
    ensures
        type_named(t.name()) == Some(t),
        forall|i: int| 0 <= i < t.name().len() ==> #[trigger] t.name()[i] != '\n' as u8,
{
    reveal_strlit("BLACKANDWHITE");
    reveal_strlit("BLACKANDWHITE_ALPHA");
    reveal_strlit("GRAYSCALE");
    reveal_strlit("GRAYSCALE_ALPHA");
    reveal_strlit("RGB");
    reveal_strlit("RGB_ALPHA");
    assert(Type::Bit.name().len() == 13);
    assert(Type::BitA.name().len() == 19);
    assert(Type::Y.name().len() == 9);
    assert(Type::YA.name().len() == 15);
    assert(Type::RGB.name().len() == 3);
    assert(Type::RGBA.name().len() == 9);
    assert(Type::Y.name()[0] != Type::RGBA.name()[0]);
}

/// A header that was written is read back, and the image's bytes are left.
pub proof fn lemma_header_written(width: u32, height: u32, tupltype: Type, stored: Seq<u8>)
    requires
        width > 0,
        height > 0,
        width * height <= u32::MAX,
    ensures
        pam_header(fields(width as nat, height as nat, tupltype) + stored) == (
            Ok::<PAMHeader, Error>(
                PAMHeader {
                    width,
                    height,
                    depth: tupltype.channels() as u8,
                    max: 255,
                    tupltype,
                },
            ),
            stored,
        ),
{
    let name = tupltype.name();
    let t5 = ascii("\nENDHDR\n"@) + stored;
    let t4 = ascii("TUPLTYPE "@) + (name + t5);
    let t3 = line(ascii("MAXVAL "@), decimal(255)) + t4;
    let t2 = line(ascii("DEPTH "@), decimal(tupltype.channels())) + t3;
    let t1 = line(ascii("HEIGHT "@), decimal(height as nat)) + t2;
    let t0 = line(ascii("WIDTH "@), decimal(width as nat)) + t1;
    assert(fields(width as nat, height as nat, tupltype) + stored =~= t0) by {
        reveal_strlit("\nENDHDR\n");
        reveal_strlit("ENDHDR\n");
    }
    assert(ascii("WIDTH "@).len() == 6) by {
        reveal_strlit("WIDTH ");
    }
    assert(ascii("HEIGHT "@).len() == 7) by {
        reveal_strlit("HEIGHT ");
    }
    assert(ascii("DEPTH "@).len() == 6) by {
        reveal_strlit("DEPTH ");
    }
    assert(ascii("MAXVAL "@).len() == 7) by {
        reveal_strlit("MAXVAL ");
    }
    assert(ascii("TUPLTYPE "@).len() == 9) by {
        reveal_strlit("TUPLTYPE ");
    }
    assert(ascii("\nENDHDR\n"@).len() == 8 && ascii("\nENDHDR\n"@)[0] == '\n' as u8) by {
        reveal_strlit("\nENDHDR\n");
    }
    lemma_field(ascii("WIDTH "@), width as nat, u32::MAX, t1);
    lemma_field(ascii("HEIGHT "@), height as nat, u32::MAX, t2);
    lemma_field(ascii("DEPTH "@), tupltype.channels(), 255, t3);
    lemma_field(ascii("MAXVAL "@), 255, 255, t4);
    lemma_key(ascii("TUPLTYPE "@), name + t5);
    lemma_names(tupltype);
    lemma_line_length(name, t5);
    assert((name + t5).take(name.len() as int) =~= name);
    assert((name + t5).skip(name.len() as int) =~= t5);
    lemma_key(ascii("\nENDHDR\n"@), stored);
}

/// A file that was written of samples that are no bitmap's is read back as
/// the picture of those samples, if the pixels can be counted in 32 bits.
pub proof fn roundtrip(tupltype: Type, r: Raster<u8>)
    requires
        !tupltype.is_bits(),
        r.wf(tupltype.channels()),
        r.width * r.height <= u32::MAX,
    ensures
        decoding(file(r.width, r.height, tupltype, r.samples)) == Ok::<Picture, Error>(
            picture(tupltype, r),
        ),
        tag(file(r.width, r.height, tupltype, r.samples)).0 == Some(MAGIC),
{
    assert(r.width <= u32::MAX && r.height <= u32::MAX) by (nonlinear_arith)
        requires
            r.width * r.height <= u32::MAX,
            r.width > 0,
            r.height > 0,
    ;
    assert((fields(r.width, r.height, tupltype) + r.samples)[0] == 'W' as u8) by {
        reveal_strlit("WIDTH ");
    }
    lemma_magic_written(fields(r.width, r.height, tupltype) + r.samples);
    assert(file(r.width, r.height, tupltype, r.samples) =~= ascii("P7\n"@) + (fields(
        r.width,
        r.height,
        tupltype,
    ) + r.samples));
    lemma_header_written(r.width as u32, r.height as u32, tupltype, r.samples);
    assert(r.samples.take(r.samples.len() as int) =~= r.samples);
}

/// A file that was written of a bitmap is read back as the graymap that is 0
/// where the bitmap is on and 255 where it is off, if the pixels can be
/// counted in 32 bits.
pub proof fn roundtrip_bitmap(r: Raster<bool>)
    requires
        r.wf(1),
        r.width * r.height <= u32::MAX,
    ensures
        decoding(file(r.width, r.height, Type::Bit, stored_bits(r.samples))) == Ok::<
            Picture,
            Error,
        >(
            Picture::Y(
                Raster { width: r.width, height: r.height, samples: crate::pbm::shades(r.samples) },
            ),
        ),
        tag(file(r.width, r.height, Type::Bit, stored_bits(r.samples))).0 == Some(MAGIC),
{
    assert(r.width <= u32::MAX && r.height <= u32::MAX) by (nonlinear_arith)
        requires
            r.width * r.height <= u32::MAX,
            r.width > 0,
            r.height > 0,
    ;
    let stored = stored_bits(r.samples);
    assert((fields(r.width, r.height, Type::Bit) + stored)[0] == 'W' as u8) by {
        reveal_strlit("WIDTH ");
    }
    lemma_magic_written(fields(r.width, r.height, Type::Bit) + stored);
    assert(file(r.width, r.height, Type::Bit, stored) =~= ascii("P7\n"@) + (fields(
        r.width,
        r.height,
        Type::Bit,
    ) + stored));
    lemma_header_written(r.width as u32, r.height as u32, Type::Bit, stored);
    assert(Seq::new(stored.len(), |i: int| expand(stored[i])) =~= crate::pbm::shades(r.samples));
}

/// The magic number that was written is read back, and what follows its line
/// is left, so long as that starts with no whitespace.
proof fn lemma_magic_written(rest: Seq<u8>)
    requires
        rest.len() > 0 ==> !is_space(rest[0]),
    ensures
        tag(ascii("P7\n"@) + rest) == (Some(MAGIC), rest),
{
    reveal_strlit("P7\n");
    let s = ascii("P7\n"@) + rest;
    let t = seq!['\n' as u8] + rest;
    assert(s.skip(2) =~= t);
    assert(t.skip(1) =~= rest);
    reveal_with_fuel(skip_spaces, 2);
}

} // verus!
