//! What graymaps and pixmaps share: the same two encodings, of one sample per
//! pixel and of three.
use crate::decode::{
    decimal_value, decode_header, digit, expect_magic, header, is_ascii_digit,
    is_ascii_whitespace, is_digit, is_space, tagged, Error, Result,
};
use crate::encode::{
    ascii, cell, decimal, encode_, encode_preamble, is_text, lemma_decimal, lemma_header_maxval,
    lemma_tag_written, lemma_value_push, preamble, put,
};
use crate::image::{Image, Raster, Uninit};
use vstd::prelude::*;
use vstd::slice::slice_subrange;

verus! {

/// `n`, or the largest `usize` where `n` is larger.
pub open spec fn capped(n: nat) -> usize {
    if n > usize::MAX {
        usize::MAX
    } else {
        n as usize
    }
}

/// A raw file: the header with 255 as the maximum value, then one byte for
/// each sample.
pub open spec fn raw_encoding(magic: u8, r: Raster<u8>) -> Seq<u8> {
    preamble(magic, r.width, r.height) + ascii(" 255\n"@) + r.samples
}

/// The most bytes that a raw file of `samples` samples takes: 2 for the
/// magic number, 22 for the sides, 5 for the maximum value, and the samples.
pub open spec fn raw_size(samples: nat) -> nat {
    2 + 22 + 5 + samples
}

/// The samples of a raw image of `n` samples: the first `n` bytes.
pub open spec fn raw_body(s: Seq<u8>, n: nat) -> Result<Seq<u8>> {
    if s.len() < n {
        Err(Error::MissingData)
    } else {
        Ok(s.take(n as int))
    }
}

/// The image that a raw file without its magic number holds.
pub open spec fn raw_decoding_wo_magic(s: Seq<u8>, magic: u8, channels: nat) -> Result<Raster<u8>> {
    let (head, rest) = header(s, magic);
    match head {
        Err(e) => Err(e),
        Ok(h) => match raw_body(rest, (h.width * h.height * channels) as nat) {
            Err(e) => Err(e),
            Ok(samples) => Ok(
                Raster { width: h.width as nat, height: h.height as nat, samples },
            ),
        },
    }
}

/// The image that a raw file holds.
pub open spec fn raw_decoding(s: Seq<u8>, magic: u8, channels: nat) -> Result<Raster<u8>> {
    match tagged(s, magic) {
        Err(e) => Err(e),
        Ok(rest) => raw_decoding_wo_magic(rest, magic, channels),
    }
}

/// An upper bound of the length of the raw file of an image of `samples`
/// samples.
pub fn raw_estimate(samples: usize) -> (n: usize)
    ensures
        n == capped(raw_size(samples as nat)),
{
    samples.saturating_add(2 + 22 + 5)
}

/// Writes the raw file of `x` behind what `out` holds, and returns its length.
pub fn encode_raw<const CHANNELS: usize>(
    magic: u8,
    x: &Image<u8, CHANNELS>,
    out: &mut Vec<u8>,
) -> (n: usize)
    requires
        magic <= 9,
    ensures
        final(out)@ == old(out)@ + raw_encoding(magic, x@),
        n == raw_encoding(magic, x@).len(),
        n <= capped(raw_size(x@.samples.len())),
{
    let start: usize = out.len();
    encode_preamble(magic, x.width(), x.height(), out);
    proof {
        reveal_strlit(" 255\n");
        lemma_decimal(x@.width);
        lemma_decimal(x@.height);
    }
    put(out, " 255\n");
    out.extend_from_slice(x.buffer());
    assert(final(out)@ =~= old(out)@ + raw_encoding(magic, x@));
    out.len() - start
}

/// Reads the samples of a raw image into the room that `into` has for them.
pub fn decode_raw_body<const CHANNELS: usize>(x: &[u8], into: Uninit<u8, CHANNELS>) -> (r: Result<
    Image<u8, CHANNELS>,
>)
    ensures
        r matches Ok(img) ==> raw_body(x@, into.total()) == Ok::<Seq<u8>, Error>(img@.samples)
            && img@.width == into.spec_width() && img@.height == into.spec_height(),
        r matches Err(e) ==> raw_body(x@, into.total()) == Err::<Seq<u8>, Error>(e),
{
    let width: u32 = into.width();
    let height: u32 = into.height();
    let n: usize = into.len();
    if x.len() < n {
        return Err(Error::MissingData);
    }
    let mut samples = into.take_buffer();
    samples.extend_from_slice(slice_subrange(x, 0, n));
    assert(samples@ =~= x@.take(n as int));
    Ok(Image::assemble(width, height, samples))
}

/// Decodes a raw file without its magic number.
pub fn decode_raw_wo_magic<const CHANNELS: usize>(x: &[u8], magic: u8) -> (r: Result<
    Image<u8, CHANNELS>,
>)
    requires
        CHANNELS > 0,
    ensures
        r matches Ok(img) ==> raw_decoding_wo_magic(x@, magic, CHANNELS as nat) == Ok::<
            Raster<u8>,
            Error,
        >(img@),
        r matches Err(e) ==> raw_decoding_wo_magic(x@, magic, CHANNELS as nat) == Err::<
            Raster<u8>,
            Error,
        >(e),
{
    let mut x = x;
    let head = decode_header(&mut x, magic)?;
    match Uninit::new(head.width, head.height) {
        Some(into) => decode_raw_body(x, into),
        None => {
            assert(x@.len() == x.len());
            Err(Error::MissingData)
        },
    }
}

/// Decodes a raw file.
pub fn decode_raw<const CHANNELS: usize>(x: &[u8], magic: u8) -> (r: Result<Image<u8, CHANNELS>>)
    requires
        CHANNELS > 0,
    ensures
        r matches Ok(img) ==> raw_decoding(x@, magic, CHANNELS as nat) == Ok::<Raster<u8>, Error>(
            img@,
        ),
        r matches Err(e) ==> raw_decoding(x@, magic, CHANNELS as nat) == Err::<Raster<u8>, Error>(
            e,
        ),
{
    let mut x = x;
    expect_magic(&mut x, magic)?;
    decode_raw_wo_magic(x, magic)
}

/// A raw file that was written of an image is read back as that image, if
/// the image's first sample is no whitespace byte and its pixels can be
/// counted in 32 bits.
pub proof fn roundtrip_raw(magic: u8, r: Raster<u8>, channels: nat)
    requires
        magic <= 9 && magic != 1 && magic != 4,
        r.wf(channels),
        r.width * r.height <= u32::MAX,
        !is_space(r.samples[0]),
    ensures
        raw_decoding(raw_encoding(magic, r), magic, channels) == Ok::<Raster<u8>, Error>(r),
{
    assert(r.width <= u32::MAX && r.height <= u32::MAX) by (nonlinear_arith)
        requires
            r.width * r.height <= u32::MAX,
            r.width > 0,
            r.height > 0,
    ;
    assert(r.samples.len() > 0) by (nonlinear_arith)
        requires
            r.samples.len() == r.width * r.height * channels,
            r.width > 0,
            r.height > 0,
            channels > 0,
    ;
    let body = r.samples;
    let rest = decimal(r.width) + seq![' ' as u8] + decimal(r.height) + ascii(" 255\n"@) + body;
    assert(raw_encoding(magic, r) =~= seq!['P' as u8, ('0' as u8 + magic) as u8, ' ' as u8] + rest);
    lemma_decimal(r.width);
    assert(rest[0] == decimal(r.width)[0]);
    lemma_tag_written(magic, rest);
    lemma_header_maxval(magic, r.width as u32, r.height as u32, body);
    assert(body.take(body.len() as int) =~= body);
}

/// A sample of a plain file on the scale up to 255: as it is where the
/// file's maximum value is 255, else times 255, divided by the maximum value
/// and rounded to the nearest whole number, a half upwards, and never more
/// than 255. Where the maximum value is 0, only a sample of 0 is not 255.
pub open spec fn rescale(v: u8, max: u8) -> u8 {
    if max == 255 {
        v
    } else if max == 0 {
        if v == 0 {
            0
        } else {
            255
        }
    } else if (510 * v + max) / (2 * max) > 255 {
        255
    } else {
        ((510 * v + max) / (2 * max)) as u8
    }
}

/// Takes a sample of a plain file to the scale up to 255.
pub fn rescaled(v: u8, max: u8) -> (r: u8)
    ensures
        r == rescale(v, max),
{
    if max == 255 {
        v
    } else if max == 0 {
        if v == 0 {
            0
        } else {
            255
        }
    } else {
        let q: u32 = (510u32 * (v as u32) + max as u32) / (2u32 * (max as u32));
        if q > 255 {
            255
        } else {
            q as u8
        }
    }
}

/// Whether `t` holds digits only.
pub open spec fn all_digits(t: Seq<u8>) -> bool {
    forall|i: int| 0 <= i < t.len() ==> is_digit(#[trigger] t[i])
}

/// Whether the piece of text `t` is a sample: one to three digits that spell
/// at most 255.
pub open spec fn is_sample(t: Seq<u8>) -> bool {
    &&& 1 <= t.len() <= 3
    &&& all_digits(t)
    &&& decimal_value(0, t) <= 255
}

/// The sample that the piece of text `t` gives, if it is one.
pub open spec fn piece(t: Seq<u8>, max: u8) -> Seq<u8> {
    if is_sample(t) {
        seq![rescale(decimal_value(0, t) as u8, max)]
    } else {
        Seq::empty()
    }
}

/// The samples of the plain text `s`, read after the start `t` of a piece.
/// Whitespace parts the text into pieces. A piece that is a sample gives
/// it, and any other piece gives nothing.
pub open spec fn samples(s: Seq<u8>, t: Seq<u8>, max: u8) -> Seq<u8>
    decreases s.len(),
{
    if s.len() == 0 {
        piece(t, max)
    } else if is_space(s[0]) {
        piece(t, max) + samples(s.skip(1), Seq::empty(), max)
    } else {
        samples(s.skip(1), t.push(s[0]), max)
    }
}

/// The samples of a plain image of `n` samples: the first `n` that the text
/// holds.
pub open spec fn plain_body(s: Seq<u8>, n: nat, max: u8) -> Result<Seq<u8>> {
    let all = samples(s, Seq::empty(), max);
    if all.len() < n {
        Err(Error::MissingData)
    } else {
        Ok(all.take(n as int))
    }
}

/// The image that a plain file without its magic number holds.
pub open spec fn plain_decoding_wo_magic(s: Seq<u8>, magic: u8, channels: nat) -> Result<
    Raster<u8>,
> {
    let (head, rest) = header(s, magic);
    match head {
        Err(e) => Err(e),
        Ok(h) => match plain_body(
            rest,
            (h.width * h.height * channels) as nat,
            if h.max is Some {
                h.max->Some_0
            } else {
                255
            },
        ) {
            Err(e) => Err(e),
            Ok(samples) => Ok(
                Raster { width: h.width as nat, height: h.height as nat, samples },
            ),
        },
    }
}

/// The image that a plain file holds.
pub open spec fn plain_decoding(s: Seq<u8>, magic: u8, channels: nat) -> Result<Raster<u8>> {
    match tagged(s, magic) {
        Err(e) => Err(e),
        Ok(rest) => plain_decoding_wo_magic(rest, magic, channels),
    }
}

/// The text of the samples `v`: four bytes for each.
pub open spec fn cells(v: Seq<u8>) -> Seq<u8>
    decreases v.len(),
{
    if v.len() == 0 {
        Seq::empty()
    } else {
        cells(v.drop_last()) + cell(v.last())
    }
}

/// The text of the samples `v` in lines of `row` samples.
pub open spec fn lines(v: Seq<u8>, row: nat) -> Seq<u8>
    decreases v.len(),
{
    if row == 0 || v.len() < row {
        Seq::empty()
    } else {
        lines(v.take(v.len() - row), row) + cells(v.skip(v.len() - row)) + seq!['\n' as u8]
    }
}

/// A plain file: the header with 255 as the maximum value, then the samples
/// in text, a line for each row of the image.
pub open spec fn plain_encoding(magic: u8, r: Raster<u8>, channels: nat) -> Seq<u8> {
    preamble(magic, r.width, r.height) + ascii(" 255\n"@) + lines(r.samples, r.width * channels)
}

/// The most bytes that a plain file of `height` rows and `samples` samples
/// takes: 29 for the header, 4 for each sample, 1 for each row.
pub open spec fn plain_size(height: nat, samples: nat) -> nat {
    2 + 22 + 5 + height + samples * 4
}

/// An upper bound of the length of the plain file of an image of `height`
/// rows and `samples` samples.
pub fn plain_estimate(height: u32, samples: usize) -> (n: usize)
    ensures
        n == capped(plain_size(height as nat, samples as nat)),
{
    match samples.checked_mul(4) {
        Some(body) => body.saturating_add(height as usize).saturating_add(2 + 22 + 5),
        None => usize::MAX,
    }
}

/// A piece with a byte more holds digits only if it did before and the byte
/// is a digit.
proof fn lemma_all_digits_push(t: Seq<u8>, b: u8)
    ensures
        all_digits(t.push(b)) <==> all_digits(t) && is_digit(b),
{
    if all_digits(t.push(b)) {
        assert(t.push(b)[t.len() as int] == b);
        assert forall|i: int| 0 <= i < t.len() implies is_digit(#[trigger] t[i]) by {
            assert(t.push(b)[i] == t[i]);
        }
    }
}

/// Reads the samples of a plain image into the room that `into` has for
/// them. `max` is the maximum value that the file's header gives.
pub fn decode_plain_body<const CHANNELS: usize>(
    x: &[u8],
    into: Uninit<u8, CHANNELS>,
    max: u8,
) -> (r: Result<Image<u8, CHANNELS>>)
    ensures
        r matches Ok(img) ==> plain_body(x@, into.total(), max) == Ok::<Seq<u8>, Error>(
            img@.samples,
        ) && img@.width == into.spec_width() && img@.height == into.spec_height(),
        r matches Err(e) ==> plain_body(x@, into.total(), max) == Err::<Seq<u8>, Error>(e),
{
    let width: u32 = into.width();
    let height: u32 = into.height();
    let n: usize = into.len();
    assert(n > 0) by (nonlinear_arith)
        requires
            n == into.spec_width() * into.spec_height() * (CHANNELS as nat),
            into.spec_width() > 0,
            into.spec_height() > 0,
            CHANNELS > 0,
    ;
    let mut out = into.take_buffer();
    // The piece under the cursor: its length, counted up to four, whether it
    // is up to three digits so far, and the number that they spell.
    let mut length: usize = 0;
    let mut numeric: bool = true;
    let mut value: u32 = 0;
    let ghost mut t: Seq<u8> = Seq::empty();
    let mut i: usize = 0;
    assert(x@.skip(0) =~= x@);
    assert(out@ + samples(x@, t, max) =~= samples(x@, t, max));
    while i < x.len()
        invariant
            i <= x.len(),
            out@.len() < n,
            samples(x@, Seq::empty(), max) == out@ + samples(x@.skip(i as int), t, max),
            length == if t.len() < 4 {
                t.len()
            } else {
                4
            },
            numeric <==> t.len() <= 3 && all_digits(t),
            n == width * height * CHANNELS,
            n == into.total(),
            width == into.spec_width(),
            height == into.spec_height(),
            width > 0,
            height > 0,
            CHANNELS > 0,
            numeric ==> value == decimal_value(0, t),
            numeric ==> (length == 0 ==> value == 0) && (length == 1 ==> value <= 9) && (length == 2
                ==> value <= 99),
            value <= 999,
        decreases x.len() - i,
    {
        let b: u8 = x[i];
        assert(x@.skip(i as int).skip(1) =~= x@.skip(i + 1));
        if is_ascii_whitespace(b) {
            if length >= 1 && numeric && value <= 255 {
                out.push(rescaled(value as u8, max));
                assert(out@ + samples(x@.skip(i + 1), Seq::empty(), max) =~= samples(
                    x@,
                    Seq::empty(),
                    max,
                ));
                if out.len() == n {
                    assert(out@ =~= samples(x@, Seq::empty(), max).take(n as int));
                    return Ok(Image::assemble(width, height, out));
                }
            } else {
                assert(out@ + samples(x@.skip(i + 1), Seq::empty(), max) =~= samples(
                    x@,
                    Seq::empty(),
                    max,
                ));
            }
            length = 0;
            numeric = true;
            value = 0;
            proof {
                t = Seq::empty();
            }
        } else {
            proof {
                lemma_value_push(0, t, b);
                lemma_all_digits_push(t, b);
            }
            if numeric && length < 3 && is_ascii_digit(b) {
                value = value * 10 + (b - '0' as u8) as u32;
            } else {
                numeric = false;
            }
            if length < 4 {
                length += 1;
            }
            proof {
                t = t.push(b);
            }
        }
        i += 1;
    }
    assert(x@.skip(i as int) =~= Seq::<u8>::empty());
    if length >= 1 && numeric && value <= 255 {
        out.push(rescaled(value as u8, max));
        if out.len() == n {
            assert(out@ =~= samples(x@, Seq::empty(), max).take(n as int));
            return Ok(Image::assemble(width, height, out));
        }
    }
    assert(out@ =~= samples(x@, Seq::empty(), max));
    Err(Error::MissingData)
}

/// A text holds no more samples than bytes, and one more at most where it is
/// read after the start of a piece.
pub proof fn lemma_samples_len(s: Seq<u8>, t: Seq<u8>, max: u8)
    ensures
        samples(s, t, max).len() <= s.len() + 1,
        t.len() == 0 ==> samples(s, t, max).len() <= s.len(),
    decreases s.len(),
{
    if s.len() > 0 {
        if is_space(s[0]) {
            lemma_samples_len(s.skip(1), Seq::empty(), max);
        } else {
            lemma_samples_len(s.skip(1), t.push(s[0]), max);
        }
    }
}

/// Decodes a plain file without its magic number.
pub fn decode_plain_wo_magic<const CHANNELS: usize>(x: &[u8], magic: u8) -> (r: Result<
    Image<u8, CHANNELS>,
>)
    requires
        CHANNELS > 0,
    ensures
        r matches Ok(img) ==> plain_decoding_wo_magic(x@, magic, CHANNELS as nat) == Ok::<
            Raster<u8>,
            Error,
        >(img@),
        r matches Err(e) ==> plain_decoding_wo_magic(x@, magic, CHANNELS as nat) == Err::<
            Raster<u8>,
            Error,
        >(e),
{
    let mut x = x;
    let head = decode_header(&mut x, magic)?;
    let max: u8 = match head.max {
        Some(m) => m,
        None => 255,
    };
    match Uninit::new(head.width, head.height) {
        Some(into) => decode_plain_body(x, into, max),
        None => {
            proof {
                lemma_samples_len(x@, Seq::empty(), max);
            }
            assert(x@.len() == x.len());
            Err(Error::MissingData)
        },
    }
}

/// Decodes a plain file.
pub fn decode_plain<const CHANNELS: usize>(x: &[u8], magic: u8) -> (r: Result<Image<u8, CHANNELS>>)
    requires
        CHANNELS > 0,
    ensures
        r matches Ok(img) ==> plain_decoding(x@, magic, CHANNELS as nat) == Ok::<Raster<u8>, Error>(
            img@,
        ),
        r matches Err(e) ==> plain_decoding(x@, magic, CHANNELS as nat) == Err::<Raster<u8>, Error>(
            e,
        ),
{
    let mut x = x;
    expect_magic(&mut x, magic)?;
    decode_plain_wo_magic(x, magic)
}

/// Writes the plain file of `x` behind what `out` holds, and returns its
/// length.
pub fn encode_plain<const CHANNELS: usize>(
    magic: u8,
    x: &Image<u8, CHANNELS>,
    out: &mut Vec<u8>,
) -> (n: usize)
    requires
        magic <= 9,
    ensures
        final(out)@ == old(out)@ + plain_encoding(magic, x@, CHANNELS as nat),
        n == plain_encoding(magic, x@, CHANNELS as nat).len(),
        n <= capped(plain_size(x@.height, x@.samples.len())),
{
    let start: usize = out.len();
    let height: u32 = x.height();
    let v = x.buffer();
    encode_preamble(magic, x.width(), height, out);
    proof {
        reveal_strlit(" 255\n");
        lemma_decimal(x@.width);
        lemma_decimal(x@.height);
    }
    put(out, " 255\n");
    let ghost head = out@;
    assert(v@.len() == v.len());
    assert(v@.len() == height * (x@.width * CHANNELS) && x@.width * CHANNELS <= v@.len()
        && x@.width * CHANNELS > 0) by (nonlinear_arith)
        requires
            v@.len() == x@.width * x@.height * CHANNELS,
            height == x@.height,
            x@.width > 0,
            x@.height > 0,
            CHANNELS > 0,
    ;
    let row: usize = x.width() as usize * CHANNELS;
    let mut done: usize = 0;
    let mut y: u32 = 0;
    assert(v@.take(0) =~= Seq::<u8>::empty());
    assert(head + lines(Seq::<u8>::empty(), row as nat) =~= head);
    while y < height
        invariant
            y <= height,
            row > 0,
            v@.len() == height * row,
            v@.len() == v.len(),
            done == y * row,
            done <= v@.len(),
            out@ == head + lines(v@.take(done as int), row as nat),
            out@.len() == head.len() + 4 * done + y,
        decreases height - y,
    {
        assert(done + row == (y + 1) * row && (y + 1) * row <= height * row) by (nonlinear_arith)
            requires
                done == y * row,
                y < height,
        ;
        let end: usize = done + row;
        let ghost before = out@;
        let mut i: usize = done;
        assert(v@.subrange(done as int, i as int) =~= Seq::<u8>::empty());
        assert(before + cells(Seq::<u8>::empty()) =~= before);
        while i < end
            invariant
                done <= i <= end <= v@.len(),
                out@ == before + cells(v@.subrange(done as int, i as int)),
                out@.len() == before.len() + 4 * (i - done),
            decreases end - i,
        {
            let c: [u8; 4] = encode_(v[i]);
            proof {
                lemma_decimal(v@[i as int] as nat);
                let next = v@.subrange(done as int, i + 1);
                assert(next.drop_last() =~= v@.subrange(done as int, i as int));
                assert(next.last() == v@[i as int]);
            }
            out.extend_from_slice(c.as_slice());
            i += 1;
            assert(out@ =~= before + cells(v@.subrange(done as int, i as int)));
        }
        out.push('\n' as u8);
        proof {
            let next = v@.take(end as int);
            assert(next.take(next.len() - row) =~= v@.take(done as int));
            assert(next.skip(next.len() - row) =~= v@.subrange(done as int, end as int));
            assert(out@ =~= head + lines(next, row as nat));
        }
        done = end;
        y += 1;
    }
    assert(v@.take(done as int) =~= v@);
    assert(final(out)@ =~= old(out)@ + plain_encoding(magic, x@, CHANNELS as nat));
    out.len() - start
}

/// Bytes that are no whitespace go on with the piece under the cursor.
proof fn lemma_samples_piece(d: Seq<u8>, rest: Seq<u8>, t: Seq<u8>, max: u8)
    requires
        forall|i: int| 0 <= i < d.len() ==> !is_space(#[trigger] d[i]),
    ensures
        samples(d + rest, t, max) == samples(rest, t + d, max),
    decreases d.len(),
{
    if d.len() == 0 {
        assert(d + rest =~= rest);
        assert(t + d =~= t);
    } else {
        assert(!is_space(d[0]));
        assert((d + rest).skip(1) =~= d.skip(1) + rest);
        assert forall|i: int| 0 <= i < d.skip(1).len() implies !is_space(
            #[trigger] d.skip(1)[i],
        ) by {
            assert(d.skip(1)[i] == d[i + 1]);
        }
        lemma_samples_piece(d.skip(1), rest, t.push(d[0]), max);
        assert(t.push(d[0]) + d.skip(1) =~= t + d);
    }
}

/// Whitespace ends the piece under the cursor, and starts none.
proof fn lemma_samples_gap(gap: Seq<u8>, rest: Seq<u8>, t: Seq<u8>, max: u8)
    requires
        gap.len() >= 1,
        forall|i: int| 0 <= i < gap.len() ==> is_space(#[trigger] gap[i]),
    ensures
        samples(gap + rest, t, max) == piece(t, max) + samples(rest, Seq::empty(), max),
    decreases gap.len(),
{
    assert(is_space(gap[0]));
    assert((gap + rest).skip(1) =~= gap.skip(1) + rest);
    if gap.len() == 1 {
        assert(gap.skip(1) + rest =~= rest);
    } else {
        assert forall|i: int| 0 <= i < gap.skip(1).len() implies is_space(
            #[trigger] gap.skip(1)[i],
        ) by {
            assert(gap.skip(1)[i] == gap[i + 1]);
        }
        lemma_samples_gap(gap.skip(1), rest, Seq::empty(), max);
        assert(piece(Seq::empty(), max) + samples(rest, Seq::empty(), max) =~= samples(
            rest,
            Seq::empty(),
            max,
        ));
    }
}

/// The four bytes of a sample are read back as that sample, where the file's
/// maximum value is 255.
proof fn lemma_samples_cell(x: u8, rest: Seq<u8>)
    ensures
        samples(cell(x) + rest, Seq::empty(), 255) == seq![x] + samples(rest, Seq::empty(), 255),
{
    let d = decimal(x as nat);
    let gap = Seq::new((4 - d.len()) as nat, |i: int| ' ' as u8);
    lemma_decimal(x as nat);
    crate::encode::lemma_decimal_value(x as nat);
    assert(cell(x) + rest =~= d + (gap + rest));
    assert forall|i: int| 0 <= i < d.len() implies !is_space(#[trigger] d[i]) by {
        assert(is_digit(d[i]));
    }
    lemma_samples_piece(d, gap + rest, Seq::empty(), 255);
    assert(Seq::<u8>::empty() + d =~= d);
    lemma_samples_gap(gap, rest, d, 255);
    assert(is_sample(d));
}

/// The text of samples is read back as those samples, where the file's
/// maximum value is 255.
proof fn lemma_samples_cells(v: Seq<u8>, rest: Seq<u8>)
    ensures
        samples(cells(v) + rest, Seq::empty(), 255) == v + samples(rest, Seq::empty(), 255),
    decreases v.len(),
{
    if v.len() == 0 {
        assert(cells(v) + rest =~= rest);
        assert(v + samples(rest, Seq::empty(), 255) =~= samples(rest, Seq::empty(), 255));
    } else {
        let tail = cell(v.last()) + rest;
        assert(cells(v) + rest =~= cells(v.drop_last()) + tail);
        lemma_samples_cells(v.drop_last(), tail);
        lemma_samples_cell(v.last(), rest);
        assert(v.drop_last() + (seq![v.last()] + samples(rest, Seq::empty(), 255)) =~= v
            + samples(rest, Seq::empty(), 255));
    }
}

/// The lines of the `rows` rows of an image are read back as the image's
/// samples, where the file's maximum value is 255.
proof fn lemma_samples_lines(v: Seq<u8>, row: nat, rows: nat, rest: Seq<u8>)
    requires
        row > 0,
        v.len() == rows * row,
    ensures
        samples(lines(v, row) + rest, Seq::empty(), 255) == v + samples(rest, Seq::empty(), 255),
    decreases rows,
{
    if rows == 0 {
        assert(v.len() == 0) by (nonlinear_arith)
            requires
                v.len() == rows * row,
                rows == 0,
        ;
        assert(lines(v, row) + rest =~= rest);
        assert(v + samples(rest, Seq::empty(), 255) =~= samples(rest, Seq::empty(), 255));
    } else {
        assert(v.len() - row == (rows - 1) * row && v.len() >= row) by (nonlinear_arith)
            requires
                v.len() == rows * row,
                rows >= 1,
        ;
        let front = v.take(v.len() - row);
        let last = v.skip(v.len() - row);
        let end = seq!['\n' as u8] + rest;
        let tail = cells(last) + end;
        assert(lines(v, row) + rest =~= lines(front, row) + tail);
        lemma_samples_lines(front, row, (rows - 1) as nat, tail);
        lemma_samples_cells(last, end);
        lemma_samples_gap(seq!['\n' as u8], rest, Seq::empty(), 255);
        assert(piece(Seq::empty(), 255) + samples(rest, Seq::empty(), 255) =~= samples(
            rest,
            Seq::empty(),
            255,
        ));
        assert(front + (last + samples(rest, Seq::empty(), 255)) =~= v + samples(
            rest,
            Seq::empty(),
            255,
        ));
    }
}

/// The text of samples starts with a digit.
proof fn lemma_cells_start(v: Seq<u8>)
    requires
        v.len() > 0,
    ensures
        cells(v).len() > 0,
        is_digit(cells(v)[0]),
    decreases v.len(),
{
    lemma_decimal(v.last() as nat);
    if v.len() > 1 {
        lemma_cells_start(v.drop_last());
    } else {
        assert(cells(v.drop_last()) =~= Seq::<u8>::empty());
    }
}

/// The lines of an image start with a digit.
proof fn lemma_lines_start(v: Seq<u8>, row: nat, rows: nat)
    requires
        row > 0,
        v.len() == rows * row,
    ensures
        rows > 0 ==> lines(v, row).len() > 0 && is_digit(lines(v, row)[0]),
    decreases rows,
{
    if rows == 0 {
        assert(v.len() == 0) by (nonlinear_arith)
            requires
                v.len() == rows * row,
                rows == 0,
        ;
    } else {
        assert(v.len() - row == (rows - 1) * row && v.len() >= row) by (nonlinear_arith)
            requires
                v.len() == rows * row,
                rows >= 1,
        ;
        lemma_lines_start(v.take(v.len() - row), row, (rows - 1) as nat);
        lemma_cells_start(v.skip(v.len() - row));
        if rows == 1 {
            assert(v.len() == row) by (nonlinear_arith)
                requires
                    v.len() == rows * row,
                    rows == 1,
            ;
            assert(lines(v.take(v.len() - row), row) =~= Seq::<u8>::empty());
        }
    }
}

/// A plain file that was written of an image is read back as that image, if
/// the image's pixels can be counted in 32 bits.
pub proof fn roundtrip_plain(magic: u8, r: Raster<u8>, channels: nat)
    requires
        magic <= 9 && magic != 1 && magic != 4,
        r.wf(channels),
        r.width * r.height <= u32::MAX,
    ensures
        plain_decoding(plain_encoding(magic, r, channels), magic, channels) == Ok::<
            Raster<u8>,
            Error,
        >(r),
{
    assert(r.width <= u32::MAX && r.height <= u32::MAX) by (nonlinear_arith)
        requires
            r.width * r.height <= u32::MAX,
            r.width > 0,
            r.height > 0,
    ;
    let row = r.width * channels;
    assert(r.samples.len() == r.height * row && row > 0) by (nonlinear_arith)
        requires
            r.samples.len() == r.width * r.height * channels,
            row == r.width * channels,
            r.width > 0,
            channels > 0,
    ;
    let body = lines(r.samples, row);
    let rest = decimal(r.width) + seq![' ' as u8] + decimal(r.height) + ascii(" 255\n"@) + body;
    assert(plain_encoding(magic, r, channels) =~= seq![
        'P' as u8,
        ('0' as u8 + magic) as u8,
        ' ' as u8,
    ] + rest);
    lemma_decimal(r.width);
    assert(rest[0] == decimal(r.width)[0]);
    lemma_tag_written(magic, rest);
    lemma_lines_start(r.samples, row, r.height);
    lemma_header_maxval(magic, r.width as u32, r.height as u32, body);
    lemma_samples_lines(r.samples, row, r.height, Seq::empty());
    assert(body + Seq::<u8>::empty() =~= body);
    assert(r.samples + samples(Seq::<u8>::empty(), Seq::empty(), 255) =~= r.samples);
    assert(r.samples.take(r.samples.len() as int) =~= r.samples);
}

/// The text of samples holds ASCII only.
proof fn lemma_cells_text(v: Seq<u8>)
    ensures
        is_text(cells(v)),
    decreases v.len(),
{
    if v.len() > 0 {
        lemma_decimal(v.last() as nat);
        lemma_cells_text(v.drop_last());
    }
}

/// The lines of samples hold ASCII only.
proof fn lemma_lines_text(v: Seq<u8>, row: nat)
    ensures
        is_text(lines(v, row)),
    decreases v.len(),
{
    if row > 0 && v.len() >= row {
        lemma_lines_text(v.take(v.len() - row), row);
        lemma_cells_text(v.skip(v.len() - row));
    }
}

/// A plain file holds ASCII only.
pub proof fn lemma_plain_is_text(magic: u8, r: Raster<u8>, channels: nat)
    requires
        magic <= 9,
    ensures
        is_text(plain_encoding(magic, r, channels)),
{
    reveal_strlit(" 255\n");
    lemma_decimal(r.width);
    lemma_decimal(r.height);
    lemma_lines_text(r.samples, r.width * channels);
}

} // verus!
