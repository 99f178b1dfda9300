//! Plain ascii (human readable)
//! [PBM](https://en.wikipedia.org/wiki/Netpbm#PBM_example) (black and white)
//! images.
use crate::decode::{
    decode_header, expect_magic, header, is_digit, tagged, Error, Result,
};
use crate::encode::{
    ascii_string, chars, decimal, encode_bool, encode_preamble, is_text, lemma_decimal,
    lemma_header_bitmap, lemma_tag_written, preamble,
};
use crate::image::{Image, Raster};
use crate::pbm::{pixels, shades, Input, Output, Pixel, Uninit};
use crate::pixmap::capped;
use vstd::prelude::*;

verus! {

/// The magic number of the format.
pub const MAGIC: u8 = 1;

/// The pixels that the text `s` holds: one for each `0` and each `1`, on for
/// a `1`. Any other byte is passed over.
pub open spec fn bits(s: Seq<u8>) -> Seq<bool>
    decreases s.len(),
{
    if s.len() == 0 {
        Seq::empty()
    } else if s[0] == '0' as u8 || s[0] == '1' as u8 {
        seq![s[0] == '1' as u8] + bits(s.skip(1))
    } else {
        bits(s.skip(1))
    }
}

/// The pixels of a plain image of `n` pixels: the first `n` that the text
/// holds.
pub open spec fn body(s: Seq<u8>, n: nat) -> Result<Seq<bool>> {
    if bits(s).len() < n {
        Err(Error::MissingData)
    } else {
        Ok(bits(s).take(n as int))
    }
}

/// The bitmap that a file without its magic number holds.
pub open spec fn decoding_wo_magic(s: Seq<u8>) -> Result<Raster<bool>> {
    let (head, rest) = header(s, MAGIC);
    match head {
        Err(e) => Err(e),
        Ok(h) => match body(rest, (h.width * h.height) as nat) {
            Err(e) => Err(e),
            Ok(samples) => Ok(
                Raster { width: h.width as nat, height: h.height as nat, samples },
            ),
        },
    }
}

/// The bitmap that a file holds.
pub open spec fn decoding(s: Seq<u8>) -> Result<Raster<bool>> {
    match tagged(s, MAGIC) {
        Err(e) => Err(e),
        Ok(rest) => decoding_wo_magic(rest),
    }
}

/// The digit of a pixel: `1` for one that is on.
pub open spec fn mark(on: bool) -> u8 {
    if on {
        '1' as u8
    } else {
        '0' as u8
    }
}

/// The text of the pixels `v`: for each its digit and a space.
pub open spec fn marks(v: Seq<bool>) -> Seq<u8>
    decreases v.len(),
{
    if v.len() == 0 {
        Seq::empty()
    } else {
        marks(v.drop_last()) + seq![mark(v.last()), ' ' as u8]
    }
}

/// The text of the pixels `v` in lines of `row` pixels.
pub open spec fn lines(v: Seq<bool>, row: nat) -> Seq<u8>
    decreases v.len(),
{
    if row == 0 || v.len() < row {
        Seq::empty()
    } else {
        lines(v.take(v.len() - row), row) + marks(v.skip(v.len() - row)) + seq!['\n' as u8]
    }
}

/// A file: the header, then the pixels in text, a line for each row of the
/// bitmap.
pub open spec fn encoding(r: Raster<bool>) -> Seq<u8> {
    preamble(MAGIC, r.width, r.height) + seq!['\n' as u8] + lines(r.samples, r.width)
}

/// The most bytes that the file of a bitmap of `height` rows and `samples`
/// pixels takes: 2 for the magic number, 23 for the sides, 2 for each pixel,
/// 1 for each row.
pub open spec fn file_size(height: nat, samples: nat) -> nat {
    2 + 23 + height + samples * 2
}

/// Reads the pixels of a plain bitmap into the room that `into` has for
/// them.
fn decode_pixels<T: Pixel>(x: &[u8], into: crate::image::Uninit<T, 1>) -> (r: Result<Image<T, 1>>)
    ensures
        r matches Ok(img) ==> body(x@, into.total()) is Ok && img@.samples == pixels::<T>(
            body(x@, into.total())->Ok_0,
        ) && img@.width == into.spec_width() && img@.height == into.spec_height(),
        r matches Err(e) ==> body(x@, into.total()) == Err::<Seq<bool>, Error>(e),
{
    let width: u32 = into.width();
    let height: u32 = into.height();
    let n: usize = into.len();
    assert(n > 0) by (nonlinear_arith)
        requires
            n == into.spec_width() * into.spec_height() * 1,
            into.spec_width() > 0,
            into.spec_height() > 0,
    ;
    let mut out = into.take_buffer();
    let ghost mut seen: Seq<bool> = Seq::empty();
    let mut i: usize = 0;
    assert(x@.skip(0) =~= x@);
    assert(seen + bits(x@) =~= bits(x@));
    assert(out@ =~= pixels::<T>(seen));
    while i < x.len()
        invariant
            i <= x.len(),
            out@.len() < n,
            out@ == pixels::<T>(seen),
            bits(x@) == seen + bits(x@.skip(i as int)),
            n == width * height * 1,
            n == into.total(),
            width == into.spec_width(),
            height == into.spec_height(),
            width > 0,
            height > 0,
        decreases x.len() - i,
    {
        let b: u8 = x[i];
        assert(x@.skip(i as int).skip(1) =~= x@.skip(i + 1));
        if b == '0' as u8 || b == '1' as u8 {
            out.push(T::make(b == '1' as u8));
            proof {
                seen = seen.push(b == '1' as u8);
            }
            assert(out@ =~= pixels::<T>(seen));
            assert(bits(x@) =~= seen + bits(x@.skip(i + 1)));
            if out.len() == n {
                assert(seen =~= bits(x@).take(n as int));
                return Ok(Image::assemble(width, height, out));
            }
        }
        i += 1;
    }
    assert(x@.skip(i as int) =~= Seq::<u8>::empty());
    assert(bits(x@) =~= seen);
    Err(Error::MissingData)
}

/// Reads the bitmap that follows the header into the room that `into` has
/// for it. The input has to hold all of its pixels.
pub fn decode_body_into(x: &[u8], into: Uninit) -> (r: Result<Output>)
    ensures
        r matches Ok(img) ==> body(x@, into.total()) == Ok::<Seq<bool>, Error>(img@.samples)
            && img@.width == into.spec_width() && img@.height == into.spec_height(),
        r matches Err(e) ==> body(x@, into.total()) == Err::<Seq<bool>, Error>(e),
{
    let r = decode_pixels::<bool>(x, into);
    proof {
        if r is Ok {
            assert(pixels::<bool>(body(x@, into.total())->Ok_0) =~= body(x@, into.total())->Ok_0);
        }
    }
    r
}

/// Reads the bitmap that follows the header, as a graymap, into the room
/// that `into` has for it: a `0` is read as 255 and a `1` as 0.
pub fn decode_body_into_u8(x: &[u8], into: crate::image::Uninit<u8, 1>) -> (r: Result<
    Image<u8, 1>,
>)
    ensures
        r matches Ok(img) ==> body(x@, into.total()) is Ok && img@.samples == shades(
            body(x@, into.total())->Ok_0,
        ) && img@.width == into.spec_width() && img@.height == into.spec_height(),
        r matches Err(e) ==> body(x@, into.total()) == Err::<Seq<bool>, Error>(e),
{
    let r = decode_pixels::<u8>(x, into);
    proof {
        if r is Ok {
            assert(pixels::<u8>(body(x@, into.total())->Ok_0) =~= shades(
                body(x@, into.total())->Ok_0,
            ));
        }
    }
    r
}

/// Decode without magic.
pub fn decode_wo_magic(x: &[u8]) -> (r: Result<Output>)
    ensures
        r matches Ok(img) ==> decoding_wo_magic(x@) == Ok::<Raster<bool>, Error>(img@),
        r matches Err(e) ==> decoding_wo_magic(x@) == Err::<Raster<bool>, Error>(e),
{
    let mut x = x;
    let head = decode_header(&mut x, MAGIC)?;
    match Uninit::new(head.width, head.height) {
        Some(into) => decode_body_into(x, into),
        None => Err(Error::MissingData),
    }
}

/// Decode an ASCII PBM image.
pub fn decode(x: &[u8]) -> (r: Result<Output>)
    ensures
        r matches Ok(img) ==> decoding(x@) == Ok::<Raster<bool>, Error>(img@),
        r matches Err(e) ==> decoding(x@) == Err::<Raster<bool>, Error>(e),
{
    let mut x = x;
    expect_magic(&mut x, MAGIC)?;
    decode_wo_magic(x)
}

/// Writes the file behind what `out` holds, and returns the number of bytes
/// written, which is at most [`size`].
pub fn encode_into(x: Input, out: &mut Vec<u8>) -> (n: usize)
    ensures
        final(out)@ == old(out)@ + encoding(x@),
        n == encoding(x@).len(),
        n <= capped(file_size(x@.height, x@.samples.len())),
{
    let start: usize = out.len();
    let height: u32 = x.height();
    let v = x.buffer();
    encode_preamble(MAGIC, x.width(), height, out);
    proof {
        lemma_decimal(x@.width);
        lemma_decimal(x@.height);
    }
    out.push('\n' as u8);
    let ghost head = out@;
    assert(v@.len() == v.len());
    assert(v@.len() == height * x@.width) by (nonlinear_arith)
        requires
            v@.len() == x@.width * x@.height * 1,
            height == x@.height,
    ;
    let row: usize = x.width() as usize;
    let mut done: usize = 0;
    let mut y: u32 = 0;
    assert(v@.take(0) =~= Seq::<bool>::empty());
    assert(head + lines(Seq::<bool>::empty(), row as nat) =~= head);
    while y < height
        invariant
            y <= height,
            row > 0,
            v@.len() == height * row,
            v@.len() == v.len(),
            done == y * row,
            done <= v@.len(),
            out@ == head + lines(v@.take(done as int), row as nat),
            out@.len() == head.len() + 2 * done + y,
        decreases height - y,
    {
        assert(done + row == (y + 1) * row && (y + 1) * row <= height * row) by (nonlinear_arith)
            requires
                done == y * row,
                y < height,
        ;
        let end: usize = done + row;
        let ghost before = out@;
        let mut i: usize = done;
        assert(v@.subrange(done as int, i as int) =~= Seq::<bool>::empty());
        assert(before + marks(Seq::<bool>::empty()) =~= before);
        while i < end
            invariant
                done <= i <= end <= v@.len(),
                out@ == before + marks(v@.subrange(done as int, i as int)),
                out@.len() == before.len() + 2 * (i - done),
            decreases end - i,
        {
            proof {
                let next = v@.subrange(done as int, i + 1);
                assert(next.drop_last() =~= v@.subrange(done as int, i as int));
                assert(next.last() == v@[i as int]);
            }
            out.push(encode_bool(v[i]));
            out.push(' ' as u8);
            i += 1;
            assert(out@ =~= before + marks(v@.subrange(done as int, i as int)));
        }
        out.push('\n' as u8);
        proof {
            let next = v@.take(end as int);
            assert(next.take(next.len() - row) =~= v@.take(done as int));
            assert(next.skip(next.len() - row) =~= v@.subrange(done as int, end as int));
            assert(out@ =~= head + lines(next, row as nat));
        }
        done = end;
        y += 1;
    }
    assert(v@.take(done as int) =~= v@);
    assert(final(out)@ =~= old(out)@ + encoding(x@));
    out.len() - start
}

/// An upper bound of the length of the file that [`encode_into`] writes.
pub fn size(x: Input) -> (n: usize)
    ensures
        n == capped(file_size(x@.height, x@.samples.len())),
{
    match x.len().checked_mul(2) {
        Some(body) => body.saturating_add(x.height() as usize).saturating_add(2 + 23),
        None => usize::MAX,
    }
}

/// The text of pixels holds ASCII only.
proof fn lemma_marks_text(v: Seq<bool>)
    ensures
        is_text(marks(v)),
    decreases v.len(),
{
    if v.len() > 0 {
        lemma_marks_text(v.drop_last());
    }
}

/// The lines of pixels hold ASCII only.
proof fn lemma_lines_text(v: Seq<bool>, row: nat)
    ensures
        is_text(lines(v, row)),
    decreases v.len(),
{
    if row > 0 && v.len() >= row {
        lemma_lines_text(v.take(v.len() - row), row);
        lemma_marks_text(v.skip(v.len() - row));
    }
}

/// A file holds ASCII only.
pub proof fn lemma_is_text(r: Raster<bool>)
    ensures
        is_text(encoding(r)),
{
    lemma_decimal(r.width);
    lemma_decimal(r.height);
    lemma_lines_text(r.samples, r.width);
}

/// Encode a bitmap into a PBM ASCII image.
pub fn encode(x: Input) -> (y: String)
    ensures
        y@ == chars(encoding(x@)),
{
    let mut y = Vec::with_capacity(size(x));
    encode_into(x, &mut y);
    proof {
        lemma_is_text(x@);
    }
    ascii_string(y)
}

/// The text of pixels is read back as those pixels.
proof fn lemma_bits_marks(v: Seq<bool>, rest: Seq<u8>)
    ensures
        bits(marks(v) + rest) == v + bits(rest),
    decreases v.len(),
{
    if v.len() == 0 {
        assert(marks(v) + rest =~= rest);
        assert(v + bits(rest) =~= bits(rest));
    } else {
        let tail = seq![mark(v.last()), ' ' as u8] + rest;
        assert(marks(v) + rest =~= marks(v.drop_last()) + tail);
        lemma_bits_marks(v.drop_last(), tail);
        assert(tail.skip(1) =~= seq![' ' as u8] + rest);
        assert(tail.skip(1).skip(1) =~= rest);
        reveal_with_fuel(bits, 3);
        assert(bits(tail) =~= seq![v.last()] + bits(rest));
        assert(v.drop_last() + (seq![v.last()] + bits(rest)) =~= v + bits(rest));
    }
}

/// The lines of the `rows` rows of a bitmap are read back as the bitmap's
/// pixels.
proof fn lemma_bits_lines(v: Seq<bool>, row: nat, rows: nat, rest: Seq<u8>)
    requires
        row > 0,
        v.len() == rows * row,
    ensures
        bits(lines(v, row) + rest) == v + bits(rest),
    decreases rows,
{
    if rows == 0 {
        assert(v.len() == 0) by (nonlinear_arith)
            requires
                v.len() == rows * row,
                rows == 0,
        ;
        assert(lines(v, row) + rest =~= rest);
        assert(v + bits(rest) =~= bits(rest));
    } else {
        assert(v.len() - row == (rows - 1) * row && v.len() >= row) by (nonlinear_arith)
            requires
                v.len() == rows * row,
                rows >= 1,
        ;
        let front = v.take(v.len() - row);
        let last = v.skip(v.len() - row);
        let end = seq!['\n' as u8] + rest;
        let tail = marks(last) + end;
        assert(lines(v, row) + rest =~= lines(front, row) + tail);
        lemma_bits_lines(front, row, (rows - 1) as nat, tail);
        lemma_bits_marks(last, end);
        assert(end.skip(1) =~= rest);
        assert(front + (last + bits(rest)) =~= v + bits(rest));
    }
}

/// The text of pixels starts with a digit.
proof fn lemma_marks_start(v: Seq<bool>)
    requires
        v.len() > 0,
    ensures
        marks(v).len() > 0,
        is_digit(marks(v)[0]),
    decreases v.len(),
{
    if v.len() > 1 {
        lemma_marks_start(v.drop_last());
    } else {
        assert(marks(v.drop_last()) =~= Seq::<u8>::empty());
    }
}

/// The lines of a bitmap start with a digit.
proof fn lemma_lines_start(v: Seq<bool>, row: nat, rows: nat)
    requires
        row > 0,
        rows > 0,
        v.len() == rows * row,
    ensures
        lines(v, row).len() > 0,
        is_digit(lines(v, row)[0]),
    decreases rows,
{
    assert(v.len() - row == (rows - 1) * row && v.len() >= row) by (nonlinear_arith)
        requires
            v.len() == rows * row,
            rows >= 1,
    ;
    lemma_marks_start(v.skip(v.len() - row));
    if rows == 1 {
        assert(v.len() == row) by (nonlinear_arith)
            requires
                v.len() == rows * row,
                rows == 1,
        ;
        assert(lines(v.take(v.len() - row), row) =~= Seq::<u8>::empty());
    } else {
        lemma_lines_start(v.take(v.len() - row), row, (rows - 1) as nat);
    }
}

/// A file that was written of a bitmap is read back as that bitmap, if the
/// bitmap's pixels can be counted in 32 bits.
pub proof fn roundtrip(r: Raster<bool>)
    requires
        r.wf(1),
        r.width * r.height <= u32::MAX,
    ensures
        decoding(encoding(r)) == Ok::<Raster<bool>, Error>(r),
{
    assert(r.width <= u32::MAX && r.height <= u32::MAX) by (nonlinear_arith)
        requires
            r.width * r.height <= u32::MAX,
            r.width > 0,
            r.height > 0,
    ;
    assert(r.samples.len() == r.height * r.width) by (nonlinear_arith)
        requires
            r.samples.len() == r.width * r.height * 1,
    ;
    let text = lines(r.samples, r.width);
    let rest = decimal(r.width) + seq![' ' as u8] + decimal(r.height) + seq!['\n' as u8] + text;
    assert(encoding(r) =~= seq!['P' as u8, ('0' as u8 + MAGIC) as u8, ' ' as u8] + rest);
    lemma_decimal(r.width);
    assert(rest[0] == decimal(r.width)[0]);
    lemma_tag_written(MAGIC, rest);
    lemma_lines_start(r.samples, r.width, r.height);
    lemma_header_bitmap(MAGIC, r.width as u32, r.height as u32, text);
    lemma_bits_lines(r.samples, r.width, r.height, Seq::empty());
    assert(text + Seq::<u8>::empty() =~= text);
    assert(r.samples + bits(Seq::<u8>::empty()) =~= r.samples);
    assert(r.samples.take(r.samples.len() as int) =~= r.samples);
}

} // verus!
