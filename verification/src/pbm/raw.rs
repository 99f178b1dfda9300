//! Raw (packed binary)
//! [PBM](https://en.wikipedia.org/wiki/Netpbm#PBM_example) (black and white)
//! images.
use crate::decode::{decode_header, expect_magic, header, tagged, Error, Result};
use crate::encode::{
    decimal, encode_preamble, lemma_decimal, lemma_header_bitmap, lemma_tag_written, preamble,
};
use crate::image::{Image, Raster};
use crate::pbm::{pixels, shades, Input, Output, Pixel, Uninit};
use crate::pixmap::capped;
use vstd::prelude::*;
use vstd::slice::slice_subrange;

verus! {

/// The magic number of the format.
pub const MAGIC: u8 = 4;

/// The number of bytes that a row of `width` pixels is packed into: one for
/// every eight pixels, and one for those that are left.
pub open spec fn stride(width: nat) -> nat {
    (width + 7) / 8
}

/// The bit that the pixel `i` of eight is packed into, the first of them into
/// the highest.
pub open spec fn mask(i: int) -> u8 {
    if i == 0 {
        0x80
    } else if i == 1 {
        0x40
    } else if i == 2 {
        0x20
    } else if i == 3 {
        0x10
    } else if i == 4 {
        0x08
    } else if i == 5 {
        0x04
    } else if i == 6 {
        0x02
    } else {
        0x01
    }
}

/// Whether the pixel `i` of the eight that are packed into `b` is on.
pub open spec fn bit(b: u8, i: int) -> bool {
    b & mask(i) != 0
}

/// The pixels of a row of `width` pixels that is packed into `bytes`.
pub open spec fn unpacked(bytes: Seq<u8>, width: nat) -> Seq<bool> {
    Seq::new(width, |c: int| bit(bytes[c / 8], c % 8))
}

/// The pixels of the first `rows` rows, of `width` pixels each, that are
/// packed into `s`.
pub open spec fn bits(s: Seq<u8>, width: nat, rows: nat) -> Seq<bool>
    decreases rows,
{
    if rows == 0 {
        Seq::empty()
    } else {
        bits(s, width, (rows - 1) as nat) + unpacked(
            s.subrange((rows - 1) * stride(width), (rows * stride(width)) as int),
            width,
        )
    }
}

/// The pixels of a raw bitmap: all of its rows have to be there.
pub open spec fn body(s: Seq<u8>, width: nat, height: nat) -> Result<Seq<bool>> {
    if s.len() < height * stride(width) {
        Err(Error::MissingData)
    } else {
        Ok(bits(s, width, height))
    }
}

/// The bitmap that a file without its magic number holds.
pub open spec fn decoding_wo_magic(s: Seq<u8>) -> Result<Raster<bool>> {
    let (head, rest) = header(s, MAGIC);
    match head {
        Err(e) => Err(e),
        Ok(h) => match body(rest, h.width as nat, h.height as nat) {
            Err(e) => Err(e),
            Ok(samples) => Ok(
                Raster { width: h.width as nat, height: h.height as nat, samples },
            ),
        },
    }
}

/// The bitmap that a file holds.
pub open spec fn decoding(s: Seq<u8>) -> Result<Raster<bool>> {
    match tagged(s, MAGIC) {
        Err(e) => Err(e),
        Ok(rest) => decoding_wo_magic(rest),
    }
}

/// Whether the row `row` has a pixel `k`, and it is on.
pub open spec fn on(row: Seq<bool>, k: int) -> bool {
    0 <= k < row.len() && row[k]
}

/// The bit `m`, if the row `row` has a pixel `k` that is on.
pub open spec fn packed_bit(row: Seq<bool>, k: int, m: u8) -> u8 {
    if on(row, k) {
        m
    } else {
        0
    }
}

/// The byte `j` of the row `row` when it is packed: its pixels `8 * j` to
/// `8 * j + 7`, from the highest bit to the lowest, with no bit set for a
/// pixel that the row does not have.
pub open spec fn packed_byte(row: Seq<bool>, j: int) -> u8 {
    packed_bit(row, 8 * j, 0x80) | packed_bit(row, 8 * j + 1, 0x40) | packed_bit(
        row,
        8 * j + 2,
        0x20,
    ) | packed_bit(row, 8 * j + 3, 0x10) | packed_bit(row, 8 * j + 4, 0x08) | packed_bit(
        row,
        8 * j + 5,
        0x04,
    ) | packed_bit(row, 8 * j + 6, 0x02) | packed_bit(row, 8 * j + 7, 0x01)
}

/// The bytes that the row `row` is packed into.
pub open spec fn packed(row: Seq<bool>) -> Seq<u8> {
    Seq::new(stride(row.len()), |j: int| packed_byte(row, j))
}

/// The bytes that the first `rows` rows of the pixels `v`, of `width` pixels
/// each, are packed into.
pub open spec fn rows(v: Seq<bool>, width: nat, rows: nat) -> Seq<u8>
    decreases rows,
{
    if rows == 0 {
        Seq::empty()
    } else {
        self::rows(v, width, (rows - 1) as nat) + packed(
            v.subrange((rows - 1) * width, (rows * width) as int),
        )
    }
}

/// A file: the header, then the rows of the bitmap, each packed into whole
/// bytes.
pub open spec fn encoding(r: Raster<bool>) -> Seq<u8> {
    preamble(MAGIC, r.width, r.height) + seq!['\n' as u8] + rows(r.samples, r.width, r.height)
}

/// The most bytes that the file of a bitmap of `width` by `height` pixels
/// takes: 2 for the magic number, 23 for the sides, 1 for every eight
/// pixels, and 1 for each row whose width is no multiple of eight.
pub open spec fn file_size(width: nat, height: nat) -> nat {
    2 + 23 + (width * height) / 8 + if width % 8 != 0 {
        height
    } else {
        0
    }
}

/// Eight bits that are packed into a byte are found in it again.
proof fn lemma_packed_bits(
    m0: u8,
    m1: u8,
    m2: u8,
    m3: u8,
    m4: u8,
    m5: u8,
    m6: u8,
    m7: u8,
)
    by (bit_vector)
    requires
        m0 == 0 || m0 == 0x80,
        m1 == 0 || m1 == 0x40,
        m2 == 0 || m2 == 0x20,
        m3 == 0 || m3 == 0x10,
        m4 == 0 || m4 == 0x08,
        m5 == 0 || m5 == 0x04,
        m6 == 0 || m6 == 0x02,
        m7 == 0 || m7 == 0x01,
    ensures
        ((m0 | m1 | m2 | m3 | m4 | m5 | m6 | m7) & 0x80 != 0) == (m0 != 0),
        ((m0 | m1 | m2 | m3 | m4 | m5 | m6 | m7) & 0x40 != 0) == (m1 != 0),
        ((m0 | m1 | m2 | m3 | m4 | m5 | m6 | m7) & 0x20 != 0) == (m2 != 0),
        ((m0 | m1 | m2 | m3 | m4 | m5 | m6 | m7) & 0x10 != 0) == (m3 != 0),
        ((m0 | m1 | m2 | m3 | m4 | m5 | m6 | m7) & 0x08 != 0) == (m4 != 0),
        ((m0 | m1 | m2 | m3 | m4 | m5 | m6 | m7) & 0x04 != 0) == (m5 != 0),
        ((m0 | m1 | m2 | m3 | m4 | m5 | m6 | m7) & 0x02 != 0) == (m6 != 0),
        ((m0 | m1 | m2 | m3 | m4 | m5 | m6 | m7) & 0x01 != 0) == (m7 != 0),
{
}

/// A pixel of a row that was packed is found again in its byte.
proof fn lemma_bit_packed(row: Seq<bool>, j: int, i: int)
    requires
        0 <= i < 8,
    ensures
        bit(packed_byte(row, j), i) == on(row, 8 * j + i),
{
    lemma_packed_bits(
        packed_bit(row, 8 * j, 0x80),
        packed_bit(row, 8 * j + 1, 0x40),
        packed_bit(row, 8 * j + 2, 0x20),
        packed_bit(row, 8 * j + 3, 0x10),
        packed_bit(row, 8 * j + 4, 0x08),
        packed_bit(row, 8 * j + 5, 0x04),
        packed_bit(row, 8 * j + 6, 0x02),
        packed_bit(row, 8 * j + 7, 0x01),
    );
}

/// A row that was packed is unpacked to what it was.
pub proof fn lemma_unpacked_packed(row: Seq<bool>)
    ensures
        unpacked(packed(row), row.len()) == row,
{
    assert forall|c: int| 0 <= c < row.len() implies #[trigger] unpacked(packed(row), row.len())[c]
        == row[c] by {
        lemma_bit_packed(row, c / 8, c % 8);
    }
    assert(unpacked(packed(row), row.len()) =~= row);
}

/// The bit that the pixel `i` of eight is packed into.
fn mask_of(i: u32) -> (m: u8)
    requires
        i < 8,
    ensures
        m == mask(i as int),
{
    assert(0x80u8 >> 0u32 == 0x80u8) by (bit_vector);
    assert(0x80u8 >> 1u32 == 0x40u8) by (bit_vector);
    assert(0x80u8 >> 2u32 == 0x20u8) by (bit_vector);
    assert(0x80u8 >> 3u32 == 0x10u8) by (bit_vector);
    assert(0x80u8 >> 4u32 == 0x08u8) by (bit_vector);
    assert(0x80u8 >> 5u32 == 0x04u8) by (bit_vector);
    assert(0x80u8 >> 6u32 == 0x02u8) by (bit_vector);
    assert(0x80u8 >> 7u32 == 0x01u8) by (bit_vector);
    0x80u8 >> i
}

/// Reads the pixels of a raw bitmap into the room that `into` has for them.
fn decode_pixels<T: Pixel>(x: &[u8], into: crate::image::Uninit<T, 1>) -> (r: Result<Image<T, 1>>)
    ensures
        r matches Ok(img) ==> body(x@, into.spec_width(), into.spec_height()) is Ok
            && img@.samples == pixels::<T>(
            body(x@, into.spec_width(), into.spec_height())->Ok_0,
        ) && img@.width == into.spec_width() && img@.height == into.spec_height(),
        r matches Err(e) ==> body(x@, into.spec_width(), into.spec_height()) == Err::<
            Seq<bool>,
            Error,
        >(e),
{
    let width: u32 = into.width();
    let height: u32 = into.height();
    let step: usize = (width / 8) as usize + if width % 8 != 0 {
        1usize
    } else {
        0usize
    };
    assert(step == stride(width as nat));
    assert(x@.len() == x.len());
    let need: usize = match (height as usize).checked_mul(step) {
        Some(n) => n,
        None => {
            return Err(Error::MissingData);
        },
    };
    if x.len() < need {
        return Err(Error::MissingData);
    }
    let mut out = into.take_buffer();
    let mut y: u32 = 0;
    let mut base: usize = 0;
    assert(out@ =~= pixels::<T>(bits(x@, width as nat, 0)));
    while y < height
        invariant
            y <= height,
            width > 0,
            step == stride(width as nat),
            need == height * step,
            need <= x@.len(),
            x@.len() == x.len(),
            base == y * step,
            out@ == pixels::<T>(bits(x@, width as nat, y as nat)),
            out@.len() == y * width,
        decreases height - y,
    {
        assert(base + step == (y + 1) * step && (y + 1) * step <= height * step)
            by (nonlinear_arith)
            requires
                base == y * step,
                y < height,
        ;
        let ghost row = x@.subrange(base as int, base + step);
        let ghost before = bits(x@, width as nat, y as nat);
        let mut c: u32 = 0;
        assert(before + unpacked(row, width as nat).take(0) =~= before);
        while c < width
            invariant
                c <= width,
                step == stride(width as nat),
                base + step <= x@.len(),
                x@.len() == x.len(),
                row == x@.subrange(base as int, base + step),
                out@ == pixels::<T>(before + unpacked(row, width as nat).take(c as int)),
            decreases width - c,
        {
            let byte: u8 = x[base + (c / 8) as usize];
            let m: u8 = mask_of(c % 8);
            out.push(T::make(byte & m != 0));
            proof {
                let bits_row = unpacked(row, width as nat);
                assert(bits_row.take(c + 1) =~= bits_row.take(c as int).push(bits_row[c as int]));
                assert(row[c as int / 8] == byte);
                assert(out@ =~= pixels::<T>(before + bits_row.take(c + 1)));
            }
            c += 1;
        }
        proof {
            assert(unpacked(row, width as nat).take(width as int) =~= unpacked(row, width as nat));
            assert(out@.len() == (y + 1) * width) by (nonlinear_arith)
                requires
                    out@.len() == before.len() + width,
                    before.len() == y * width,
            ;
        }
        base += step;
        y += 1;
    }
    assert(out@.len() == width * height * 1) by (nonlinear_arith)
        requires
            out@.len() == y * width,
            y == height,
    ;
    Ok(Image::assemble(width, height, out))
}

/// Reads the bitmap that follows the header into the room that `into` has
/// for it. The input has to hold all of its rows.
pub fn decode_body_into(x: &[u8], into: Uninit) -> (r: Result<Output>)
    ensures
        r matches Ok(img) ==> body(x@, into.spec_width(), into.spec_height()) == Ok::<
            Seq<bool>,
            Error,
        >(img@.samples) && img@.width == into.spec_width() && img@.height
            == into.spec_height(),
        r matches Err(e) ==> body(x@, into.spec_width(), into.spec_height()) == Err::<
            Seq<bool>,
            Error,
        >(e),
{
    let r = decode_pixels::<bool>(x, into);
    proof {
        if r is Ok {
            let v = body(x@, into.spec_width(), into.spec_height())->Ok_0;
            assert(pixels::<bool>(v) =~= v);
        }
    }
    r
}

/// Reads the bitmap that follows the header, as a graymap, into the room
/// that `into` has for it: a bit that is not set is read as 255, and one
/// that is set as 0.
pub fn decode_body_into_u8(x: &[u8], into: crate::image::Uninit<u8, 1>) -> (r: Result<
    Image<u8, 1>,
>)
    ensures
        r matches Ok(img) ==> body(x@, into.spec_width(), into.spec_height()) is Ok
            && img@.samples == shades(body(x@, into.spec_width(), into.spec_height())->Ok_0)
            && img@.width == into.spec_width() && img@.height == into.spec_height(),
        r matches Err(e) ==> body(x@, into.spec_width(), into.spec_height()) == Err::<
            Seq<bool>,
            Error,
        >(e),
{
    let r = decode_pixels::<u8>(x, into);
    proof {
        if r is Ok {
            let v = body(x@, into.spec_width(), into.spec_height())->Ok_0;
            assert(pixels::<u8>(v) =~= shades(v));
        }
    }
    r
}

/// Decode without magic.
pub fn decode_wo_magic(x: &[u8]) -> (r: Result<Output>)
    ensures
        r matches Ok(img) ==> decoding_wo_magic(x@) == Ok::<Raster<bool>, Error>(img@),
        r matches Err(e) ==> decoding_wo_magic(x@) == Err::<Raster<bool>, Error>(e),
{
    let mut x = x;
    let head = decode_header(&mut x, MAGIC)?;
    match Uninit::new(head.width, head.height) {
        Some(into) => decode_body_into(x, into),
        None => Err(Error::MissingData),
    }
}

/// Decode a raw binary PBM image.
pub fn decode(x: &[u8]) -> (r: Result<Output>)
    ensures
        r matches Ok(img) ==> decoding(x@) == Ok::<Raster<bool>, Error>(img@),
        r matches Err(e) ==> decoding(x@) == Err::<Raster<bool>, Error>(e),
{
    let mut x = x;
    expect_magic(&mut x, MAGIC)?;
    decode_wo_magic(x)
}

/// The bit `m`, if the row `row` has a pixel `k + i` that is on.
fn pick(row: &[bool], k: usize, i: usize, m: u8) -> (r: u8)
    requires
        k < row@.len(),
        i < 8,
    ensures
        r == packed_bit(row@, k + i, m),
{
    if i < row.len() - k && row[k + i] {
        m
    } else {
        0
    }
}

/// The rows of a bitmap take no more bytes than the estimate allows.
proof fn lemma_rows_fit(width: nat, height: nat)
    ensures
        height * stride(width) <= (width * height) / 8 + if width % 8 != 0 {
            height
        } else {
            0
        },
{
    let q = width / 8;
    assert(8 * (height * q) <= width * height) by (nonlinear_arith)
        requires
            8 * q <= width,
    ;
    if width % 8 == 0 {
        assert(8 * (height * q) == width * height) by (nonlinear_arith)
            requires
                8 * q == width,
        ;
        assert(height * stride(width) == height * q) by (nonlinear_arith)
            requires
                stride(width) == q,
        ;
    } else {
        assert(height * stride(width) == height * q + height) by (nonlinear_arith)
            requires
                stride(width) == q + 1,
        ;
    }
}

/// Writes the file behind what `out` holds, and returns the number of bytes
/// written, which is at most [`size`].
pub fn encode_into(x: Input, out: &mut Vec<u8>) -> (n: usize)
    ensures
        final(out)@ == old(out)@ + encoding(x@),
        n == encoding(x@).len(),
        n <= capped(file_size(x@.width, x@.height)),
{
    let start: usize = out.len();
    let width: u32 = x.width();
    let height: u32 = x.height();
    let v = x.buffer();
    encode_preamble(MAGIC, width, height, out);
    proof {
        lemma_decimal(x@.width);
        lemma_decimal(x@.height);
        lemma_rows_fit(x@.width, x@.height);
    }
    out.push('\n' as u8);
    let ghost head = out@;
    assert(v@.len() == v.len());
    assert(v@.len() == height * width) by (nonlinear_arith)
        requires
            v@.len() == width * height * 1,
    ;
    let row_len: usize = width as usize;
    let step: usize = (width / 8) as usize + if width % 8 != 0 {
        1usize
    } else {
        0usize
    };
    assert(step == stride(width as nat));
    let mut y: u32 = 0;
    let mut base: usize = 0;
    assert(head + rows(v@, width as nat, 0) =~= head);
    while y < height
        invariant
            y <= height,
            row_len == width,
            width > 0,
            step == stride(width as nat),
            v@.len() == height * row_len,
            v@.len() == v.len(),
            base == y * row_len,
            out@ == head + rows(v@, width as nat, y as nat),
            out@.len() == head.len() + y * step,
        decreases height - y,
    {
        assert(base + row_len == (y + 1) * row_len && (y + 1) * row_len <= height * row_len)
            by (nonlinear_arith)
            requires
                base == y * row_len,
                y < height,
        ;
        let row = slice_subrange(v, base, base + row_len);
        let ghost before = out@;
        let mut j: usize = 0;
        assert(before + packed(row@).take(0) =~= before);
        while j < step
            invariant
                j <= step,
                step == stride(row@.len()),
                row@.len() == row_len,
                out@ == before + packed(row@).take(j as int),
            decreases step - j,
        {
            let k: usize = j * 8;
            let byte: u8 = pick(row, k, 0, 0x80) | pick(row, k, 1, 0x40) | pick(row, k, 2, 0x20)
                | pick(row, k, 3, 0x10) | pick(row, k, 4, 0x08) | pick(row, k, 5, 0x04) | pick(
                row,
                k,
                6,
                0x02,
            ) | pick(row, k, 7, 0x01);
            out.push(byte);
            proof {
                assert(byte == packed_byte(row@, j as int));
                assert(packed(row@).take(j + 1) =~= packed(row@).take(j as int).push(byte));
            }
            j += 1;
        }
        proof {
            assert(packed(row@).take(step as int) =~= packed(row@));
            assert(out@.len() == head.len() + (y + 1) * step) by (nonlinear_arith)
                requires
                    out@.len() == head.len() + y * step + step,
            ;
        }
        base += row_len;
        y += 1;
    }
    assert(final(out)@ =~= old(out)@ + encoding(x@));
    out.len() - start
}

/// An upper bound of the length of the file that [`encode_into`] writes.
pub fn size(x: Input) -> (n: usize)
    ensures
        n == capped(file_size(x@.width, x@.height)),
{
    let padding: usize = if x.width() % 8 != 0 {
        x.height() as usize
    } else {
        0
    };
    assert(x@.samples.len() == x@.width * x@.height) by (nonlinear_arith)
        requires
            x@.samples.len() == x@.width * x@.height * 1,
    ;
    (x.len() / 8).saturating_add(padding).saturating_add(2 + 23)
}

/// Encode a bitmap into a raw (packed binary) PBM image.
pub fn encode(x: Input) -> (y: Vec<u8>)
    ensures
        y@ == encoding(x@),
{
    let mut y = Vec::with_capacity(size(x));
    encode_into(x, &mut y);
    y
}

/// The rows that pixels are packed into take as many bytes each as a row
/// does.
proof fn lemma_rows_len(v: Seq<bool>, width: nat, n: nat)
    requires
        v.len() >= n * width,
    ensures
        rows(v, width, n).len() == n * stride(width),
    decreases n,
{
    if n > 0 {
        assert((n - 1) * width <= n * width && n * width - (n - 1) * width == width
            && n * stride(width) == (n - 1) * stride(width) + stride(width)) by (nonlinear_arith)
            requires
                n >= 1,
        ;
        lemma_rows_len(v, width, (n - 1) as nat);
    } else {
        assert(n * stride(width) == 0) by (nonlinear_arith)
            requires
                n == 0,
        ;
    }
}

/// The pixels of the first rows of a bitmap do not depend on what follows
/// those rows.
proof fn lemma_bits_prefix(a: Seq<u8>, b: Seq<u8>, width: nat, n: nat)
    requires
        a.len() >= n * stride(width),
    ensures
        bits(a + b, width, n) == bits(a, width, n),
    decreases n,
{
    if n > 0 {
        assert(0 <= (n - 1) * stride(width) <= n * stride(width)) by (nonlinear_arith)
            requires
                n >= 1,
        ;
        lemma_bits_prefix(a, b, width, (n - 1) as nat);
        assert((a + b).subrange((n - 1) * stride(width), (n * stride(width)) as int) =~= a.subrange(
            (n - 1) * stride(width),
            (n * stride(width)) as int,
        ));
    }
}

/// The rows that the pixels of a bitmap were packed into are unpacked to
/// those pixels.
proof fn lemma_bits_rows(v: Seq<bool>, width: nat, n: nat)
    requires
        v.len() >= n * width,
    ensures
        bits(rows(v, width, n), width, n) == v.take((n * width) as int),
    decreases n,
{
    if n == 0 {
        assert(n * width == 0) by (nonlinear_arith)
            requires
                n == 0,
        ;
        assert(v.take(0) =~= Seq::<bool>::empty());
    } else {
        let s = stride(width);
        let low = (n - 1) * width;
        let high = (n * width) as int;
        let start = (n - 1) * s;
        let end = (n * s) as int;
        assert(0 <= low && high == low + width && 0 <= start && end == start + s)
            by (nonlinear_arith)
            requires
                n >= 1,
                low == (n - 1) * width,
                high == n * width,
                start == (n - 1) * s,
                end == n * s,
        ;
        let front = rows(v, width, (n - 1) as nat);
        let row = v.subrange(low, high);
        let last = packed(row);
        let whole = front + last;
        assert(rows(v, width, n) == whole);
        assert(front.len() == start) by {
            lemma_rows_len(v, width, (n - 1) as nat);
        }
        assert(bits(whole, width, (n - 1) as nat) == v.take(low)) by {
            lemma_bits_rows(v, width, (n - 1) as nat);
            lemma_bits_prefix(front, last, width, (n - 1) as nat);
        }
        assert(last.len() == s);
        assert(whole.subrange(start, end) =~= last);
        assert(unpacked(last, width) == row) by {
            lemma_unpacked_packed(row);
        }
        assert(bits(whole, width, n) == bits(whole, width, (n - 1) as nat) + unpacked(
            whole.subrange(start, end),
            width,
        ));
        assert(v.take(low) + row =~= v.take(high));
    }
}

/// A file that was written of a bitmap is read back as that bitmap, if the
/// bitmap's pixels can be counted in 32 bits.
pub proof fn roundtrip(r: Raster<bool>)
    requires
        r.wf(1),
        r.width * r.height <= u32::MAX,
    ensures
        decoding(encoding(r)) == Ok::<Raster<bool>, Error>(r),
{
    assert(r.width <= u32::MAX && r.height <= u32::MAX) by (nonlinear_arith)
        requires
            r.width * r.height <= u32::MAX,
            r.width > 0,
            r.height > 0,
    ;
    assert(r.samples.len() == r.height * r.width) by (nonlinear_arith)
        requires
            r.samples.len() == r.width * r.height * 1,
    ;
    let packed_rows = rows(r.samples, r.width, r.height);
    let rest = decimal(r.width) + seq![' ' as u8] + decimal(r.height) + seq!['\n' as u8]
        + packed_rows;
    assert(encoding(r) =~= seq!['P' as u8, ('0' as u8 + MAGIC) as u8, ' ' as u8] + rest);
    lemma_decimal(r.width);
    assert(rest[0] == decimal(r.width)[0]);
    lemma_tag_written(MAGIC, rest);
    lemma_header_bitmap(MAGIC, r.width as u32, r.height as u32, packed_rows);
    lemma_rows_len(r.samples, r.width, r.height);
    lemma_bits_rows(r.samples, r.width, r.height);
    assert(r.samples.take(r.samples.len() as int) =~= r.samples);
}

} // verus!
