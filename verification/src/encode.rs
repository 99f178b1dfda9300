//! Encoding utilities: decimal numbers, the pieces of text that the formats
//! are made of, and what reading them back gives.
use crate::decode::{
    decimal_value, digit, header, is_digit, is_space, number, skip_spaces, tag, Header,
};
use vstd::prelude::*;
use vstd::string::*;
use vstd::utf8::is_ascii_chars;

verus! {

/// The bytes of a text that is all ASCII.
pub open spec fn ascii(s: Seq<char>) -> Seq<u8> {
    Seq::new(s.len(), |i: int| s[i] as u8)
}

/// Whether every byte of `s` is ASCII.
pub open spec fn is_text(s: Seq<u8>) -> bool {
    forall|i: int| 0 <= i < s.len() ==> s[i] < 128
}

/// The text that `s` is, byte for byte.
pub open spec fn chars(s: Seq<u8>) -> Seq<char> {
    Seq::new(s.len(), |i: int| s[i] as char)
}

/// Writes the text `s`.
pub fn put(out: &mut Vec<u8>, s: &str)
    requires
        is_ascii_chars(s@),
    ensures
        final(out)@ == old(out)@ + ascii(s@),
{
    proof {
        is_ascii_spec_bytes(s);
        assert(is_ascii(s));
        assert(s.spec_bytes() =~= ascii(s@));
    }
    out.extend_from_slice(s.as_bytes());
}

/// Makes a text of bytes.
///
/// This rests on `String::from_utf8` of the standard library, which is not
/// verified here. It is taken to accept bytes that are all below 128, and to
/// give for them the text that has one character for each byte, with the
/// byte's value. Nothing is said of other bytes.
#[verifier::external_body]
fn from_utf8(bytes: Vec<u8>) -> (r: Option<String>)
    ensures
        is_text(bytes@) ==> r is Some,
        is_text(bytes@) ==> r->Some_0@ == chars(bytes@),
{
    match String::from_utf8(bytes) {
        Ok(s) => Some(s),
        Err(_) => None,
    }
}

/// Makes a text of bytes that are all ASCII.
pub(crate) fn ascii_string(bytes: Vec<u8>) -> (s: String)
    requires
        is_text(bytes@),
    ensures
        s@ == chars(bytes@),
{
    match from_utf8(bytes) {
        Some(s) => s,
        None => String::new(),
    }
}

/// `n` in decimal digits, without leading zeros.
pub open spec fn decimal(n: nat) -> Seq<u8>
    decreases n,
{
    if n < 10 {
        seq![('0' as u8 + n) as u8]
    } else {
        decimal(n / 10).push(('0' as u8 + n % 10) as u8)
    }
}

/// Writes `n` in decimal digits.
pub fn encodeu32(n: u32, out: &mut Vec<u8>)
    ensures
        final(out)@ == old(out)@ + decimal(n as nat),
    decreases n,
{
    if n >= 10 {
        encodeu32(n / 10, out);
    }
    out.push('0' as u8 + (n % 10) as u8);
    assert(final(out)@ =~= old(out)@ + decimal(n as nat));
}

/// The digit of a bitmap's pixel: `'1'` when it is on.
pub fn encode_bool(on: bool) -> (r: u8)
    ensures
        r == if on {
            '1' as u8
        } else {
            '0' as u8
        },
{
    if on {
        '1' as u8
    } else {
        '0' as u8
    }
}

/// The four bytes that a sample takes in a plain file: its digits, then
/// spaces.
pub open spec fn cell(x: u8) -> Seq<u8> {
    let d = decimal(x as nat);
    d + Seq::new((4 - d.len()) as nat, |i: int| ' ' as u8)
}

/// The four bytes that a sample takes in a plain file.
pub fn encode_(x: u8) -> (r: [u8; 4])
    ensures
        r@ == cell(x),
{
    let zero: u8 = '0' as u8;
    let space: u8 = ' ' as u8;
    let r: [u8; 4] = if x >= 100 {
        [zero + x / 100, zero + x / 10 % 10, zero + x % 10, space]
    } else if x >= 10 {
        [zero + x / 10, zero + x % 10, space, space]
    } else {
        [zero + x, space, space, space]
    };
    proof {
        reveal_with_fuel(decimal, 3);
        assert(r@ =~= cell(x));
    }
    r
}

/// How a file of the older formats starts: the magic number, the width and
/// the height, each followed by a space but the last.
pub open spec fn preamble(magic: u8, width: nat, height: nat) -> Seq<u8> {
    seq!['P' as u8, ('0' as u8 + magic) as u8, ' ' as u8] + decimal(width) + seq![' ' as u8]
        + decimal(height)
}

/// Writes the magic number, the width and the height.
pub fn encode_preamble(magic: u8, width: u32, height: u32, out: &mut Vec<u8>)
    requires
        magic <= 9,
    ensures
        final(out)@ == old(out)@ + preamble(magic, width as nat, height as nat),
{
    out.push('P' as u8);
    out.push('0' as u8 + magic);
    out.push(' ' as u8);
    encodeu32(width, out);
    out.push(' ' as u8);
    encodeu32(height, out);
    assert(final(out)@ =~= old(out)@ + preamble(magic, width as nat, height as nat));
}

/// A number in decimal digits has at least one digit, holds digits only, and
/// has no more of them than a number below `10`, `1000` or `2^32` needs.
pub proof fn lemma_decimal(n: nat)
    ensures
        decimal(n).len() >= 1,
        forall|i: int| 0 <= i < decimal(n).len() ==> is_digit(#[trigger] decimal(n)[i]),
        n < 10 ==> decimal(n).len() == 1,
        n < 1000 ==> decimal(n).len() <= 3,
        n <= u32::MAX ==> decimal(n).len() <= 10,
        is_text(decimal(n)),
    decreases n,
{
    if n >= 10 {
        lemma_decimal(n / 10);
        reveal_with_fuel(decimal, 11);
    }
}

/// The digits of a number spell that number.
pub proof fn lemma_decimal_value(n: nat)
    ensures
        decimal_value(0, decimal(n)) == n,
    decreases n,
{
    if n >= 10 {
        lemma_decimal_value(n / 10);
        lemma_decimal(n / 10);
        lemma_value_push(0, decimal(n / 10), ('0' as u8 + n % 10) as u8);
    } else {
        reveal_with_fuel(decimal_value, 2);
    }
}

/// A digit more at the end takes the number times ten, and adds itself.
pub proof fn lemma_value_push(acc: nat, d: Seq<u8>, b: u8)
    ensures
        decimal_value(acc, d.push(b)) == decimal_value(acc, d) * 10 + digit(b),
    decreases d.len(),
{
    if d.len() == 0 {
        reveal_with_fuel(decimal_value, 2);
        assert(d.push(b).skip(1) =~= d);
    } else {
        assert(d.push(b).skip(1) =~= d.skip(1).push(b));
        lemma_value_push(acc * 10 + digit(d[0]), d.skip(1), b);
    }
}

/// Digits never spell less than what was read before them.
pub proof fn lemma_value_grows(acc: nat, d: Seq<u8>)
    ensures
        decimal_value(acc, d) >= acc,
    decreases d.len(),
{
    if d.len() > 0 {
        lemma_value_grows(acc * 10 + digit(d[0]), d.skip(1));
    }
}

/// Reading digits that stay within the limit goes on behind them, with the
/// number that they spell.
pub proof fn lemma_number_digits(d: Seq<u8>, t: Seq<u8>, acc: nat, limit: u32)
    requires
        forall|i: int| 0 <= i < d.len() ==> is_digit(#[trigger] d[i]),
        decimal_value(acc, d) <= limit,
    ensures
        number(d + t, acc, limit) == number(t, decimal_value(acc, d), limit),
    decreases d.len(),
{
    if d.len() == 0 {
        assert(d + t =~= t);
    } else {
        let next = acc * 10 + digit(d[0]);
        lemma_value_grows(next, d.skip(1));
        assert((d + t).skip(1) =~= d.skip(1) + t);
        assert(is_digit(d[0]));
        assert forall|i: int| 0 <= i < d.skip(1).len() implies is_digit(
            #[trigger] d.skip(1)[i],
        ) by {
            assert(d.skip(1)[i] == d[i + 1]);
        }
        lemma_number_digits(d.skip(1), t, next, limit);
    }
}

/// A number that was written in decimal digits, with whitespace behind it, is
/// read back as it was, and what follows the whitespace is left.
pub proof fn lemma_number_decimal(n: nat, limit: u32, sep: u8, rest: Seq<u8>)
    requires
        n <= limit,
        is_space(sep),
    ensures
        number(decimal(n) + seq![sep] + rest, 0, limit) == (
            Ok::<u32, crate::decode::Error>(n as u32),
            rest,
        ),
{
    lemma_decimal(n);
    lemma_decimal_value(n);
    let t = seq![sep] + rest;
    assert(decimal(n) + seq![sep] + rest =~= decimal(n) + t);
    lemma_number_digits(decimal(n), t, 0, limit);
    assert(t.skip(1) =~= rest);
}

/// The magic number that was written is read back, and what follows the
/// space behind it is left, so long as that starts with no whitespace.
pub proof fn lemma_tag_written(magic: u8, rest: Seq<u8>)
    requires
        magic <= 9,
        rest.len() > 0 ==> !is_space(rest[0]),
    ensures
        tag(seq!['P' as u8, ('0' as u8 + magic) as u8, ' ' as u8] + rest) == (Some(magic), rest),
{
    let s = seq!['P' as u8, ('0' as u8 + magic) as u8, ' ' as u8] + rest;
    let t = seq![' ' as u8] + rest;
    assert(s.skip(2) =~= t);
    assert(t.skip(1) =~= rest);
    reveal_with_fuel(skip_spaces, 2);
}

/// The header of a bitmap that was written is read back, and the image is
/// left: all of it in the raw format, what follows its leading whitespace in
/// the plain one.
pub proof fn lemma_header_bitmap(magic: u8, width: u32, height: u32, body: Seq<u8>)
    requires
        magic == 1 || magic == 4,
        width > 0,
        height > 0,
        width * height <= u32::MAX,
        magic == 1 ==> skip_spaces(body).len() > 0,
    ensures
        header(
            decimal(width as nat) + seq![' ' as u8] + decimal(height as nat) + seq!['\n' as u8]
                + body,
            magic,
        ) == (
            Ok::<Header, crate::decode::Error>(Header { magic, width, height, max: None }),
            if magic == 4 {
                body
            } else {
                skip_spaces(body)
            },
        ),
{
    let s2 = body;
    let s1 = decimal(height as nat) + seq!['\n' as u8] + s2;
    let s0 = decimal(width as nat) + seq![' ' as u8] + s1;
    assert(s0 =~= decimal(width as nat) + seq![' ' as u8] + decimal(height as nat) + seq![
        '\n' as u8,
    ] + body);
    lemma_decimal(width as nat);
    assert(s0[0] == decimal(width as nat)[0]);
    assert(is_digit(s0[0]));
    lemma_number_decimal(width as nat, u32::MAX, ' ' as u8, s1);
    lemma_number_decimal(height as nat, u32::MAX, '\n' as u8, s2);
}

/// The header of a graymap or a pixmap that was written, with 255 as the
/// maximum value, is read back, and the image is left but for its leading
/// whitespace.
pub proof fn lemma_header_maxval(magic: u8, width: u32, height: u32, body: Seq<u8>)
    requires
        magic != 1 && magic != 4,
        width > 0,
        height > 0,
        width * height <= u32::MAX,
        skip_spaces(body).len() > 0,
    ensures
        header(
            decimal(width as nat) + seq![' ' as u8] + decimal(height as nat) + ascii(" 255\n"@)
                + body,
            magic,
        ) == (
            Ok::<Header, crate::decode::Error>(
                Header { magic, width, height, max: Some(255u8) },
            ),
            skip_spaces(body),
        ),
{
    reveal_strlit(" 255\n");
    let s3 = body;
    let s2 = decimal(255) + seq!['\n' as u8] + s3;
    let s1 = decimal(height as nat) + seq![' ' as u8] + s2;
    let s0 = decimal(width as nat) + seq![' ' as u8] + s1;
    assert(decimal(255) =~= seq!['2' as u8, '5' as u8, '5' as u8]) by {
        reveal_with_fuel(decimal, 3);
    }
    assert(s0 =~= decimal(width as nat) + seq![' ' as u8] + decimal(height as nat) + ascii(
        " 255\n"@,
    ) + body);
    lemma_decimal(width as nat);
    assert(s0[0] == decimal(width as nat)[0]);
    assert(is_digit(s0[0]));
    lemma_number_decimal(width as nat, u32::MAX, ' ' as u8, s1);
    lemma_number_decimal(height as nat, u32::MAX, ' ' as u8, s2);
    lemma_number_decimal(255, 255, '\n' as u8, s3);
}

} // verus!
