//! Decoding utilities: the errors, the byte cursor, numbers, the magic number
//! and the header that the older formats share.
//!
//! A cursor is a `&mut &[u8]`: reading moves the slice's start forward. What a
//! reader does is stated by a spec function from the bytes under the cursor
//! to a pair: what was read, and the bytes that are left.
use crate::encode::{ascii, ascii_string, chars, decimal, encodeu32, lemma_decimal};
use vstd::prelude::*;
use vstd::slice::slice_subrange;
use vstd::string::*;
use vstd::utf8::is_ascii_chars;

verus! {

/// Errors that can occur on decoding.
#[derive(Debug, Clone, Copy, PartialEq, Eq)]
#[non_exhaustive]
pub enum Error {
    /// The image's sides multiply to more than 32 bits hold.
    TooLarge,
    /// A number held something that is neither a digit nor whitespace.
    NotDigit(char),
    /// The magic number names no format.
    BadMagic(u8),
    /// The magic number names another format than the decoder's.
    WrongMagic { got: u8, should: u8 },
    /// The input does not start with a magic number.
    MissingMagic,
    ZeroWidth,
    ZeroHeight,
    MissingWidth,
    MissingHeight,
    /// The input ends before the image does.
    MissingData,
    MissingMax,
    MissingDepth,
    MissingTupltype,
    /// A number is larger than its field holds.
    Overflow,
}

/// What `String::push` of the standard library does, which is not verified
/// here: it puts the character behind the text.
pub assume_specification[ String::push ](s: &mut String, c: char)
    ensures
        final(s)@ == old(s)@.push(c),
;

/// `n` in decimal digits, as a text.
fn number_text(n: u8) -> (s: String)
    ensures
        s@ == chars(decimal(n as nat)),
{
    let mut digits: Vec<u8> = Vec::new();
    encodeu32(n as u32, &mut digits);
    proof {
        lemma_decimal(n as nat);
    }
    ascii_string(digits)
}

impl Error {
    /// What the error says.
    pub open spec fn text(self) -> Seq<char> {
        match self {
            Error::TooLarge => "image too big"@,
            Error::NotDigit(x) => "found "@ + seq![x] + " while decoding number"@,
            Error::BadMagic(x) => chars(decimal(x as nat)) + " is not a valid magic number"@,
            Error::WrongMagic { got, should } => "expected magic number "@ + chars(
                decimal(should as nat),
            ) + " found "@ + chars(decimal(got as nat)),
            Error::MissingMagic => "no magic number (likely not a pnm image)"@,
            Error::ZeroWidth => "zero width"@,
            Error::ZeroHeight => "zero height"@,
            Error::MissingWidth => "no width"@,
            Error::MissingHeight => "no height"@,
            Error::MissingData => "no data"@,
            Error::MissingMax => "no max value"@,
            Error::MissingDepth => "no depth"@,
            Error::MissingTupltype => "no tupltype"@,
            Error::Overflow => "overflow while parsing number"@,
        }
    }

    /// Says what the error is.
    pub fn message(&self) -> (s: String)
        ensures
            s@ == self.text(),
    {
        match self {
            Error::TooLarge => String::from_str("image too big"),
            Error::NotDigit(x) => {
                let mut s = String::from_str("found ");
                s.push(*x);
                s.append(" while decoding number");
                s
            },
            Error::BadMagic(x) => {
                let mut s = number_text(*x);
                s.append(" is not a valid magic number");
                s
            },
            Error::WrongMagic { got, should } => {
                let mut s = String::from_str("expected magic number ");
                s.append(number_text(*should).as_str());
                s.append(" found ");
                s.append(number_text(*got).as_str());
                s
            },
            Error::MissingMagic => String::from_str("no magic number (likely not a pnm image)"),
            Error::ZeroWidth => String::from_str("zero width"),
            Error::ZeroHeight => String::from_str("zero height"),
            Error::MissingWidth => String::from_str("no width"),
            Error::MissingHeight => String::from_str("no height"),
            Error::MissingData => String::from_str("no data"),
            Error::MissingMax => String::from_str("no max value"),
            Error::MissingDepth => String::from_str("no depth"),
            Error::MissingTupltype => String::from_str("no tupltype"),
            Error::Overflow => String::from_str("overflow while parsing number"),
        }
    }
}

/// Result alias with [`Error`].
pub type Result<T> = std::result::Result<T, Error>;

/// Header for the older PNM formats. Not applicable to PAM.
#[derive(Debug, Clone, Copy, PartialEq, Eq)]
pub struct Header {
    /// Magic number.
    pub magic: u8,
    pub width: u32,
    pub height: u32,
    /// Maximum value of each byte.
    pub max: Option<u8>,
}

impl Header {
    /// What holds of every header that [`decode_header`] returns: no side is
    /// zero, and the number of pixels fits 32 bits.
    pub open spec fn wf(self) -> bool {
        self.width > 0 && self.height > 0 && self.width * self.height <= u32::MAX
    }
}

/// The bytes that count as whitespace: space, tab, line feed, form feed and
/// carriage return.
pub open spec fn is_space(b: u8) -> bool {
    b == ' ' as u8 || b == '\t' as u8 || b == '\n' as u8 || b == 0x0c || b == '\r' as u8
}

/// The bytes `'0'` to `'9'`.
pub open spec fn is_digit(b: u8) -> bool {
    '0' as u8 <= b <= '9' as u8
}

/// The number that the digit `b` stands for.
pub open spec fn digit(b: u8) -> nat {
    (b - '0' as u8) as nat
}

/// Whether `b` is ASCII whitespace.
pub fn is_ascii_whitespace(b: u8) -> (r: bool)
    ensures
        r == is_space(b),
{
    b == ' ' as u8 || b == '\t' as u8 || b == '\n' as u8 || b == 0x0c || b == '\r' as u8
}

/// Whether `b` is an ASCII digit.
pub fn is_ascii_digit(b: u8) -> (r: bool)
    ensures
        r == is_digit(b),
{
    '0' as u8 <= b && b <= '9' as u8
}

/// Reads one byte, if there is one.
pub fn next_byte(x: &mut &[u8]) -> (r: Option<u8>)
    ensures
        old(x)@.len() == 0 ==> r.is_none() && final(x)@ == old(x)@,
        old(x)@.len() > 0 ==> r == Some(old(x)@[0]) && final(x)@ == old(x)@.skip(1),
{
    if x.len() == 0 {
        None
    } else {
        let b: u8 = x[0];
        *x = slice_subrange(*x, 1, x.len());
        Some(b)
    }
}

/// What [`read_til`] makes of the bytes `s` when it has already read the
/// value `acc`: the number or the error, and the bytes left. The number ends
/// at the first whitespace byte, which is read too, or with the input. Each
/// digit multiplies what was read by ten and adds itself. The first byte
/// that is no digit, or the first digit that takes the number over `limit`,
/// ends the reading with an error, and is not given back.
pub open spec fn number(s: Seq<u8>, acc: nat, limit: u32) -> (Result<u32>, Seq<u8>)
    decreases s.len(),
{
    if s.len() == 0 {
        (Ok(acc as u32), s)
    } else if is_space(s[0]) {
        (Ok(acc as u32), s.skip(1))
    } else if !is_digit(s[0]) {
        (Err(Error::NotDigit(s[0] as char)), s.skip(1))
    } else if acc * 10 + digit(s[0]) > limit {
        (Err(Error::Overflow), s.skip(1))
    } else {
        number(s.skip(1), acc * 10 + digit(s[0]), limit)
    }
}

/// The number that the digits `d` spell when `acc` was read before them.
pub open spec fn decimal_value(acc: nat, d: Seq<u8>) -> nat
    decreases d.len(),
{
    if d.len() == 0 {
        acc
    } else {
        decimal_value(acc * 10 + digit(d[0]), d.skip(1))
    }
}

/// Reads a decimal number of at most `limit`, and the whitespace byte that
/// ends it.
pub fn read_til(x: &mut &[u8], limit: u32) -> (r: Result<u32>)
    ensures
        r == number(old(x)@, 0, limit).0,
        final(x)@ == number(old(x)@, 0, limit).1,
        r matches Ok(v) ==> v <= limit,
{
    let mut n: u32 = 0;
    loop
        invariant
            n <= limit,
            number(old(x)@, 0, limit) == number(x@, n as nat, limit),
        decreases x@.len(),
    {
        match next_byte(x) {
            None => {
                return Ok(n);
            },
            Some(b) => {
                if is_ascii_whitespace(b) {
                    return Ok(n);
                }
                if !is_ascii_digit(b) {
                    return Err(Error::NotDigit(b as char));
                }
                let next: u64 = n as u64 * 10 + (b - '0' as u8) as u64;
                if next > limit as u64 {
                    return Err(Error::Overflow);
                }
                n = next as u32;
            },
        }
    }
}

/// The bytes that follow the whitespace at the start of `s`.
pub open spec fn skip_spaces(s: Seq<u8>) -> Seq<u8>
    decreases s.len(),
{
    if s.len() > 0 && is_space(s[0]) {
        skip_spaces(s.skip(1))
    } else {
        s
    }
}

/// Reads whitespace up to the first byte that is none, or to the end.
pub fn skip_whitespace(x: &mut &[u8])
    ensures
        final(x)@ == skip_spaces(old(x)@),
{
    loop
        invariant
            skip_spaces(old(x)@) == skip_spaces(x@),
        decreases x@.len(),
    {
        if x.len() == 0 || !is_ascii_whitespace(x[0]) {
            return ;
        }
        *x = slice_subrange(*x, 1, x.len());
    }
}

/// What [`magic`] makes of the bytes `s`: the magic number, and the bytes
/// left. The input has to start with `P`. The byte after it, less `'0'`, is
/// the magic number, if it is not below `'0'`. The whitespace that follows is
/// read too, whether or not anything stands behind it. There is no magic
/// number where one of the two bytes is missing.
pub open spec fn tag(s: Seq<u8>) -> (Option<u8>, Seq<u8>) {
    if s.len() == 0 {
        (None, s)
    } else if s[0] != 'P' as u8 || s.len() == 1 {
        (None, s.skip(1))
    } else if s[1] < '0' as u8 {
        (None, skip_spaces(s.skip(2)))
    } else {
        (Some((s[1] - '0' as u8) as u8), skip_spaces(s.skip(2)))
    }
}

/// Decodes the magic number.
pub fn magic(x: &mut &[u8]) -> (r: Option<u8>)
    ensures
        r == tag(old(x)@).0,
        final(x)@ == tag(old(x)@).1,
{
    match next_byte(x) {
        None => {
            return None;
        },
        Some(p) => {
            if p != 'P' as u8 {
                return None;
            }
        },
    }
    let m: Option<u8> = match next_byte(x) {
        None => {
            return None;
        },
        Some(d) => d.checked_sub('0' as u8),
    };
    assert(x@ == old(x)@.skip(2));
    skip_whitespace(x);
    m
}

/// The bytes that follow the comments at the start of `s`. A comment runs
/// from a `#` to the end of its line, or to the end of the input. `inside`
/// says whether `s` starts within a comment.
pub open spec fn skip_comments(s: Seq<u8>, inside: bool) -> Seq<u8>
    decreases s.len(),
{
    if s.len() == 0 {
        s
    } else if inside {
        skip_comments(s.skip(1), s[0] != '\n' as u8)
    } else if s[0] == '#' as u8 {
        skip_comments(s.skip(1), true)
    } else {
        s
    }
}

/// What [`decode_header`] makes of the bytes `s` that follow the magic number
/// `magic`: the header or the error, and the bytes left. After the comments
/// come the width and the height, neither of them zero, their product within
/// 32 bits. A format other than the two bitmaps has a maximum value of at
/// most 255 next. In every format but the raw bitmap the whitespace before
/// the image is read too, and the image may not be missing.
pub open spec fn header(s: Seq<u8>, magic: u8) -> (Result<Header>, Seq<u8>) {
    let (width, s1) = number(skip_comments(s, false), 0, u32::MAX);
    let (height, s2) = number(s1, 0, u32::MAX);
    let (max, s3) = number(s2, 0, 255);
    let bitmap = magic == 4 || magic == 1;
    if width is Err {
        (Err(width->Err_0), s1)
    } else if width->Ok_0 == 0 {
        (Err(Error::ZeroWidth), s1)
    } else if height is Err {
        (Err(height->Err_0), s2)
    } else if height->Ok_0 == 0 {
        (Err(Error::ZeroHeight), s2)
    } else if width->Ok_0 * height->Ok_0 > u32::MAX {
        (Err(Error::TooLarge), s2)
    } else if !bitmap && max is Err {
        (Err(max->Err_0), s3)
    } else {
        let found = Header {
            magic,
            width: width->Ok_0,
            height: height->Ok_0,
            max: if bitmap {
                None
            } else {
                Some(max->Ok_0 as u8)
            },
        };
        let s4 = if bitmap {
            s2
        } else {
            s3
        };
        if magic == 4 {
            (Ok(found), s4)
        } else if skip_spaces(s4).len() == 0 {
            (Err(Error::MissingData), skip_spaces(s4))
        } else {
            (Ok(found), skip_spaces(s4))
        }
    }
}

/// Reads the comments under the cursor.
fn skip_comment_lines(x: &mut &[u8])
    ensures
        final(x)@ == skip_comments(old(x)@, false),
{
    while x.len() > 0 && x[0] == '#' as u8
        invariant
            skip_comments(old(x)@, false) == skip_comments(x@, false),
        decreases x@.len(),
    {
        let ghost line = x@;
        *x = slice_subrange(*x, 1, x.len());
        loop
            invariant_except_break
                skip_comments(line, false) == skip_comments(x@, true),
            invariant
                x@.len() < line.len(),
            ensures
                skip_comments(line, false) == skip_comments(x@, false),
            decreases x@.len(),
        {
            match next_byte(x) {
                None => {
                    break ;
                },
                Some(b) => {
                    if b == '\n' as u8 {
                        break ;
                    }
                },
            }
        }
    }
}

/// Get the older pnm formats header. Does not decode magic.
pub fn decode_header(x: &mut &[u8], magic: u8) -> (r: Result<Header>)
    ensures
        r == header(old(x)@, magic).0,
        final(x)@ == header(old(x)@, magic).1,
        r matches Ok(h) ==> h.wf() && h.magic == magic && (h.max is None <==> (magic == 4 || magic
            == 1)),
{
    skip_comment_lines(x);
    let width: u32 = match read_til(x, u32::MAX) {
        Ok(w) => w,
        Err(e) => {
            return Err(e);
        },
    };
    if width == 0 {
        return Err(Error::ZeroWidth);
    }
    let height: u32 = match read_til(x, u32::MAX) {
        Ok(h) => h,
        Err(e) => {
            return Err(e);
        },
    };
    if height == 0 {
        return Err(Error::ZeroHeight);
    }
    if width.checked_mul(height).is_none() {
        return Err(Error::TooLarge);
    }
    let max: Option<u8> = if magic != 4 && magic != 1 {
        match read_til(x, 255) {
            Ok(m) => Some(m as u8),
            Err(e) => {
                return Err(e);
            },
        }
    } else {
        None
    };
    if magic != 4 {
        skip_whitespace(x);
        if x.len() == 0 {
            return Err(Error::MissingData);
        }
    }
    Ok(Header { magic, width, height, max })
}

/// What a decoder of the format `should` makes of the start of `s`: the bytes
/// that follow the magic number, or why it is not the right one.
pub open spec fn tagged(s: Seq<u8>, should: u8) -> Result<Seq<u8>> {
    match tag(s).0 {
        None => Err(Error::MissingMagic),
        Some(got) => if got == should {
            Ok(tag(s).1)
        } else {
            Err(Error::WrongMagic { got, should })
        },
    }
}

/// Reads the magic number, which has to be `should`.
pub fn expect_magic(x: &mut &[u8], should: u8) -> (r: Result<()>)
    ensures
        r matches Ok(_) ==> tagged(old(x)@, should) == Ok::<Seq<u8>, Error>(final(x)@),
        r matches Err(e) ==> tagged(old(x)@, should) == Err::<Seq<u8>, Error>(e),
{
    match magic(x) {
        None => Err(Error::MissingMagic),
        Some(got) => if got == should {
            Ok(())
        } else {
            Err(Error::WrongMagic { got, should })
        },
    }
}

/// Whether `s` starts with the bytes `key`.
pub open spec fn starts_with(s: Seq<u8>, key: Seq<u8>) -> bool {
    key.len() <= s.len() && s.take(key.len() as int) == key
}

/// The bytes left of `s` when `n` bytes were asked of it: those behind the
/// first `n`, or none where it has fewer.
pub open spec fn after(s: Seq<u8>, n: nat) -> Seq<u8> {
    if s.len() < n {
        Seq::empty()
    } else {
        s.skip(n as int)
    }
}

/// Whether the bytes `a` are the text `key`.
pub fn same(a: &[u8], key: &str) -> (r: bool)
    requires
        is_ascii_chars(key@),
    ensures
        r == (a@ == ascii(key@)),
{
    proof {
        is_ascii_spec_bytes(key);
        assert(is_ascii(key));
        assert(key.spec_bytes() =~= ascii(key@));
    }
    let k = key.as_bytes();
    if a.len() != k.len() {
        return false;
    }
    let mut i: usize = 0;
    while i < k.len()
        invariant
            i <= k.len(),
            a@.len() == k@.len(),
            k@ == ascii(key@),
            a@.take(i as int) == k@.take(i as int),
        decreases k.len() - i,
    {
        if a[i] != k[i] {
            return false;
        }
        i += 1;
        assert(a@.take(i as int) =~= a@.take(i - 1).push(a@[i - 1]));
        assert(k@.take(i as int) =~= k@.take(i - 1).push(k@[i - 1]));
    }
    assert(a@.take(i as int) =~= a@);
    assert(k@.take(i as int) =~= k@);
    true
}

/// Reads as many bytes as the text `key` has, and says whether they are that
/// text. Where fewer are left, they are read all the same.
pub fn expect(x: &mut &[u8], key: &str) -> (found: bool)
    requires
        is_ascii_chars(key@),
    ensures
        found == starts_with(old(x)@, ascii(key@)),
        final(x)@ == after(old(x)@, key@.len()),
{
    let n: usize = key.as_bytes().len();
    proof {
        is_ascii_spec_bytes(key);
        assert(is_ascii(key));
        assert(key.spec_bytes() =~= ascii(key@));
    }
    if x.len() < n {
        *x = slice_subrange(*x, x.len(), x.len());
        assert(x@ =~= Seq::<u8>::empty());
        return false;
    }
    let found = same(slice_subrange(*x, 0, n), key);
    *x = slice_subrange(*x, n, x.len());
    found
}

} // verus!
