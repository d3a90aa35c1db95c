//! Decoding the output of the EasyLanguage tools and of text files, which
//! may be UTF-8, GBK or UTF-16, and encoding text for writing.
use vstd::prelude::*;
use vstd::utf8::{decode_utf8, encode_utf8, valid_utf8};
use crate::text::{chars_of, string_of};

verus! {

// ---------------------------------------------------------------------------
// Trusted calls
// ---------------------------------------------------------------------------

/// What `encoding_rs::GBK.decode` gives for some bytes: the decoded text and
/// whether malformed sequences were replaced. The call sniffs a UTF-8 or
/// UTF-16 byte order mark first, so its result is a function of the bytes.
pub uninterp spec fn gbk_decode(bytes: Seq<u8>) -> (Seq<char>, bool);

/// What `encoding_rs::GBK.encode` gives for a text.
pub uninterp spec fn gbk_encode(text: Seq<char>) -> Seq<u8>;

/// What `String::from_utf8_lossy` gives for some bytes.
pub uninterp spec fn utf8_lossy(bytes: Seq<u8>) -> Seq<char>;

/// What `str::to_lowercase` gives for a text (Unicode lowercase mapping).
pub uninterp spec fn unicode_lowercase(text: Seq<char>) -> Seq<char>;

/// Inputs for which the buffers that `encoding_rs` asks for stay within
/// what a `String` or `Vec` may hold: GBK decoding reserves at most about
/// three bytes per input byte and encoding at most about two (plus a few
/// bytes), and the crate panics when such a size overflows, as
/// `with_capacity` does above `isize::MAX` bytes.
pub open spec fn codec_len_ok(n: int) -> bool {
    n <= usize::MAX / 8
}

/// Whether all bytes are ASCII.
pub open spec fn ascii_bytes(b: Seq<u8>) -> bool {
    forall|i: int| 0 <= i < b.len() ==> #[trigger] b[i] < 0x80
}

/// Whether all characters are ASCII.
pub open spec fn ascii_text(t: Seq<char>) -> bool {
    forall|i: int| 0 <= i < t.len() ==> (#[trigger] t[i] as u32) < 0x80
}

/// The characters of ASCII bytes, one for each.
pub open spec fn ascii_chars(b: Seq<u8>) -> Seq<char> {
    b.map_values(|x: u8| (x as u32) as char)
}

/// The bytes of ASCII characters, one for each.
pub open spec fn ascii_codes(t: Seq<char>) -> Seq<u8> {
    t.map_values(|c: char| (c as u32) as u8)
}

/// `encoding_rs::GBK.decode(bytes)`: the decoded text (after the byte order
/// sniffing that the crate documents) and its `had_errors` flag, both given
/// by the name `gbk_decode`. GBK is ASCII-compatible: ASCII-only input
/// decodes to the same characters without errors (the crate documents that
/// it then borrows the input). The crate panics only when its buffer size
/// computation overflows, which `codec_len_ok` rules out.
#[verifier::external_body]
pub(crate) fn decode_gbk(bytes: &[u8]) -> (res: (String, bool))
    requires
        codec_len_ok(bytes@.len() as int),
    ensures
        (res.0@, res.1) == gbk_decode(bytes@),
        ascii_bytes(bytes@) ==> res.0@ == ascii_chars(bytes@) && !res.1,
{
    let (text, _, had_errors) = encoding_rs::GBK.decode(bytes);
    (text.into_owned(), had_errors)
}

/// `encoding_rs::GBK.encode(text)`: the encoded bytes, given by the name
/// `gbk_encode`; ASCII-only text is encoded as its own bytes (the crate
/// documents that it then borrows the input). Unmappable characters become
/// numeric character references inside the crate, which nothing here
/// states.
#[verifier::external_body]
pub(crate) fn encode_gbk(text: &str) -> (res: Vec<u8>)
    requires
        codec_len_ok(text@.len() as int),
    ensures
        res@ == gbk_encode(text@),
        ascii_text(text@) ==> res@ == ascii_codes(text@),
{
    let (bytes, _, _) = encoding_rs::GBK.encode(text);
    bytes.into_owned()
}

/// `String::from_utf8`: succeeds exactly on valid UTF-8, with the decoded
/// characters.
#[verifier::external_body]
pub(crate) fn utf8_to_string(bytes: Vec<u8>) -> (res: Option<String>)
    ensures
        res is Some <==> valid_utf8(bytes@),
        res matches Some(s) ==> s@ == decode_utf8(bytes@),
{
    String::from_utf8(bytes).ok()
}

/// `String::from_utf8_lossy`: the name `utf8_lossy`; on valid UTF-8 it is
/// the decoded text, as its documentation says.
#[verifier::external_body]
pub(crate) fn utf8_to_string_lossy(bytes: &[u8]) -> (res: String)
    ensures
        res@ == utf8_lossy(bytes@),
        valid_utf8(bytes@) ==> res@ == decode_utf8(bytes@),
{
    String::from_utf8_lossy(bytes).into_owned()
}

/// `str::to_lowercase`: the name `unicode_lowercase`.
#[verifier::external_body]
pub(crate) fn to_lowercase(text: &str) -> (res: String)
    ensures
        res@ == unicode_lowercase(text@),
{
    text.to_lowercase()
}

/// `char::from_u32`: a character exactly for the Unicode scalar values.
#[verifier::external_body]
pub(crate) fn char_from_u32(u: u32) -> (res: Option<char>)
    ensures
        res is Some <==> vstd::utf8::is_scalar(u),
        res matches Some(c) ==> c as u32 == u,
{
    char::from_u32(u)
}

/// The UTF-8 bytes of a string.
pub fn utf8_bytes(s: &str) -> (out: Vec<u8>)
    ensures
        out@ == encode_utf8(s@),
{
    vstd::slice::slice_to_vec(s.as_bytes())
}

// ---------------------------------------------------------------------------
// UTF-16
// ---------------------------------------------------------------------------

/// `String::from_utf16`: the text of some UTF-16 code units, or `None` when
/// a surrogate is unpaired.
pub open spec fn utf16_decode(w: Seq<u16>) -> Option<Seq<char>>
    decreases w.len(),
{
    if w.len() == 0 {
        Some(seq![])
    } else if w[0] < 0xD800 || w[0] > 0xDFFF {
        match utf16_decode(w.drop_first()) {
            Some(rest) => Some(seq![(w[0] as u32) as char] + rest),
            None => None,
        }
    } else if w[0] <= 0xDBFF && w.len() >= 2 && 0xDC00 <= w[1] && w[1] <= 0xDFFF {
        let u = (0x10000 + (w[0] - 0xD800) * 0x400 + (w[1] - 0xDC00)) as u32;
        match utf16_decode(w.skip(2)) {
            Some(rest) => Some(seq![u as char] + rest),
            None => None,
        }
    } else {
        None
    }
}

pub fn utf16_to_string(w: &[u16]) -> (res: Option<String>)
    ensures
        match res {
            Some(s) => utf16_decode(w@) == Some(s@),
            None => utf16_decode(w@) is None,
        },
{
    let mut out: Vec<char> = Vec::new();
    let mut i: usize = 0;
    assert(w@.skip(0) == w@);
    while i < w.len()
        invariant
            i <= w.len(),
            utf16_decode(w@) == (match utf16_decode(w@.skip(i as int)) {
                Some(rest) => Some(out@ + rest),
                None => None::<Seq<char>>,
            }),
        decreases w.len() - i,
    {
        let ghost t = w@.skip(i as int);
        let a = w[i];
        if a < 0xD800 || a > 0xDFFF {
            assert(t.drop_first() == w@.skip(i + 1));
            let c = char_from_u32(a as u32).unwrap();
            proof {
                vstd::utf8::char_u32_cast(c, a as u32);
                assert(out@.push(c) + utf16_decode(w@.skip(i + 1))->0 == out@ + (seq![c]
                    + utf16_decode(w@.skip(i + 1))->0));
            }
            out.push(c);
            i += 1;
        } else if a <= 0xDBFF && i + 1 < w.len() && 0xDC00 <= w[i + 1] && w[i + 1] <= 0xDFFF {
            let b = w[i + 1];
            assert(t.skip(2) == w@.skip(i + 2));
            let u: u32 = 0x10000 + ((a - 0xD800) as u32) * 0x400 + ((b - 0xDC00) as u32);
            let c = char_from_u32(u).unwrap();
            proof {
                vstd::utf8::char_u32_cast(c, u);
                assert(out@.push(c) + utf16_decode(w@.skip(i + 2))->0 == out@ + (seq![c]
                    + utf16_decode(w@.skip(i + 2))->0));
            }
            out.push(c);
            i += 2;
        } else {
            return None;
        }
    }
    assert(w@.skip(w.len() as int).len() == 0);
    assert(out@ + seq![] == out@);
    Some(string_of(out.as_slice()))
}

/// The number of zero bytes among `b[0..n]` at even (`parity == 0`) or odd
/// (`parity == 1`) positions.
pub open spec fn zeros_at_parity(b: Seq<u8>, n: int, parity: int) -> nat
    decreases n,
{
    if n <= 0 {
        0
    } else {
        zeros_at_parity(b, n - 1, parity) + if (n - 1) % 2 == parity && b[n - 1] == 0 {
            1nat
        } else {
            0nat
        }
    }
}

/// The 16-bit code units of `b`, two bytes each, little or big endian; an
/// odd last byte is left out (`chunks_exact(2)`).
pub open spec fn code_units(b: Seq<u8>, little_endian: bool) -> Seq<u16> {
    Seq::new(
        (b.len() / 2) as nat,
        |i: int|
            if little_endian {
                (b[2 * i] as int + 256 * b[2 * i + 1] as int) as u16
            } else {
                (256 * b[2 * i] as int + b[2 * i + 1] as int) as u16
            },
    )
}

/// How tool output is recognised as UTF-16: by a byte order mark, or else,
/// in its first 512 bytes (at least 8 of them), by zero bytes in more than
/// half of the odd (little endian) or else of the even (big endian)
/// positions. `None` when it is not UTF-16.
pub open spec fn utf16_layout(b: Seq<u8>) -> Option<(Seq<u8>, bool)> {
    if b.len() >= 2 && b[0] == 0xff && b[1] == 0xfe {
        Some((b.skip(2), true))
    } else if b.len() >= 2 && b[0] == 0xfe && b[1] == 0xff {
        Some((b.skip(2), false))
    } else {
        let n = if b.len() < 512 {
            b.len() as int
        } else {
            512
        };
        let pairs = n / 2;
        if n < 8 {
            None
        } else if zeros_at_parity(b, n, 1) * 2 > pairs {
            Some((b, true))
        } else if zeros_at_parity(b, n, 0) * 2 > pairs {
            Some((b, false))
        } else {
            None
        }
    }
}

/// The text of tool output that is UTF-16, if it is and decodes.
pub open spec fn utf16ish_text(b: Seq<u8>) -> Option<Seq<char>> {
    match utf16_layout(b) {
        Some((body, le)) => utf16_decode(code_units(body, le)),
        None => None,
    }
}

fn count_zeros_at_parity(b: &[u8], n: usize, parity: usize) -> (res: usize)
    requires
        n <= b.len(),
        parity < 2,
    ensures
        res == zeros_at_parity(b@, n as int, parity as int),
        res <= n,
{
    let mut count: usize = 0;
    let mut i: usize = 0;
    while i < n
        invariant
            i <= n <= b.len(),
            parity < 2,
            count == zeros_at_parity(b@, i as int, parity as int),
            count <= i,
        decreases n - i,
    {
        if i % 2 == parity && b[i] == 0 {
            count += 1;
        }
        i += 1;
    }
    count
}

fn to_code_units(b: &[u8], little_endian: bool) -> (out: Vec<u16>)
    ensures
        out@ == code_units(b@, little_endian),
{
    let mut out: Vec<u16> = Vec::new();
    let mut i: usize = 0;
    let half = b.len() / 2;
    while i < half
        invariant
            i <= half,
            half == b.len() / 2,
            out@ == code_units(b@, little_endian).take(i as int),
        decreases half - i,
    {
        let lo = b[2 * i];
        let hi = b[2 * i + 1];
        let w: u16 = if little_endian {
            (lo as u16) + 256 * (hi as u16)
        } else {
            256 * (lo as u16) + (hi as u16)
        };
        out.push(w);
        assert(out@ == code_units(b@, little_endian).take(i + 1));
        i += 1;
    }
    assert(code_units(b@, little_endian).take(half as int) == code_units(b@, little_endian));
    out
}

/// Tool output read as UTF-16 when it looks like UTF-16 and decodes.
pub fn decode_utf16ish_tool_output(bytes: &[u8]) -> (res: Option<String>)
    ensures
        match res {
            Some(s) => utf16ish_text(bytes@) == Some(s@),
            None => utf16ish_text(bytes@) is None,
        },
{
    let body: &[u8];
    let little_endian: bool;
    if bytes.len() >= 2 && bytes[0] == 0xff && bytes[1] == 0xfe {
        body = vstd::slice::slice_subrange(bytes, 2, bytes.len());
        little_endian = true;
    } else if bytes.len() >= 2 && bytes[0] == 0xfe && bytes[1] == 0xff {
        body = vstd::slice::slice_subrange(bytes, 2, bytes.len());
        little_endian = false;
    } else {
        let sample_len = if bytes.len() < 512 {
            bytes.len()
        } else {
            512
        };
        if sample_len < 8 {
            return None;
        }
        let even_nuls = count_zeros_at_parity(bytes, sample_len, 0);
        let odd_nuls = count_zeros_at_parity(bytes, sample_len, 1);
        let pairs = sample_len / 2;
        if odd_nuls * 2 > pairs {
            body = bytes;
            little_endian = true;
        } else if even_nuls * 2 > pairs {
            body = bytes;
            little_endian = false;
        } else {
            return None;
        }
    }
    assert(utf16_layout(bytes@) == Some((body@, little_endian)));
    let words = to_code_units(body, little_endian);
    utf16_to_string(words.as_slice())
}

/// The UTF-16 code units of one character (`char::encode_utf16`): the
/// value itself below 0x10000, else a high and a low surrogate.
pub open spec fn char_utf16(c: char) -> Seq<u16> {
    let u = c as u32;
    if u < 0x10000 {
        seq![u as u16]
    } else {
        let v = u - 0x10000;
        seq![(0xD800 + v / 0x400) as u16, (0xDC00 + v % 0x400) as u16]
    }
}

/// The UTF-16 code units of a text (`str::encode_utf16`).
pub open spec fn utf16_encode(s: Seq<char>) -> Seq<u16>
    decreases s.len(),
{
    if s.len() == 0 {
        seq![]
    } else {
        char_utf16(s[0]) + utf16_encode(s.drop_first())
    }
}

/// Code units as bytes, low byte first (`u16::to_le_bytes`) or high byte
/// first (`u16::to_be_bytes`).
pub open spec fn unit_bytes(w: Seq<u16>, little_endian: bool) -> Seq<u8> {
    Seq::new(
        (2 * w.len()) as nat,
        |i: int|
            if (i % 2 == 0) == little_endian {
                (w[i / 2] % 256) as u8
            } else {
                (w[i / 2] / 256) as u8
            },
    )
}

proof fn lemma_utf16_decode_encode(s: Seq<char>)
    ensures
        utf16_decode(utf16_encode(s)) == Some(s),
    decreases s.len(),
{
    if s.len() > 0 {
        let c = s[0];
        let u = c as u32;
        let rest = utf16_encode(s.drop_first());
        let w = utf16_encode(s);
        lemma_utf16_decode_encode(s.drop_first());
        vstd::utf8::char_u32_cast(c, u);
        if u < 0x10000 {
            assert(w =~= seq![u as u16] + rest);
            assert(w.drop_first() =~= rest);
            assert(w[0] as u32 == u);
        } else {
            let v = (u - 0x10000) as int;
            assert(v == (v / 0x400) * 0x400 + v % 0x400);
            assert(w.skip(2) =~= rest);
            assert(w[0] == 0xD800 + v / 0x400);
            assert(w[1] == 0xDC00 + v % 0x400);
            assert((0x10000 + (w[0] - 0xD800) * 0x400 + (w[1] - 0xDC00)) as u32 == u);
        }
        assert(seq![c] + s.drop_first() =~= s);
    }
}

proof fn lemma_code_units_of_bytes(w: Seq<u16>, little_endian: bool)
    ensures
        code_units(unit_bytes(w, little_endian), little_endian) == w,
{
    let b = unit_bytes(w, little_endian);
    assert forall|i: int| 0 <= i < w.len() implies #[trigger] code_units(b, little_endian)[i]
        == w[i] by {
        assert((2 * i) / 2 == i);
        assert((2 * i + 1) / 2 == i);
        assert((2 * i) % 2 == 0);
        assert((2 * i + 1) % 2 == 1);
        assert(w[i] == (w[i] % 256) + 256 * (w[i] / 256));
    }
    assert(code_units(b, little_endian) =~= w);
}

/// Tool output written as UTF-16 with a byte order mark, little or big
/// endian, is read back as the text that was written.
pub proof fn law_utf16_output_reads_back(s: Seq<char>)
    ensures
        utf16ish_text(seq![0xffu8, 0xfeu8] + unit_bytes(utf16_encode(s), true)) == Some(s),
        utf16ish_text(seq![0xfeu8, 0xffu8] + unit_bytes(utf16_encode(s), false)) == Some(s),
{
    let w = utf16_encode(s);
    lemma_utf16_decode_encode(s);
    lemma_code_units_of_bytes(w, true);
    lemma_code_units_of_bytes(w, false);
    let le = seq![0xffu8, 0xfeu8] + unit_bytes(w, true);
    let be = seq![0xfeu8, 0xffu8] + unit_bytes(w, false);
    assert(le.skip(2) =~= unit_bytes(w, true));
    assert(be.skip(2) =~= unit_bytes(w, false));
}

// ---------------------------------------------------------------------------
// Tool output and text files
// ---------------------------------------------------------------------------

/// How tool output is decoded: empty output is empty text; UTF-16 output is
/// read as such; with `prefer_gbk`, GBK is used when it decodes without
/// errors; then UTF-8; and GBK (with replacements) as the last resort.
pub open spec fn tool_output_text(b: Seq<u8>, prefer_gbk: bool) -> Seq<char> {
    if b.len() == 0 {
        seq![]
    } else if utf16ish_text(b) is Some {
        utf16ish_text(b)->0
    } else if prefer_gbk && !gbk_decode(b).1 {
        gbk_decode(b).0
    } else if valid_utf8(b) {
        decode_utf8(b)
    } else {
        gbk_decode(b).0
    }
}

pub fn decode_tool_output_with_preference(bytes: &[u8], prefer_gbk: bool) -> (out: String)
    requires
        codec_len_ok(bytes@.len() as int),
    ensures
        out@ == tool_output_text(bytes@, prefer_gbk),
{
    if bytes.len() == 0 {
        return String::new();
    }
    if let Some(text) = decode_utf16ish_tool_output(bytes) {
        return text;
    }
    if prefer_gbk {
        let (text, had_errors) = decode_gbk(bytes);
        if !had_errors {
            return text;
        }
    }
    match utf8_to_string(vstd::slice::slice_to_vec(bytes)) {
        Some(text) => text,
        None => decode_gbk(bytes).0,
    }
}

pub fn decode_tool_output(bytes: &[u8]) -> (out: String)
    requires
        codec_len_ok(bytes@.len() as int),
    ensures
        out@ == tool_output_text(bytes@, false),
{
    decode_tool_output_with_preference(bytes, false)
}

/// How a text file is read: UTF-8 when it is valid UTF-8, GBK otherwise.
pub open spec fn file_text(b: Seq<u8>) -> Seq<char> {
    if valid_utf8(b) {
        decode_utf8(b)
    } else {
        gbk_decode(b).0
    }
}

/// The text of a file's bytes, and whether it was read as UTF-8.
pub fn decode_text_bytes(bytes: &[u8]) -> (res: (String, bool))
    requires
        codec_len_ok(bytes@.len() as int),
    ensures
        res.0@ == file_text(bytes@),
        res.1 == valid_utf8(bytes@),
{
    match utf8_to_string(vstd::slice::slice_to_vec(bytes)) {
        Some(text) => (text, true),
        None => (decode_gbk(bytes).0, false),
    }
}

} // verus!
