//! Reading and writing the text files of a project: which line endings and
//! which encoding a file gets, and how read bytes become text for an agent.
use vstd::prelude::*;
use vstd::utf8::{decode_utf8, encode_utf8, valid_utf8};
use crate::encoding::{
    ascii_codes, ascii_text, codec_len_ok, decode_text_bytes, encode_gbk, file_text, gbk_encode, utf8_bytes,
};
use crate::text::{
    append_chars, append_decimal, chars_of, decimal, ends_with, ends_with_chars, eq_str,
    lf_to_crlf, lf_to_crlf_exec, normalize_newlines, normalize_newlines_exec, string_of,
    sub_chars, to_ascii_lowercase, to_ascii_lowercase_chars, trim, trim_chars, is_crlf_text,
    lemma_lf_to_crlf_is_crlf, lemma_normalize_has_no_cr, lemma_normalize_identity,
};

verus! {

#[derive(Debug, Clone)]
pub struct WriteTextResult {
    pub path: String,
    pub bytes: usize,
}

#[derive(Debug, Clone)]
pub struct ReadFileResult {
    pub path: String,
    pub content: String,
    pub encoding: String,
    pub bytes: usize,
    pub truncated: bool,
}

/// EasyLanguage source files (`.e.txt`, `.epl`, compared without ASCII
/// case) are kept with CRLF line endings.
pub open spec fn uses_crlf(path: Seq<char>) -> bool {
    let lower = to_ascii_lowercase(path);
    ends_with(lower, ".e.txt"@) || ends_with(lower, ".epl"@)
}

pub fn should_use_crlf(path: &str) -> (res: bool)
    ensures
        res == uses_crlf(path@),
{
    let lower = to_ascii_lowercase_chars(chars_of(path).as_slice());
    ends_with_chars(lower.as_slice(), chars_of(".e.txt").as_slice()) || ends_with_chars(
        lower.as_slice(),
        chars_of(".epl").as_slice(),
    )
}

/// The content as written to `path`: line breaks made uniform and written
/// as CRLF for EasyLanguage sources, unchanged otherwise.
pub open spec fn content_for_path(path: Seq<char>, content: Seq<char>) -> Seq<char> {
    if uses_crlf(path) {
        lf_to_crlf(normalize_newlines(content))
    } else {
        content
    }
}

pub fn normalize_line_endings_for_path(path: &str, content: String) -> (out: String)
    ensures
        out@ == content_for_path(path@, content@),
{
    if !should_use_crlf(path) {
        return content;
    }
    let normalized = normalize_newlines_exec(chars_of(content.as_str()).as_slice());
    string_of(lf_to_crlf_exec(normalized.as_slice()).as_slice())
}

/// Whether an encoding name asks for GBK: `"gbk"` or `"gb18030"` after
/// trimming and ASCII lowercasing; no name means UTF-8.
pub open spec fn wants_gbk(encoding: Option<Seq<char>>) -> bool {
    match encoding {
        Some(e) => {
            let name = to_ascii_lowercase(trim(e));
            name == "gbk"@ || name == "gb18030"@
        },
        None => false,
    }
}

pub fn encoding_is_gbk(encoding: &Option<String>) -> (res: bool)
    ensures
        res == wants_gbk(match encoding {
            Some(e) => Some(e@),
            None => None,
        }),
{
    match encoding {
        Some(e) => {
            let name = to_ascii_lowercase_chars(trim_chars(chars_of(e.as_str()).as_slice()).as_slice());
            eq_str(name.as_slice(), "gbk") || eq_str(name.as_slice(), "gb18030")
        },
        None => false,
    }
}

/// The bytes written for `content` at `path` with the given encoding name.
pub open spec fn bytes_for_write(
    path: Seq<char>,
    content: Seq<char>,
    encoding: Option<Seq<char>>,
) -> Seq<u8> {
    let text = content_for_path(path, content);
    if wants_gbk(encoding) {
        gbk_encode(text)
    } else {
        encode_utf8(text)
    }
}

/// The bytes that `write_text_file` writes: line endings for the path, then
/// GBK or UTF-8.
pub fn encode_text_for_write(path: &str, content: String, encoding: &Option<String>) -> (out: Vec<u8>)
    requires
        codec_len_ok(2 * content@.len() as int),
    ensures
        out@ == bytes_for_write(
            path@,
            content@,
            match encoding {
                Some(e) => Some(e@),
                None => None,
            },
        ),
        ({
            let text = content_for_path(path@, content@);
            let gbk = wants_gbk(
                match encoding {
                    Some(e) => Some(e@),
                    None => None,
                },
            );
            gbk && ascii_text(text) ==> out@ == ascii_codes(text)
        }),
{
    proof {
        lemma_crlf_len(path@, content@);
    }
    let text = normalize_line_endings_for_path(path, content);
    if encoding_is_gbk(encoding) {
        encode_gbk(text.as_str())
    } else {
        utf8_bytes(text.as_str())
    }
}

proof fn lemma_normalize_len(s: Seq<char>)
    ensures
        normalize_newlines(s).len() <= s.len(),
    decreases s.len(),
{
    if s.len() > 0 {
        if s[0] == '\r' && s.len() > 1 && s[1] == '\n' {
            lemma_normalize_len(s.skip(2));
        } else {
            lemma_normalize_len(s.drop_first());
        }
    }
}

proof fn lemma_lf_to_crlf_len(s: Seq<char>)
    ensures
        lf_to_crlf(s).len() <= 2 * s.len(),
    decreases s.len(),
{
    if s.len() > 0 {
        lemma_lf_to_crlf_len(s.drop_first());
    }
}

proof fn lemma_crlf_len(path: Seq<char>, content: Seq<char>)
    ensures
        content_for_path(path, content).len() <= 2 * content.len(),
{
    lemma_normalize_len(content);
    lemma_lf_to_crlf_len(normalize_newlines(content));
}

/// The result record of a write.
pub fn write_result(path: String, byte_count: usize) -> (out: WriteTextResult)
    ensures
        out.path == path,
        out.bytes == byte_count,
{
    WriteTextResult { path, bytes: byte_count }
}

/// The default number of characters returned to an agent.
pub const DEFAULT_MAX_CHARS: usize = 12000;

/// The note appended to truncated content.
pub open spec fn truncation_note(byte_count: nat) -> Seq<char> {
    "\n\n... [已截断，原始文件 "@ + decimal(byte_count) + " 字节] ..."@
}

/// What an agent is given of a file: the text (UTF-8 when valid, else GBK),
/// cut to `limit` characters with a note when it is longer.
pub open spec fn agent_content(raw: Seq<u8>, limit: nat) -> Seq<char> {
    let text = file_text(raw);
    if text.len() > limit {
        text.take(limit as int) + truncation_note(raw.len())
    } else {
        text
    }
}

/// The part of `read_text_file_for_agent` that works on the bytes read: the
/// detected encoding, the text, and its truncation to `max_chars`
/// characters (12000 when not given).
pub fn read_result_from_bytes(path: String, raw: Vec<u8>, max_chars: Option<usize>) -> (out:
    ReadFileResult)
    requires
        codec_len_ok(raw@.len() as int),
    ensures
        out.path == path,
        out.bytes == raw@.len(),
        out.encoding@ == (if valid_utf8(raw@) {
            "UTF-8"@
        } else {
            "GBK"@
        }),
        out.truncated == (file_text(raw@).len() > match max_chars {
            Some(m) => m,
            None => DEFAULT_MAX_CHARS,
        }),
        out.content@ == agent_content(
            raw@,
            match max_chars {
                Some(m) => m as nat,
                None => DEFAULT_MAX_CHARS as nat,
            },
        ),
{
    let byte_count = raw.len();
    let (content, is_utf8) = decode_text_bytes(raw.as_slice());
    let encoding = if is_utf8 {
        "UTF-8".to_owned()
    } else {
        "GBK".to_owned()
    };
    let limit = match max_chars {
        Some(m) => m,
        None => DEFAULT_MAX_CHARS,
    };
    let chars = chars_of(content.as_str());
    let truncated = chars.len() > limit;
    let content = if truncated {
        let mut kept = sub_chars(chars.as_slice(), 0, limit);
        let note_head = chars_of("\n\n... [已截断，原始文件 ");
        append_chars(&mut kept, note_head.as_slice());
        append_decimal(&mut kept, byte_count);
        append_chars(&mut kept, chars_of(" 字节] ...").as_slice());
        proof {
            assert(chars@.subrange(0, limit as int) == chars@.take(limit as int));
        }
        string_of(kept.as_slice())
    } else {
        content
    };
    ReadFileResult { path, content, encoding, bytes: byte_count, truncated }
}

/// A file written as UTF-8 reads back as what was written (with the line
/// endings of its path): the UTF-8 path of the GBK/UTF-8 conversion loses
/// nothing.
pub proof fn law_utf8_write_read_roundtrip(path: Seq<char>, content: Seq<char>, limit: nat)
    requires
        content_for_path(path, content).len() <= limit,
    ensures
        agent_content(bytes_for_write(path, content, None), limit) == content_for_path(
            path,
            content,
        ),
{
    let text = content_for_path(path, content);
    vstd::utf8::encode_utf8_valid_utf8(text);
    vstd::utf8::encode_utf8_decode_utf8(text);
}

/// What is written to an EasyLanguage source file has CRLF line breaks
/// only, whatever line breaks the given text had.
pub proof fn law_sources_are_written_with_crlf(path: Seq<char>, content: Seq<char>)
    requires
        uses_crlf(path),
    ensures
        is_crlf_text(content_for_path(path, content)),
{
    lemma_normalize_has_no_cr(content);
    lemma_lf_to_crlf_is_crlf(normalize_newlines(content));
}

/// Making line breaks uniform twice is making them uniform once.
pub proof fn law_normalizing_line_breaks_is_idempotent(content: Seq<char>)
    ensures
        normalize_newlines(normalize_newlines(content)) == normalize_newlines(content),
{
    lemma_normalize_has_no_cr(content);
    lemma_normalize_identity(normalize_newlines(content));
}

} // verus!
