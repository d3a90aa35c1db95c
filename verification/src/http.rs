//! The HTTP side of the service: where a request head ends, the request
//! line and headers, query parameters, routing, the response text, and the
//! upload forms (multipart, raw bytes, Base64 in JSON).
use vstd::prelude::*;
use base64::Engine;
use crate::encoding::{utf8_bytes, utf8_lossy, utf8_to_string_lossy};
use vstd::utf8::{decode_utf8, encode_utf8, is_ascii_chars, valid_utf8};
use crate::text::{append_chars, is_blank, append_decimal, contains, contains_str, ends_with, starts_with, starts_with_chars, trim_matches_set, trim_matches_set_chars, is_white_space, is_whitespace, split_text, to_ascii_lowercase, to_ascii_lowercase_chars, trim, trim_chars, trim_start, append_str, decimal, 
    chars_of, find, find_from, index_of_char, index_of_char_from, lemma_find_from,
    lemma_index_of_char, occurs_at, eq_str, chars_eq, split_char, split_char_exec, split_on, string_of, sub_chars,
    views,
};

verus! {

// ---------------------------------------------------------------------------
// Byte patterns
// ---------------------------------------------------------------------------

/// The blank line that ends a request head.
pub open spec fn head_terminator() -> Seq<u8> {
    seq![13u8, 10u8, 13u8, 10u8]
}

/// Whether `n` occurs in `h` at position `i`.
pub fn bytes_occur_at(h: &[u8], n: &[u8], i: usize) -> (res: bool)
    ensures
        res == occurs_at(h@, n@, i as int),
{
    if i > h.len() || n.len() > h.len() - i {
        return false;
    }
    let mut j: usize = 0;
    while j < n.len()
        invariant
            i + n.len() <= h.len(),
            j <= n.len(),
            forall|k: int| 0 <= k < j ==> h@[i + k] == n@[k],
        decreases n.len() - j,
    {
        if h[i + j] != n[j] {
            assert(h@.subrange(i as int, i + n.len())[j as int] == h@[i + j]);
            return false;
        }
        j += 1;
    }
    assert(h@.subrange(i as int, i + n.len()) =~= n@);
    true
}

/// The first position at or after `from` where `n` occurs in `h`.
pub fn find_bytes_from(h: &[u8], n: &[u8], from: usize) -> (res: Option<usize>)
    ensures
        match res {
            Some(k) => find_from(h@, n@, from as int) == Some(k as int),
            None => find_from(h@, n@, from as int) is None,
        },
{
    let mut i: usize = from;
    while i <= h.len() && n.len() <= h.len() - i
        invariant
            from <= i,
            find_from(h@, n@, from as int) == find_from(h@, n@, i as int),
        decreases h.len() + 1 - i,
    {
        if bytes_occur_at(h, n, i) {
            return Some(i);
        }
        if i == h.len() {
            proof {
                if n.len() == 0 {
                    assert(h@.subrange(i as int, i as int) =~= n@);
                }
            }
            return None;
        }
        i += 1;
    }
    None
}

/// Where the head of a request ends: the position of the first
/// `\r\n\r\n`.
pub fn find_header_end(buffer: &[u8]) -> (res: Option<usize>)
    ensures
        match res {
            Some(k) => find(buffer@, head_terminator()) == Some(k as int),
            None => find(buffer@, head_terminator()) is None,
        },
{
    let term: [u8; 4] = [13u8, 10u8, 13u8, 10u8];
    assert(term@ =~= head_terminator());
    find_bytes_from(buffer, term.as_slice(), 0)
}

/// A copy of `s[from..to]`.
pub fn sub_bytes(s: &[u8], from: usize, to: usize) -> (out: Vec<u8>)
    requires
        from <= to <= s.len(),
    ensures
        out@ == s@.subrange(from as int, to as int),
{
    let mut out: Vec<u8> = Vec::new();
    let mut i: usize = from;
    while i < to
        invariant
            from <= i <= to <= s.len(),
            out@ == s@.subrange(from as int, i as int),
        decreases to - i,
    {
        out.push(s[i]);
        assert(s@.subrange(from as int, i as int + 1) == s@.subrange(from as int, i as int).push(
            s@[i as int],
        ));
        i += 1;
    }
    out
}

pub open spec fn byte_views(v: Seq<Vec<u8>>) -> Seq<Seq<u8>> {
    v.map_values(|x: Vec<u8>| x@)
}

/// `data` cut at every occurrence of a nonempty `separator`, from left to
/// right; the last piece is what follows the last occurrence.
pub fn split_bytes(data: &[u8], separator: &[u8]) -> (out: Vec<Vec<u8>>)
    requires
        separator.len() > 0,
    ensures
        byte_views(out@) == split_on(data@, separator@),
{
    let mut out: Vec<Vec<u8>> = Vec::new();
    let mut start: usize = 0;
    assert(data@.skip(0) == data@);
    loop
        invariant
            start <= data.len(),
            separator.len() > 0,
            split_on(data@, separator@) == byte_views(out@) + split_on(
                data@.skip(start as int),
                separator@,
            ),
        decreases data.len() - start,
    {
        let ghost t = data@.skip(start as int);
        let ghost before = out@;
        let rest = sub_bytes(data, start, data.len());
        let found = find_bytes_from(rest.as_slice(), separator, 0);
        proof {
            lemma_find_from(t, separator@, 0);
        }
        match found {
            None => {
                out.push(rest);
                assert(byte_views(out@) =~= byte_views(before).push(t));
                assert(byte_views(before) + seq![t] == byte_views(before).push(t));
                return out;
            },
            Some(k) => {
                let piece = sub_bytes(rest.as_slice(), 0, k);
                out.push(piece);
                assert(byte_views(out@) =~= byte_views(before).push(t.take(k as int)));
                assert(t.skip(k + separator@.len()) =~= data@.skip(
                    start + k + separator@.len(),
                ));
                assert(byte_views(before) + (seq![t.take(k as int)] + split_on(
                    t.skip(k + separator@.len()),
                    separator@,
                )) == byte_views(before).push(t.take(k as int)) + split_on(
                    t.skip(k + separator@.len()),
                    separator@,
                ));
                start = start + k + separator.len();
            },
        }
    }
}

// ---------------------------------------------------------------------------
// Query parameters and routing
// ---------------------------------------------------------------------------

/// The value of the first `key=value` pair whose key is `key`; pairs
/// without `=` are passed over.
pub open spec fn pair_lookup(pairs: Seq<Seq<char>>, key: Seq<char>) -> Option<Seq<char>>
    decreases pairs.len(),
{
    if pairs.len() == 0 {
        None
    } else {
        let p = pairs[0];
        let e = index_of_char(p, '=');
        if e < p.len() && p.take(e) == key {
            Some(p.skip(e + 1))
        } else {
            pair_lookup(pairs.drop_first(), key)
        }
    }
}

/// The value of query parameter `key` in a request path: the text after
/// the first `?` is split at `&`, and each piece at its first `=`.
pub open spec fn query_param(path: Seq<char>, key: Seq<char>) -> Option<Seq<char>> {
    let q = index_of_char(path, '?');
    if q >= path.len() {
        None
    } else {
        pair_lookup(split_char(path.skip(q + 1), '&'), key)
    }
}

pub fn parse_query_param(path: &str, key: &str) -> (res: Option<String>)
    ensures
        match res {
            Some(v) => query_param(path@, key@) == Some(v@),
            None => query_param(path@, key@) is None,
        },
{
    let p = chars_of(path);
    let k = chars_of(key);
    let q = index_of_char_from(p.as_slice(), '?', 0);
    assert(p@.skip(0) == p@);
    proof {
        lemma_index_of_char(p@, '?');
    }
    if q >= p.len() {
        return None;
    }
    let query = sub_chars(p.as_slice(), q + 1, p.len());
    assert(query@ == p@.skip(q + 1));
    let pairs = split_char_exec(query.as_slice(), '&');
    let ghost all = views(pairs@);
    assert(q == index_of_char(p@, '?'));
    assert(all.skip(0) == all);
    let mut i: usize = 0;
    while i < pairs.len()
        invariant
            i <= pairs@.len(),
            all == views(pairs@),
            all == split_char(p@.skip(q + 1), '&'),
            k@ == key@,
            query_param(path@, key@) == pair_lookup(all.skip(i as int), key@),
        decreases pairs.len() - i,
    {
        let pair = &pairs[i];
        let e = index_of_char_from(pair.as_slice(), '=', 0);
        assert(pair@.skip(0) == pair@);
        assert(all.skip(i as int)[0] == pair@);
        assert(all.skip(i as int).drop_first() == all.skip(i + 1));
        if e < pair.len() {
            let name = sub_chars(pair.as_slice(), 0, e);
            if chars_eq(name.as_slice(), k.as_slice()) {
                let value = sub_chars(pair.as_slice(), e + 1, pair.len());
                assert(value@ == pair@.skip(e + 1));
                return Some(string_of(value.as_slice()));
            }
        }
        i += 1;
    }
    None
}

/// What the service does with a request, by method and path (the path
/// without its query).
#[derive(Debug)]
pub enum Route {
    /// `OPTIONS` on any path: an empty `204`.
    Preflight,
    /// `GET /sse`: the event stream.
    EventStream,
    /// `GET /health`.
    Health,
    /// `POST /message`: a JSON-RPC message for an event stream.
    Message,
    /// `POST /upload`: an uploaded `.e` file.
    Upload,
    /// Anything else: `404`.
    NotFound,
}

/// The path of a request without its query string.
pub open spec fn path_part(path: Seq<char>) -> Seq<char> {
    split_char(path, '?')[0]
}

pub open spec fn route_of(method: Seq<char>, path: Seq<char>) -> Route {
    let p = path_part(path);
    if method == "OPTIONS"@ {
        Route::Preflight
    } else if method == "GET"@ && p == "/sse"@ {
        Route::EventStream
    } else if method == "GET"@ && p == "/health"@ {
        Route::Health
    } else if method == "POST"@ && p == "/message"@ {
        Route::Message
    } else if method == "POST"@ && p == "/upload"@ {
        Route::Upload
    } else {
        Route::NotFound
    }
}

pub fn route_request(method: &str, path: &str) -> (r: Route)
    ensures
        r == route_of(method@, path@),
{
    let m = chars_of(method);
    let p = chars_of(path);
    let parts = split_char_exec(p.as_slice(), '?');
    assert(views(parts@)[0] == parts@[0]@);
    let first = parts[0].as_slice();
    if eq_str(m.as_slice(), "OPTIONS") {
        Route::Preflight
    } else if eq_str(m.as_slice(), "GET") && eq_str(first, "/sse") {
        Route::EventStream
    } else if eq_str(m.as_slice(), "GET") && eq_str(first, "/health") {
        Route::Health
    } else if eq_str(m.as_slice(), "POST") && eq_str(first, "/message") {
        Route::Message
    } else if eq_str(m.as_slice(), "POST") && eq_str(first, "/upload") {
        Route::Upload
    } else {
        Route::NotFound
    }
}

// ---------------------------------------------------------------------------
// Responses
// ---------------------------------------------------------------------------

/// The reason phrase written for a status code.
pub open spec fn reason_phrase(status: u16) -> Seq<char> {
    if status == 200 {
        "OK"@
    } else if status == 204 {
        "No Content"@
    } else if status == 400 {
        "Bad Request"@
    } else if status == 404 {
        "Not Found"@
    } else {
        "OK"@
    }
}

/// The header lines that every response carries after its length.
pub open spec fn response_trailer() -> Seq<char> {
    "\r\nAccess-Control-Allow-Origin: *\r\nAccess-Control-Allow-Methods: GET, POST, OPTIONS\r\nAccess-Control-Allow-Headers: Content-Type, X-File-Name\r\nConnection: close\r\n\r\n"@
}

/// The text of a response: status line, content type, the length of the
/// body in bytes, the CORS headers, then the body read as UTF-8 with
/// malformed sequences replaced.
pub open spec fn response_text(status: u16, content_type: Seq<char>, body: Seq<u8>) -> Seq<char> {
    "HTTP/1.1 "@ + decimal(status as nat) + " "@ + reason_phrase(status) + "\r\nContent-Type: "@
        + content_type + "\r\nContent-Length: "@ + decimal(body.len()) + response_trailer()
        + utf8_lossy(body)
}

pub fn http_response(status: u16, content_type: &str, body: &[u8]) -> (out: String)
    ensures
        out@ == response_text(status, content_type@, body@),
{
    let reason = if status == 200 {
        "OK"
    } else if status == 204 {
        "No Content"
    } else if status == 400 {
        "Bad Request"
    } else if status == 404 {
        "Not Found"
    } else {
        "OK"
    };
    let mut out: Vec<char> = Vec::new();
    append_str(&mut out, "HTTP/1.1 ");
    append_decimal(&mut out, status as usize);
    append_str(&mut out, " ");
    append_str(&mut out, reason);
    append_str(&mut out, "\r\nContent-Type: ");
    append_str(&mut out, content_type);
    append_str(&mut out, "\r\nContent-Length: ");
    append_decimal(&mut out, body.len());
    append_str(
        &mut out,
        "\r\nAccess-Control-Allow-Origin: *\r\nAccess-Control-Allow-Methods: GET, POST, OPTIONS\r\nAccess-Control-Allow-Headers: Content-Type, X-File-Name\r\nConnection: close\r\n\r\n",
    );
    let text = utf8_to_string_lossy(body);
    append_str(&mut out, text.as_str());
    string_of(out.as_slice())
}

/// The content type of the service's JSON responses.
pub open spec fn json_content_type() -> Seq<char> {
    "application/json; charset=utf-8"@
}

/// A response with an empty JSON-typed body.
pub fn http_empty(status: u16) -> (out: String)
    ensures
        out@ == response_text(status, json_content_type(), Seq::empty()),
{
    let body: Vec<u8> = Vec::new();
    http_response(status, "application/json; charset=utf-8", body.as_slice())
}

// ---------------------------------------------------------------------------
// The request head
// ---------------------------------------------------------------------------

/// The length of the run of non-whitespace characters that starts `t`.
pub open spec fn word_len(t: Seq<char>) -> nat
    decreases t.len(),
{
    if t.len() == 0 || is_white_space(t[0]) {
        0
    } else {
        1 + word_len(t.drop_first())
    }
}

pub proof fn lemma_word_len(t: Seq<char>)
    ensures
        word_len(t) <= t.len(),
        forall|j: int| 0 <= j < word_len(t) ==> !is_white_space(#[trigger] t[j]),
        word_len(t) < t.len() ==> is_white_space(t[word_len(t) as int]),
    decreases t.len(),
{
    if t.len() > 0 && !is_white_space(t[0]) {
        lemma_word_len(t.drop_first());
        assert forall|j: int| 0 <= j < word_len(t) implies !is_white_space(#[trigger] t[j]) by {
            if j > 0 {
                assert(t[j] == t.drop_first()[j - 1]);
            }
        }
    }
}

/// The first whitespace-separated word of `s`, empty when there is none:
/// `s.split_whitespace().next().unwrap_or_default()`.
pub open spec fn first_word(s: Seq<char>) -> Seq<char> {
    trim_start(s).take(word_len(trim_start(s)) as int)
}

/// What follows the first word of `s`.
pub open spec fn after_first_word(s: Seq<char>) -> Seq<char> {
    trim_start(s).skip(word_len(trim_start(s)) as int)
}

/// The bounds of the first word of `s`.
fn first_word_bounds(s: &[char]) -> (res: (usize, usize))
    ensures
        res.0 <= res.1 <= s.len(),
        first_word(s@) == s@.subrange(res.0 as int, res.1 as int),
        after_first_word(s@) == s@.skip(res.1 as int),
{
    let a = crate::text::trim_start_index(s);
    let ghost t = s@.skip(a as int);
    let mut b: usize = a;
    assert(t.skip(0) == t);
    while b < s.len() && !is_whitespace(s[b])
        invariant
            a <= b <= s.len(),
            t == s@.skip(a as int),
            word_len(t) == (b - a) + word_len(t.skip(b - a)),
        decreases s.len() - b,
    {
        assert(t.skip(b - a)[0] == s@[b as int]);
        assert(t.skip(b - a).drop_first() == t.skip(b - a + 1));
        b += 1;
    }
    assert(t.skip(b - a).len() == 0 || is_white_space(t.skip(b - a)[0]));
    assert(t.take(b - a) == s@.subrange(a as int, b as int));
    assert(t.skip(b - a) == s@.skip(b as int));
    (a, b)
}

/// A header line read as `name: value`: the name before the first `:`,
/// trimmed and in ASCII lower case, and the trimmed value after it.
pub open spec fn header_entry(line: Seq<char>) -> Option<(Seq<char>, Seq<char>)> {
    let k = index_of_char(line, ':');
    if k < line.len() {
        Some((to_ascii_lowercase(trim(line.take(k))), trim(line.skip(k + 1))))
    } else {
        None
    }
}

/// The headers of some header lines, in order; lines without `:` are
/// passed over.
pub open spec fn header_entries(lines: Seq<Seq<char>>) -> Seq<(Seq<char>, Seq<char>)>
    decreases lines.len(),
{
    if lines.len() == 0 {
        seq![]
    } else {
        let rest = header_entries(lines.drop_last());
        match header_entry(lines.last()) {
            Some(e) => rest.push(e),
            None => rest,
        }
    }
}

/// The value of header `name`: the last one, as a map that each header
/// line overwrites.
pub open spec fn header_lookup(entries: Seq<(Seq<char>, Seq<char>)>, name: Seq<char>) -> Option<
    Seq<char>,
>
    decreases entries.len(),
{
    if entries.len() == 0 {
        None
    } else if entries.last().0 == name {
        Some(entries.last().1)
    } else {
        header_lookup(entries.drop_last(), name)
    }
}

pub open spec fn digit_of(c: char) -> nat {
    (c as int - 48) as nat
}

pub open spec fn all_digits(s: Seq<char>) -> bool {
    forall|i: int| 0 <= i < s.len() ==> '0' <= #[trigger] s[i] && s[i] <= '9'
}

/// The number that some decimal digits spell.
pub open spec fn digits_value(s: Seq<char>) -> nat
    decreases s.len(),
{
    if s.len() == 0 {
        0
    } else {
        digits_value(s.drop_last()) * 10 + digit_of(s.last())
    }
}

/// `s.parse::<usize>()`: an optional `+`, then at least one ASCII digit,
/// and a value that fits in `usize`.
pub open spec fn parsed_usize(s: Seq<char>) -> Option<nat> {
    let d = if s.len() > 0 && s[0] == '+' {
        s.drop_first()
    } else {
        s
    };
    if d.len() > 0 && all_digits(d) && digits_value(d) <= usize::MAX {
        Some(digits_value(d))
    } else {
        None
    }
}

pub proof fn lemma_digits_value_prefix(s: Seq<char>, j: int)
    requires
        0 <= j <= s.len(),
    ensures
        digits_value(s.take(j)) <= digits_value(s),
    decreases s.len(),
{
    if j < s.len() {
        assert(s.drop_last().take(j) == s.take(j));
        lemma_digits_value_prefix(s.drop_last(), j);
    } else {
        assert(s.take(j) == s);
    }
}

/// `s.parse::<usize>().ok()`.
pub fn parse_usize(s: &[char]) -> (res: Option<usize>)
    ensures
        match res {
            Some(v) => parsed_usize(s@) == Some(v as nat),
            None => parsed_usize(s@) is None,
        },
{
    let start: usize = if s.len() > 0 && s[0] == '+' {
        1
    } else {
        0
    };
    let ghost d = s@.skip(start as int);
    assert(start == 1 ==> d == s@.drop_first());
    assert(start == 0 ==> d == s@);
    if start == s.len() {
        return None;
    }
    let mut v: usize = 0;
    let mut i: usize = start;
    assert(d.take(0) == Seq::<char>::empty());
    while i < s.len()
        invariant
            start <= i <= s.len(),
            d == s@.skip(start as int),
            d.len() > 0,
            parsed_usize(s@) == (if all_digits(d) && digits_value(d) <= usize::MAX {
                Some(digits_value(d))
            } else {
                None
            }),
            all_digits(d.take(i - start)),
            v == digits_value(d.take(i - start)),
        decreases s.len() - i,
    {
        let c = s[i];
        assert(d[i - start] == c);
        if c < '0' || c > '9' {
            assert(!all_digits(d));
            return None;
        }
        let digit = (c as u32 - 48) as usize;
        assert(d.take(i - start + 1).drop_last() == d.take(i - start));
        assert(digits_value(d.take(i - start + 1)) == v * 10 + digit);
        proof {
            if all_digits(d) {
                lemma_digits_value_prefix(d, i - start + 1);
            }
        }
        let m = match v.checked_mul(10) {
            Some(m) => m,
            None => {
                return None;
            },
        };
        let n = match m.checked_add(digit) {
            Some(n) => n,
            None => {
                return None;
            },
        };
        v = n;
        i += 1;
    }
    assert(d.take(i - start) == d);
    Some(v)
}

/// The request line and the headers of a request head.
#[derive(Debug)]
pub struct RequestHead {
    pub method: String,
    pub path: String,
    /// The headers in order, names in lower case.
    pub headers: Vec<(String, String)>,
    /// `Content-Length` when it is a number, else 0.
    pub content_length: usize,
}

pub open spec fn header_views(v: Seq<(String, String)>) -> Seq<(Seq<char>, Seq<char>)> {
    v.map_values(|e: (String, String)| (e.0@, e.1@))
}

/// The lines of a request head: its bytes read as UTF-8 (malformed
/// sequences replaced) and split at `\r\n`.
pub open spec fn head_lines(head: Seq<u8>) -> Seq<Seq<char>> {
    split_on(utf8_lossy(head), "\r\n"@)
}

pub open spec fn content_length_of(entries: Seq<(Seq<char>, Seq<char>)>) -> nat {
    match header_lookup(entries, "content-length"@) {
        Some(v) => match parsed_usize(v) {
            Some(n) => n,
            None => 0,
        },
        None => 0,
    }
}

/// Reads a request head (the bytes before the blank line): method and path
/// are the first two words of the first line, and every later line with a
/// `:` is a header.
pub fn parse_request_head(head: &[u8]) -> (out: RequestHead)
    ensures
        out.method@ == first_word(head_lines(head@)[0]),
        out.path@ == first_word(after_first_word(head_lines(head@)[0])),
        header_views(out.headers@) == header_entries(head_lines(head@).drop_first()),
        out.content_length == content_length_of(header_entries(head_lines(head@).drop_first())),
{
    let text = utf8_to_string_lossy(head);
    let tc = chars_of(text.as_str());
    let sep = chars_of("\r\n");
    proof {
        reveal_strlit("\r\n");
    }
    let lines = split_text(tc.as_slice(), sep.as_slice());
    let ghost ls = views(lines@);
    proof {
        crate::text::lemma_split_on_len(tc@, sep@);
    }
    assert(ls[0] == lines@[0]@);
    let first = lines[0].as_slice();
    let (a, b) = first_word_bounds(first);
    let word = sub_chars(first, a, b);
    let method = string_of(word.as_slice());
    let rest = sub_chars(first, b, first.len());
    let (c, d) = first_word_bounds(rest.as_slice());
    let word2 = sub_chars(rest.as_slice(), c, d);
    let path = string_of(word2.as_slice());
    let mut headers: Vec<(String, String)> = Vec::new();
    let mut i: usize = 1;
    let mut length: usize = 0;
    assert(ls.drop_first().take(0) == Seq::<Seq<char>>::empty());
    while i < lines.len()
        invariant
            1 <= i <= lines@.len(),
            ls == views(lines@),
            header_views(headers@) == header_entries(ls.drop_first().take(i - 1)),
            length == content_length_of(header_views(headers@)),
        decreases lines.len() - i,
    {
        let line = lines[i].as_slice();
        let k = index_of_char_from(line, ':', 0);
        assert(line@.skip(0) == line@);
        let ghost before = headers@;
        assert(ls.drop_first().take(i as int).drop_last() == ls.drop_first().take(i - 1));
        assert(ls.drop_first().take(i as int).last() == line@);
        if k < line.len() {
            let raw_name = sub_chars(line, 0, k);
            let raw_value = sub_chars(line, k + 1, line.len());
            assert(raw_value@ == line@.skip(k + 1));
            assert(raw_name@ == line@.take(k as int));
            let name = to_ascii_lowercase_chars(trim_chars(raw_name.as_slice()).as_slice());
            let value = trim_chars(raw_value.as_slice());
            let is_length = eq_str(name.as_slice(), "content-length");
            if is_length {
                length = match parse_usize(value.as_slice()) {
                    Some(n) => n,
                    None => 0,
                };
            }
            headers.push((string_of(name.as_slice()), string_of(value.as_slice())));
            assert(header_views(headers@) =~= header_views(before).push((name@, value@)));
            assert(header_views(headers@).drop_last() == header_views(before));
            assert(header_views(headers@).last() == (name@, value@));
        } else {
            assert(header_views(headers@) =~= header_views(before));
        }
        i += 1;
    }
    assert(ls.drop_first().take(i - 1) == ls.drop_first());
    RequestHead { method, path, headers, content_length: length }
}

/// The value of header `name` (lower case) in the headers of a request
/// head: the last line with that name.
pub fn header_value(headers: &Vec<(String, String)>, name: &str) -> (res: Option<String>)
    ensures
        match res {
            Some(v) => header_lookup(header_views(headers@), name@) == Some(v@),
            None => header_lookup(header_views(headers@), name@) is None,
        },
{
    let n = chars_of(name);
    let mut i: usize = headers.len();
    assert(header_views(headers@).take(i as int) == header_views(headers@));
    while i > 0
        invariant
            i <= headers@.len(),
            n@ == name@,
            header_lookup(header_views(headers@), name@) == header_lookup(
                header_views(headers@).take(i as int),
                name@,
            ),
        decreases i,
    {
        let ghost t = header_views(headers@).take(i as int);
        assert(t.last() == (headers@[i - 1].0@, headers@[i - 1].1@));
        let key = chars_of(headers[i - 1].0.as_str());
        if chars_eq(key.as_slice(), n.as_slice()) {
            return Some(headers[i - 1].1.clone());
        }
        assert(t.drop_last() == header_views(headers@).take(i - 1));
        i -= 1;
    }
    None
}

// ---------------------------------------------------------------------------
// Uploads
// ---------------------------------------------------------------------------

/// How an upload request carries its file, by its content type.
#[derive(Debug)]
pub enum UploadKind {
    /// `multipart/form-data`: the first part with a `Content-Disposition`.
    Multipart,
    /// `application/json`: a file name and Base64 content.
    Json,
    /// Anything else: the body is the file, named by `X-File-Name`.
    Raw,
}

pub open spec fn upload_kind_of(content_type: Seq<char>) -> UploadKind {
    if contains(content_type, "multipart/form-data"@) {
        UploadKind::Multipart
    } else if contains(content_type, "application/json"@) {
        UploadKind::Json
    } else {
        UploadKind::Raw
    }
}

pub fn upload_kind(content_type: &str) -> (k: UploadKind)
    ensures
        k == upload_kind_of(content_type@),
{
    let ct = chars_of(content_type);
    if contains_str(ct.as_slice(), "multipart/form-data") {
        UploadKind::Multipart
    } else if contains_str(ct.as_slice(), "application/json") {
        UploadKind::Json
    } else {
        UploadKind::Raw
    }
}

/// The value after `prefix` in the first `;`-separated piece that starts
/// with it once trimmed, with surrounding double quotes removed: how a
/// `boundary=` or `filename=` parameter is read.
pub open spec fn prefixed_field(parts: Seq<Seq<char>>, prefix: Seq<char>) -> Option<Seq<char>>
    decreases parts.len(),
{
    if parts.len() == 0 {
        None
    } else if starts_with(trim(parts[0]), prefix) {
        Some(trim_matches_set(trim(parts[0]).skip(prefix.len() as int), seq!['"']))
    } else {
        prefixed_field(parts.drop_first(), prefix)
    }
}

/// The parameter `prefix` of a header text, read as `prefixed_field` says.
pub fn header_parameter(text: &[char], prefix: &str) -> (res: Option<Vec<char>>)
    ensures
        match res {
            Some(v) => prefixed_field(split_char(text@, ';'), prefix@) == Some(v@),
            None => prefixed_field(split_char(text@, ';'), prefix@) is None,
        },
{
    let parts = split_char_exec(text, ';');
    let ghost all = views(parts@);
    let pre = chars_of(prefix);
    let quote: [char; 1] = ['"'];
    assert(quote@ =~= seq!['"']);
    let mut i: usize = 0;
    assert(all.skip(0) == all);
    while i < parts.len()
        invariant
            i <= parts@.len(),
            all == views(parts@),
            pre@ == prefix@,
            quote@ == seq!['"'],
            prefixed_field(split_char(text@, ';'), prefix@) == prefixed_field(
                all.skip(i as int),
                prefix@,
            ),
        decreases parts.len() - i,
    {
        assert(all.skip(i as int)[0] == parts@[i as int]@);
        assert(all.skip(i as int).drop_first() == all.skip(i + 1));
        let t = trim_chars(parts[i].as_slice());
        if starts_with_chars(t.as_slice(), pre.as_slice()) {
            let after = sub_chars(t.as_slice(), pre.len(), t.len());
            return Some(trim_matches_set_chars(after.as_slice(), quote.as_slice()));
        }
        i += 1;
    }
    None
}

/// `p` without a leading `x`, when it starts with one.
pub open spec fn strip_head(p: Seq<u8>, x: Seq<u8>) -> Seq<u8> {
    if starts_with(p, x) {
        p.skip(x.len() as int)
    } else {
        p
    }
}

/// `p` without a trailing `x`, when it ends with one.
pub open spec fn strip_tail(p: Seq<u8>, x: Seq<u8>) -> Seq<u8> {
    if ends_with(p, x) {
        p.take(p.len() - x.len())
    } else {
        p
    }
}

pub open spec fn crlf() -> Seq<u8> {
    seq![13u8, 10u8]
}

pub open spec fn dashes() -> Seq<u8> {
    seq![45u8, 45u8]
}

/// The file bytes of a multipart part: what follows the blank line, less a
/// leading line break, a trailing line break, then a trailing `--`, then a
/// trailing line break again.
pub open spec fn part_payload(p: Seq<u8>) -> Seq<u8> {
    strip_tail(strip_tail(strip_tail(strip_head(p, crlf()), crlf()), dashes()), crlf())
}

/// The file name in the headers of a part, `upload.e` without one.
pub open spec fn part_file_name(headers: Seq<char>) -> Seq<char> {
    match prefixed_field(split_char(headers, ';'), "filename="@) {
        Some(n) => n,
        None => "upload.e"@,
    }
}

/// Bytes read as text as `String::from_utf8_lossy` reads them: valid UTF-8
/// is decoded, anything else is given by the name `utf8_lossy`.
pub open spec fn lossy_text(b: Seq<u8>) -> Seq<char> {
    if valid_utf8(b) {
        decode_utf8(b)
    } else {
        utf8_lossy(b)
    }
}

/// The file carried by one multipart part: when its head (before a blank
/// line) mentions `Content-Disposition`, the file name and bytes.
pub open spec fn part_file(part: Seq<u8>) -> Option<(Seq<char>, Seq<u8>)> {
    match find(part, head_terminator()) {
        Some(k) => {
            let h = lossy_text(part.take(k));
            if contains(h, "Content-Disposition"@) {
                Some((part_file_name(h), part_payload(part.skip(k + 4))))
            } else {
                None
            }
        },
        None => None,
    }
}

/// The file of the first part that carries one.
pub open spec fn multipart_file(parts: Seq<Seq<u8>>) -> Option<(Seq<char>, Seq<u8>)>
    decreases parts.len(),
{
    if parts.len() == 0 {
        None
    } else {
        match part_file(parts[0]) {
            Some(f) => Some(f),
            None => multipart_file(parts.drop_first()),
        }
    }
}

/// The file of a multipart upload: the body is cut at `--` and the
/// `boundary` of the content type; it fails without a boundary, or without
/// a part that carries a file.
pub open spec fn multipart_upload(content_type: Seq<char>, body: Seq<u8>) -> Result<
    (Seq<char>, Seq<u8>),
    Seq<char>,
> {
    match prefixed_field(split_char(content_type, ';'), "boundary="@) {
        None => Err("multipart 缺少 boundary"@),
        Some(b) => match multipart_file(split_on(body, encode_utf8("--"@ + b))) {
            Some(f) => Ok(f),
            None => Err("multipart 中没有找到文件字段"@),
        },
    }
}

fn strip_tail_exec(p: Vec<u8>, x: &[u8]) -> (out: Vec<u8>)
    ensures
        out@ == strip_tail(p@, x@),
{
    if x.len() <= p.len() && bytes_occur_at(p.as_slice(), x, p.len() - x.len()) {
        assert(p@.subrange(p.len() - x.len(), p.len() as int) == p@.skip(p.len() - x.len()));
        sub_bytes(p.as_slice(), 0, p.len() - x.len())
    } else {
        proof {
            if x@.len() <= p@.len() {
                assert(p@.subrange(p.len() - x.len(), p.len() as int) == p@.skip(
                    p.len() - x.len(),
                ));
            }
        }
        p
    }
}

/// The file bytes of a part, as `part_payload` says.
fn payload_of(p: &[u8]) -> (out: Vec<u8>)
    ensures
        out@ == part_payload(p@),
{
    let nl: [u8; 2] = [13u8, 10u8];
    let dd: [u8; 2] = [45u8, 45u8];
    assert(nl@ =~= crlf());
    assert(dd@ =~= dashes());
    let head = if bytes_occur_at(p, nl.as_slice(), 0) {
        assert(p@.subrange(0, 2) == p@.take(2));
        sub_bytes(p, 2, p.len())
    } else {
        proof {
            if p@.len() >= 2 {
                assert(p@.subrange(0, 2) == p@.take(2));
            }
        }
        sub_bytes(p, 0, p.len())
    };
    assert(head@ == strip_head(p@, crlf()));
    let a = strip_tail_exec(head, nl.as_slice());
    let b = strip_tail_exec(a, dd.as_slice());
    strip_tail_exec(b, nl.as_slice())
}

/// The file carried by one multipart part, as `part_file` says.
fn file_of_part(part: &[u8]) -> (res: Option<(String, Vec<u8>)>)
    ensures
        match res {
            Some((n, b)) => part_file(part@) == Some((n@, b@)),
            None => part_file(part@) is None,
        },
{
    match find_header_end(part) {
        Some(k) => {
            proof {
                lemma_find_from(part@, head_terminator(), 0);
            }
            assert(occurs_at(part@, head_terminator(), k as int));
            assert(k + 4 <= part@.len());
            let head_bytes = sub_bytes(part, 0, k);
            assert(head_bytes@ == part@.take(k as int));
            let head_text = utf8_to_string_lossy(head_bytes.as_slice());
            let h = chars_of(head_text.as_str());
            if contains_str(h.as_slice(), "Content-Disposition") {
                let name = match header_parameter(h.as_slice(), "filename=") {
                    Some(n) => string_of(n.as_slice()),
                    None => "upload.e".to_owned(),
                };
                let plen = part.len();
                let rest = sub_bytes(part, k + 4, plen);
                assert(rest@ == part@.skip(k + 4));
                let payload = payload_of(rest.as_slice());
                Some((name, payload))
            } else {
                None
            }
        },
        None => None,
    }
}

/// The file name and bytes of a multipart upload.
pub fn extract_multipart_file(content_type: &str, body: &[u8]) -> (res: Result<
    (String, Vec<u8>),
    String,
>)
    ensures
        match res {
            Ok((n, b)) => multipart_upload(content_type@, body@) == Ok::<
                (Seq<char>, Seq<u8>),
                Seq<char>,
            >((n@, b@)),
            Err(e) => multipart_upload(content_type@, body@) == Err::<
                (Seq<char>, Seq<u8>),
                Seq<char>,
            >(e@),
        },
{
    let ct = chars_of(content_type);
    let boundary = match header_parameter(ct.as_slice(), "boundary=") {
        Some(b) => b,
        None => {
            return Err("multipart 缺少 boundary".to_owned());
        },
    };
    let mut marker_text: Vec<char> = Vec::new();
    append_str(&mut marker_text, "--");
    append_chars(&mut marker_text, boundary.as_slice());
    let marker_string = string_of(marker_text.as_slice());
    let marker = utf8_bytes(marker_string.as_str());
    proof {
        reveal_strlit("--");
        vstd::utf8::encode_utf8_first_scalar(marker_text@);
    }
    assert(marker@.len() > 0);
    let parts = split_bytes(body, marker.as_slice());
    let ghost all = byte_views(parts@);
    let mut i: usize = 0;
    assert(all.skip(0) == all);
    while i < parts.len()
        invariant
            i <= parts@.len(),
            all == byte_views(parts@),
            multipart_upload(content_type@, body@) == (match multipart_file(all.skip(i as int)) {
                Some(f) => Ok(f),
                None => Err("multipart 中没有找到文件字段"@),
            }),
        decreases parts.len() - i,
    {
        let part = parts[i].as_slice();
        assert(all.skip(i as int)[0] == part@);
        assert(all.skip(i as int).drop_first() == all.skip(i + 1));
        match file_of_part(part) {
            Some(f) => {
                return Ok(f);
            },
            None => {},
        }
        i += 1;
    }
    Err("multipart 中没有找到文件字段".to_owned())
}

/// What `base64`'s standard engine (`+` and `/`, canonical `=` padding)
/// decodes a text to, `None` where it refuses the text.
pub uninterp spec fn base64_standard(text: Seq<char>) -> Option<Seq<u8>>;

/// `base64::engine::general_purpose::STANDARD.decode`: the decoded bytes,
/// given by the name `base64_standard`; on failure the text of the
/// crate's `DecodeError`, which is not stated.
#[verifier::external_body]
fn decode_base64(text: &str) -> (res: Result<Vec<u8>, String>)
    ensures
        match res {
            Ok(b) => base64_standard(text@) == Some(b@),
            Err(_) => base64_standard(text@) is None,
        },
{
    base64::engine::general_purpose::STANDARD.decode(text).map_err(|err| err.to_string())
}

/// The bytes of Base64 upload content; a refusal is reported as
/// `Base64 解码失败: ` and the decoder's message.
pub fn decode_upload_content(content: &str) -> (res: Result<Vec<u8>, String>)
    ensures
        match res {
            Ok(b) => base64_standard(content@) == Some(b@),
            Err(e) => base64_standard(content@) is None && starts_with(
                e@,
                "Base64 解码失败: "@,
            ),
        },
{
    match decode_base64(content) {
        Ok(b) => Ok(b),
        Err(msg) => {
            let mut out: Vec<char> = Vec::new();
            append_str(&mut out, "Base64 解码失败: ");
            let ghost prefix = out@;
            append_str(&mut out, msg.as_str());
            assert(out@.take(prefix.len() as int) == prefix);
            Err(string_of(out.as_slice()))
        },
    }
}

/// The last component of a path, where `/` alone separates components:
/// what follows the last `/` (the whole path without one).
pub open spec fn last_slash_component(path: Seq<char>) -> Seq<char> {
    path.skip(last_index_of(path, '/') + 1)
}

/// A path whose last component every platform reads the same way: no `\`
/// or `:` (so no Windows prefix or drive, and no second separator), not
/// starting with `//` (a Windows UNC prefix), and a last component after
/// the last `/` that is neither empty nor `.` nor `..`.
pub open spec fn portable_path(path: Seq<char>) -> bool {
    let q = last_slash_component(path);
    &&& !path.contains('\\')
    &&& !path.contains(':')
    &&& !starts_with(path, seq!['/', '/'])
    &&& q.len() > 0
    &&& q != seq!['.']
    &&& q != seq!['.', '.']
}

/// `Path::file_name` of a path given as text, as text: the final component
/// of the path, `None` when the path ends in `..` or has no final
/// component. A name it gives is a non-empty piece of the path. Which
/// characters separate components and which prefixes a path may have
/// depend on the platform (on Windows `\` separates too, `C:` and
/// `\\server\share` are prefixes, and after a verbatim prefix `\\?\` a `/`
/// does not separate), so the name is stated exactly only for the paths
/// that every platform reads alike (`portable_path`): there it is what
/// follows the last `/`.
#[verifier::external_body]
fn path_file_name(path: &str) -> (res: Option<String>)
    ensures
        res matches Some(n) ==> n@.len() > 0 && contains(path@, n@),
        portable_path(path@) ==> res is Some && res->Some_0@ == last_slash_component(path@),
{
    std::path::Path::new(path).file_name().and_then(|name| name.to_str()).map(|name| name.to_string())
}

/// A `Result` of strings taken by its views.
pub open spec fn result_view(r: Result<String, String>) -> Result<Seq<char>, Seq<char>> {
    match r {
        Ok(n) => Ok(n@),
        Err(e) => Err(e@),
    }
}

/// The control characters (general category `Cc`), which
/// `char::is_control` recognises.
pub open spec fn is_control_char(c: char) -> bool {
    (c as u32) <= 0x1F || (0x7F <= (c as u32) && (c as u32) <= 0x9F)
}

/// The characters that cannot stand in a file name on Windows.
pub open spec fn reserved_name_chars() -> Seq<char> {
    seq!['<', '>', ':', '"', '/', '\\', '|', '?', '*']
}

/// A character of an uploaded file name as it is saved: reserved and
/// control characters become `_`.
pub open spec fn safe_name_char(c: char) -> char {
    if reserved_name_chars().contains(c) || is_control_char(c) {
        '_'
    } else {
        c
    }
}

pub open spec fn sanitized_name(name: Seq<char>) -> Seq<char> {
    name.map_values(|c: char| safe_name_char(c))
}

/// The position of the last `c` in `s`, or -1.
pub open spec fn last_index_of(s: Seq<char>, c: char) -> int
    decreases s.len(),
{
    if s.len() == 0 {
        -1
    } else if s.last() == c {
        s.len() - 1
    } else {
        last_index_of(s.drop_last(), c)
    }
}

/// Whether a file name (without separators) has the extension `e` in
/// either case, as `Path::extension` finds it: the text after the last
/// dot, where a dot that starts the name does not count.
pub open spec fn has_e_extension(name: Seq<char>) -> bool {
    let k = last_index_of(name, '.');
    k > 0 && (name.skip(k + 1) == seq!['e'] || name.skip(k + 1) == seq!['E'])
}

/// The name under which an upload is saved, from the last component of
/// the name it came with (`upload.e` without one): reserved and control
/// characters replaced, and refused when nothing but whitespace is left.
pub open spec fn sanitized_upload(base: Option<Seq<char>>) -> Result<Seq<char>, Seq<char>> {
    let name = sanitized_name(
        match base {
            Some(b) => b,
            None => "upload.e"@,
        },
    );
    if trim(name).len() == 0 {
        Err("文件名不能为空"@)
    } else {
        Ok(name)
    }
}

/// The sanitized name of an upload, which must also have the extension
/// `.e`.
pub open spec fn upload_name(base: Option<Seq<char>>) -> Result<Seq<char>, Seq<char>> {
    match sanitized_upload(base) {
        Err(e) => Err(e),
        Ok(name) => if has_e_extension(name) {
            Ok(name)
        } else {
            Err("只允许上传 .e 文件"@)
        },
    }
}

pub open spec fn opt_str_view(base: Option<&str>) -> Option<Seq<char>> {
    match base {
        Some(b) => Some(b@),
        None => None,
    }
}

/// The sanitized name from the last component of an upload's name. A
/// name it gives has no reserved or control character, so it cannot
/// leave the upload directory.
pub fn sanitize_base_name(base: Option<&str>) -> (res: Result<String, String>)
    ensures
        match res {
            Ok(n) => sanitized_upload(opt_str_view(base)) == Ok::<Seq<char>, Seq<char>>(n@),
            Err(e) => sanitized_upload(opt_str_view(base)) == Err::<Seq<char>, Seq<char>>(e@),
        },
        res matches Ok(n) ==> forall|i: int|
            0 <= i < n@.len() ==> !reserved_name_chars().contains(#[trigger] n@[i])
                && !is_control_char(n@[i]),
{
    let raw = match base {
        Some(b) => chars_of(b),
        None => chars_of("upload.e"),
    };
    let mut name: Vec<char> = Vec::new();
    let mut i: usize = 0;
    while i < raw.len()
        invariant
            i <= raw@.len(),
            name@ == sanitized_name(raw@.take(i as int)),
        decreases raw.len() - i,
    {
        let c = raw[i];
        let u = c as u32;
        let bad = c == '<' || c == '>' || c == ':' || c == '"' || c == '/' || c == '\\' || c == '|'
            || c == '?' || c == '*' || u <= 0x1F || (0x7F <= u && u <= 0x9F);
        assert(bad == (reserved_name_chars().contains(c) || is_control_char(c))) by {
            if reserved_name_chars().contains(c) {
                let j = choose|j: int| 0 <= j < 9 && reserved_name_chars()[j] == c;
                assert(0 <= j < 9);
            }
            if c == '<' { assert(reserved_name_chars()[0] == c); }
            if c == '>' { assert(reserved_name_chars()[1] == c); }
            if c == ':' { assert(reserved_name_chars()[2] == c); }
            if c == '"' { assert(reserved_name_chars()[3] == c); }
            if c == '/' { assert(reserved_name_chars()[4] == c); }
            if c == '\\' { assert(reserved_name_chars()[5] == c); }
            if c == '|' { assert(reserved_name_chars()[6] == c); }
            if c == '?' { assert(reserved_name_chars()[7] == c); }
            if c == '*' { assert(reserved_name_chars()[8] == c); }
        }
        name.push(if bad { '_' } else { c });
        assert(sanitized_name(raw@.take(i as int + 1)) =~= sanitized_name(raw@.take(i as int)).push(
            safe_name_char(c),
        ));
        i += 1;
    }
    assert(raw@.take(raw@.len() as int) == raw@);
    proof {
        assert forall|j: int| 0 <= j < name@.len() implies !reserved_name_chars().contains(
            #[trigger] name@[j],
        ) && !is_control_char(name@[j]) by {
            assert(name@[j] == safe_name_char(raw@[j]));
            if reserved_name_chars().contains(name@[j]) {
                let t = choose|t: int| 0 <= t < 9 && reserved_name_chars()[t] == name@[j];
                assert(0 <= t < 9);
            }
        }
    }
    if is_blank(name.as_slice()) {
        return Err("文件名不能为空".to_owned());
    }
    Ok(string_of(name.as_slice()))
}

/// The sanitized name of an upload from the name it came with: its last
/// path component, as the platform reads it, goes through
/// `sanitized_upload` (`upload.e` when there is none). For a name that
/// every platform reads alike, that component is what follows its last
/// `/`.
pub fn sanitize_upload_name(file_name: &str) -> (res: Result<String, String>)
    ensures
        exists|base: Option<Seq<char>>|
            #![trigger sanitized_upload(base)]
            {
                &&& (base matches Some(b) ==> b.len() > 0 && contains(file_name@, b))
                &&& result_view(res) == sanitized_upload(base)
            },
        portable_path(file_name@) ==> result_view(res) == sanitized_upload(
            Some(last_slash_component(file_name@)),
        ),
        res matches Ok(n) ==> forall|i: int|
            0 <= i < n@.len() ==> !reserved_name_chars().contains(#[trigger] n@[i])
                && !is_control_char(n@[i]),
{
    let base = path_file_name(file_name);
    let res = match &base {
        Some(b) => sanitize_base_name(Some(b.as_str())),
        None => sanitize_base_name(None),
    };
    let ghost witness: Option<Seq<char>> = match base {
        Some(b) => Some(b@),
        None => None,
    };
    assert(result_view(res) == sanitized_upload(witness));
    res
}

/// Whether a file name (without separators) has the extension `.e`, in
/// either case.
pub fn is_e_file_name(name: &str) -> (res: bool)
    ensures
        res == has_e_extension(name@),
{
    let n = chars_of(name);
    let mut k: usize = n.len();
    let ghost s = n@;
    assert(s.take(k as int) == s);
    while k > 0 && n[k - 1] != '.'
        invariant
            k <= s.len(),
            s == n@,
            last_index_of(s, '.') == last_index_of(s.take(k as int), '.'),
        decreases k,
    {
        assert(s.take(k as int).drop_last() == s.take(k - 1));
        k -= 1;
    }
    let ok = if k >= 2 && k == n.len() - 1 {
        n[k] == 'e' || n[k] == 'E'
    } else {
        false
    };
    proof {
        if k > 0 {
            assert(s.take(k as int).last() == '.');
            assert(last_index_of(s, '.') == k - 1);
            let sk = s.skip(k as int);
            if k == s.len() - 1 {
                assert(sk =~= seq![s[k as int]]);
            }
            if sk == seq!['e'] || sk == seq!['E'] {
                assert(sk.len() == 1);
                assert(sk[0] == s[k as int]);
            }
        } else {
            assert(last_index_of(s.take(0), '.') == -1);
        }
    }
    ok
}

/// The name under which an upload is saved: sanitized, and refused unless
/// it is a `.e` file. For a name that every platform reads alike, the
/// name checked is what follows its last `/`.
pub fn checked_upload_name(file_name: &str) -> (res: Result<String, String>)
    ensures
        exists|base: Option<Seq<char>>|
            #![trigger upload_name(base)]
            {
                &&& (base matches Some(b) ==> b.len() > 0 && contains(file_name@, b))
                &&& result_view(res) == upload_name(base)
            },
        portable_path(file_name@) ==> result_view(res) == upload_name(
            Some(last_slash_component(file_name@)),
        ),
        res matches Ok(n) ==> forall|i: int|
            0 <= i < n@.len() ==> !reserved_name_chars().contains(#[trigger] n@[i])
                && !is_control_char(n@[i]),
{
    let r = sanitize_upload_name(file_name);
    let ghost base = choose|base: Option<Seq<char>>|
        #![trigger sanitized_upload(base)]
        {
            &&& (base matches Some(b) ==> b.len() > 0 && contains(file_name@, b))
            &&& result_view(r) == sanitized_upload(base)
        };
    let ghost portable_base = Some(last_slash_component(file_name@));
    match r {
        Err(e) => {
            assert(upload_name(base) == Err::<Seq<char>, Seq<char>>(e@));
            assert(portable_path(file_name@) ==> upload_name(portable_base) == Err::<
                Seq<char>,
                Seq<char>,
            >(e@));
            Err(e)
        },
        Ok(name) => {
            if is_e_file_name(name.as_str()) {
                assert(upload_name(base) == Ok::<Seq<char>, Seq<char>>(name@));
                assert(portable_path(file_name@) ==> upload_name(portable_base) == Ok::<
                    Seq<char>,
                    Seq<char>,
                >(name@));
                Ok(name)
            } else {
                assert(upload_name(base) == Err::<Seq<char>, Seq<char>>("只允许上传 .e 文件"@));
                assert(portable_path(file_name@) ==> upload_name(portable_base) == Err::<
                    Seq<char>,
                    Seq<char>,
                >("只允许上传 .e 文件"@));
                Err("只允许上传 .e 文件".to_owned())
            }
        },
    }
}

// ---------------------------------------------------------------------------
// A multipart body read back
// ---------------------------------------------------------------------------

/// A multipart body with one file part: the boundary line, the part's
/// header line, a blank line, the file's bytes, and the closing boundary.
pub open spec fn multipart_body(boundary: Seq<char>, head: Seq<char>, data: Seq<u8>) -> Seq<u8> {
    let sep = encode_utf8("--"@ + boundary);
    sep + (encode_utf8(seq!['\r', '\n'] + head) + crlf() + crlf() + data + crlf()) + (sep + dashes()
        + crlf())
}

proof fn lemma_find_first<T>(h: Seq<T>, n: Seq<T>, q: int)
    requires
        occurs_at(h, n, q),
        forall|j: int| 0 <= j < q ==> !occurs_at(h, n, j),
    ensures
        find(h, n) == Some(q),
{
    lemma_find_from(h, n, 0);
    match find(h, n) {
        Some(k) => {
            if k < q {
                assert(occurs_at(h, n, k));
            }
            if k > q {
                assert(!occurs_at(h, n, q));
            }
        },
        None => {
            assert(!occurs_at(h, n, q));
        },
    }
}

/// An ASCII character other than `c` has a byte other than `c`'s.
proof fn lemma_ascii_byte(x: char, c: char)
    requires
        (x as u32) < 0x80,
        (c as u32) < 0x80,
        x != c,
    ensures
        (x as u8) != (c as u8),
{
    vstd::utf8::char_u32_cast(x, x as u32);
    vstd::utf8::char_u32_cast(c, c as u32);
}

proof fn lemma_trim_crlf(z: Seq<char>)
    ensures
        trim(seq!['\r', '\n'] + z) == trim(z),
{
    let y = seq!['\r', '\n'] + z;
    let y1 = seq!['\n'] + z;
    assert(y.drop_first() =~= y1);
    assert(y1.drop_first() =~= z);
    assert(y[0] == '\r');
    assert(y1[0] == '\n');
    assert(is_white_space(y[0]));
    assert(is_white_space(y1[0]));
    assert(trim_start(y1) == trim_start(z));
    assert(trim_start(y) == trim_start(y1));
}

/// A line break in front of a header does not change its parameters.
proof fn lemma_crlf_prefixed_field(x: Seq<char>, prefix: Seq<char>)
    ensures
        prefixed_field(split_char(seq!['\r', '\n'] + x, ';'), prefix) == prefixed_field(
            split_char(x, ';'),
            prefix,
        ),
{
    let y = seq!['\r', '\n'] + x;
    let y1 = seq!['\n'] + x;
    let k = index_of_char(x, ';');
    lemma_index_of_char(x, ';');
    assert(y.drop_first() =~= y1);
    assert(y1.drop_first() =~= x);
    assert(y[0] == '\r');
    assert(y1[0] == '\n');
    assert(index_of_char(y1, ';') == k + 1);
    assert(index_of_char(y, ';') == k + 2);
    let py = split_char(y, ';');
    let px = split_char(x, ';');
    if k >= x.len() {
        assert(py == seq![y]);
        assert(px == seq![x]);
        lemma_trim_crlf(x);
        assert(py.drop_first() =~= px.drop_first());
    } else {
        assert(y.take(k + 2) =~= seq!['\r', '\n'] + x.take(k));
        assert(y.skip(k + 3) =~= x.skip(k + 1));
        assert(py == seq![y.take(k + 2)] + split_char(y.skip(k + 3), ';'));
        assert(px == seq![x.take(k)] + split_char(x.skip(k + 1), ';'));
        lemma_trim_crlf(x.take(k));
        assert(py.drop_first() =~= px.drop_first());
    }
    assert(trim(py[0]) == trim(px[0]));
}

/// The bytes of a boundary line: two dashes, then no carriage return.
proof fn lemma_separator_bytes(boundary: Seq<char>)
    requires
        is_ascii_chars(boundary),
        !boundary.contains('\r'),
    ensures
        ({
            let sep = encode_utf8("--"@ + boundary);
            &&& sep.len() == boundary.len() + 2
            &&& sep[0] == 45u8
            &&& sep[1] == 45u8
            &&& forall|i: int| 2 <= i < sep.len() ==> #[trigger] sep[i] != 13u8
        }),
{
    reveal_strlit("--");
    let c2 = "--"@ + boundary;
    let sep = encode_utf8(c2);
    assert(c2[0] == '-' && c2[1] == '-');
    assert(is_ascii_chars(c2)) by {
        assert forall|i: int| 0 <= i < c2.len() implies '\0' <= #[trigger] c2[i] <= '\u{7f}' by {
            if i >= 2 {
                assert(c2[i] == boundary[i - 2]);
            }
        }
    }
    vstd::utf8::is_ascii_chars_encode_utf8(c2);
    assert(sep[0] == c2[0] as u8);
    assert(sep[1] == c2[1] as u8);
    assert forall|i: int| 2 <= i < sep.len() implies #[trigger] sep[i] != 13u8 by {
        assert(sep[i] == c2[i] as u8);
        assert(c2[i] == boundary[i - 2]);
        if boundary[i - 2] == '\r' {
            assert(boundary.contains('\r'));
        }
        lemma_ascii_byte(boundary[i - 2], '\r');
    }
}

/// The bytes of a header line after a line break: the line break, then
/// bytes that are neither line breaks nor two dashes in a row; they read
/// back as the line.
proof fn lemma_header_bytes(head: Seq<char>)
    requires
        is_ascii_chars(head),
        !head.contains('\r'),
        !head.contains('\n'),
        !contains(head, "--"@),
    ensures
        ({
            let hb = encode_utf8(seq!['\r', '\n'] + head);
            &&& hb.len() == head.len() + 2
            &&& hb[0] == 13u8
            &&& hb[1] == 10u8
            &&& forall|i: int| 2 <= i < hb.len() ==> #[trigger] hb[i] != 13u8 && hb[i] != 10u8
            &&& forall|i: int|
                2 <= i && i + 1 < hb.len() ==> !(#[trigger] hb[i] == 45u8 && hb[i + 1] == 45u8)
            &&& lossy_text(hb) == seq!['\r', '\n'] + head
        }),
{
    reveal_strlit("--");
    let hc = seq!['\r', '\n'] + head;
    assert(is_ascii_chars(hc)) by {
        assert forall|i: int| 0 <= i < hc.len() implies '\0' <= #[trigger] hc[i] <= '\u{7f}' by {
            if i >= 2 {
                assert(hc[i] == head[i - 2]);
            }
        }
    }
    vstd::utf8::is_ascii_chars_encode_utf8(hc);
    let hb = encode_utf8(hc);
    vstd::utf8::encode_utf8_valid_utf8(hc);
    vstd::utf8::encode_utf8_decode_utf8(hc);
    assert(hb[0] == hc[0] as u8);
    assert(hb[1] == hc[1] as u8);
    assert forall|i: int| 2 <= i < hb.len() implies #[trigger] hb[i] != 13u8 && hb[i] != 10u8 by {
        assert(hb[i] == hc[i] as u8);
        assert(hc[i] == head[i - 2]);
        if head[i - 2] == '\r' {
            assert(head.contains('\r'));
        }
        if head[i - 2] == '\n' {
            assert(head.contains('\n'));
        }
        lemma_ascii_byte(head[i - 2], '\r');
        lemma_ascii_byte(head[i - 2], '\n');
    }
    assert forall|i: int| 2 <= i && i + 1 < hb.len() implies !(#[trigger] hb[i] == 45u8 && hb[i + 1]
        == 45u8) by {
        assert(hb[i] == hc[i] as u8);
        assert(hb[i + 1] == hc[i + 1] as u8);
        assert(hc[i] == head[i - 2]);
        assert(hc[i + 1] == head[i - 1]);
        if head[i - 2] != '-' {
            lemma_ascii_byte(head[i - 2], '-');
        }
        if head[i - 1] != '-' {
            lemma_ascii_byte(head[i - 1], '-');
        }
        if head[i - 2] == '-' && head[i - 1] == '-' {
            assert(head.subrange(i - 2, i) =~= "--"@);
            assert(occurs_at(head, "--"@, i - 2));
        }
    }
}

/// In the rest of a body after its opening boundary, the closing boundary
/// is the first one, when no boundary starts in the file's bytes or the
/// line break after them.
#[verifier::rlimit(40)]
proof fn lemma_closing_boundary_first(hb: Seq<u8>, data: Seq<u8>, sep: Seq<u8>)
    requires
        hb.len() >= 2,
        hb[0] == 13u8,
        hb[1] == 10u8,
        forall|i: int| 2 <= i < hb.len() ==> #[trigger] hb[i] != 13u8 && hb[i] != 10u8,
        forall|i: int| 2 <= i && i + 1 < hb.len() ==> !(#[trigger] hb[i] == 45u8 && hb[i + 1] == 45u8),
        sep.len() >= 2,
        sep[0] == 45u8,
        sep[1] == 45u8,
        forall|j: int| 0 <= j < data.len() + 2 ==> !occurs_at(data + crlf() + sep, sep, j),
    ensures
        find(
            hb + crlf() + crlf() + data + crlf() + (sep + dashes() + crlf()),
            sep,
        ) == Some(hb.len() + 4int + data.len() + 2int),
{
    let a = hb + crlf() + crlf() + data + crlf();
    let r = a + (sep + dashes() + crlf());
    let d = data + crlf() + sep;
    let off: int = hb.len() + 4int;
    let e: int = off + data.len();
    let q: int = e + 2;
    let sl: int = sep.len() as int;
    assert(r.subrange(q, q + sl) =~= sep);
    assert forall|j: int| 0 <= j < q implies !occurs_at(r, sep, j) by {
        if occurs_at(r, sep, j) {
            if j < off {
                assert(r.subrange(j, j + sl)[0] == sep[0]);
                assert(r.subrange(j, j + sl)[1] == sep[1]);
                assert(r[j] == 45u8);
                assert(r[j + 1] == 45u8);
                if j < hb.len() {
                    assert(r[j] == hb[j]);
                    if j + 1 < hb.len() {
                        assert(r[j + 1] == hb[j + 1]);
                    } else {
                        assert(r[j + 1] == 13u8);
                    }
                } else {
                    assert(r[j] == 13u8 || r[j] == 10u8);
                }
            } else {
                assert(d.subrange(j - off, j - off + sl) =~= r.subrange(j, j + sl));
                assert(occurs_at(d, sep, j - off));
            }
        }
    }
    lemma_find_first(r, sep, q);
}

/// Every boundary line starts with two dashes.
proof fn lemma_separator_start(boundary: Seq<char>)
    ensures
        ({
            let sep = encode_utf8("--"@ + boundary);
            &&& sep.len() >= 2
            &&& sep[0] == 45u8
            &&& sep[1] == 45u8
        }),
{
    reveal_strlit("--");
    let c2 = "--"@ + boundary;
    let dash = seq!['-'];
    assert(is_ascii_chars(dash));
    vstd::utf8::is_ascii_chars_encode_utf8(dash);
    assert(dash.drop_first() =~= Seq::<char>::empty());
    assert(encode_utf8(dash) == vstd::utf8::encode_scalar('-' as u32) + encode_utf8(
        dash.drop_first(),
    ));
    assert(vstd::utf8::encode_scalar('-' as u32) =~= seq![45u8]);
    assert(c2[0] == '-');
    assert(c2.drop_first()[0] == '-');
    assert(c2.drop_first().drop_first() =~= boundary);
    let sep = encode_utf8(c2);
    assert(sep == seq![45u8] + encode_utf8(c2.drop_first()));
    assert(encode_utf8(c2.drop_first()) == seq![45u8] + encode_utf8(boundary));
}

/// The file part of such a body: its head ends at the first blank line,
/// it names the file, and it carries exactly the bytes.
#[verifier::rlimit(40)]
proof fn lemma_file_part(head: Seq<char>, name: Seq<char>, data: Seq<u8>)
    requires
        is_ascii_chars(head),
        head.len() > 0,
        !head.contains('\r'),
        !head.contains('\n'),
        !contains(head, "--"@),
        contains(head, "Content-Disposition"@),
        prefixed_field(split_char(head, ';'), "filename="@) == Some(name),
        data.len() > 0,
        !starts_with(data, crlf()),
        !ends_with(data, crlf()),
        !ends_with(data, dashes()),
    ensures
        part_file(encode_utf8(seq!['\r', '\n'] + head) + crlf() + crlf() + data + crlf()) == Some(
            (name, data),
        ),
{
    lemma_header_bytes(head);
    let hc = seq!['\r', '\n'] + head;
    let hb = encode_utf8(hc);
    let a = hb + crlf() + crlf() + data + crlf();
    assert(a.subrange(hb.len() as int, hb.len() + 4int) =~= head_terminator());
    assert forall|j: int| 0 <= j < hb.len() implies !occurs_at(a, head_terminator(), j) by {
        if occurs_at(a, head_terminator(), j) {
            assert(a.subrange(j, j + 4)[0] == 13u8);
            assert(a.subrange(j, j + 4)[1] == 10u8);
            assert(a.subrange(j, j + 4)[2] == 13u8);
            assert(a[j] == 13u8);
            assert(a[j + 1] == 10u8);
            assert(a[j + 2] == 13u8);
            if j == 0 {
                assert(a[2] == hb[2]);
            } else if j == 1 {
                assert(a[1] == hb[1]);
            } else {
                assert(a[j] == hb[j]);
            }
        }
    }
    lemma_find_first(a, head_terminator(), hb.len() as int);
    assert(a.take(hb.len() as int) =~= hb);
    assert(contains(hc, "Content-Disposition"@)) by {
        let w = choose|w: int| occurs_at(head, "Content-Disposition"@, w);
        assert(hc.subrange(w + 2, w + 2 + "Content-Disposition"@.len()) =~= head.subrange(
            w,
            w + "Content-Disposition"@.len(),
        ));
        assert(occurs_at(hc, "Content-Disposition"@, w + 2));
    }
    lemma_crlf_prefixed_field(head, "filename="@);
    assert(part_file_name(hc) == name);
    let rest = a.skip(hb.len() + 4int);
    assert(rest =~= data + crlf());
    assert(!starts_with(rest, crlf())) by {
        if data.len() >= 2 {
            assert(rest.take(2) =~= data.take(2));
        } else {
            assert(rest.take(2)[1] == 13u8);
        }
    }
    assert(ends_with(rest, crlf())) by {
        assert(rest.skip(rest.len() - 2) =~= crlf());
    }
    assert(rest.take(rest.len() - 2) =~= data);
    assert(part_payload(rest) == data);
}

/// A well-formed multipart body with one file part gives back the file
/// name of its header and exactly its bytes, for any boundary: when the
/// header is one ASCII line without `--` that names a `Content-Disposition`
/// and a `filename=`, the bytes are non-empty, do not start with a line
/// break and end neither with a line break nor with `--`, and no boundary
/// line starts in the bytes or the line break after them (the closing one
/// is the first).
pub proof fn law_multipart_body_gives_back_its_file_for_any_boundary(
    content_type: Seq<char>,
    boundary: Seq<char>,
    head: Seq<char>,
    name: Seq<char>,
    data: Seq<u8>,
)
    requires
        prefixed_field(split_char(content_type, ';'), "boundary="@) == Some(boundary),
        is_ascii_chars(head),
        head.len() > 0,
        !head.contains('\r'),
        !head.contains('\n'),
        !contains(head, "--"@),
        contains(head, "Content-Disposition"@),
        prefixed_field(split_char(head, ';'), "filename="@) == Some(name),
        data.len() > 0,
        !starts_with(data, crlf()),
        !ends_with(data, crlf()),
        !ends_with(data, dashes()),
        forall|j: int|
            0 <= j < data.len() + 2 ==> !occurs_at(
                data + crlf() + encode_utf8("--"@ + boundary),
                encode_utf8("--"@ + boundary),
                j,
            ),
    ensures
        multipart_upload(content_type, multipart_body(boundary, head, data)) == Ok::<
            (Seq<char>, Seq<u8>),
            Seq<char>,
        >((name, data)),
{
    let sep = encode_utf8("--"@ + boundary);
    let hb = encode_utf8(seq!['\r', '\n'] + head);
    lemma_separator_start(boundary);
    lemma_header_bytes(head);
    lemma_closing_boundary_first(hb, data, sep);
    lemma_file_part(head, name, data);
    let a = hb + crlf() + crlf() + data + crlf();
    let r = a + (sep + dashes() + crlf());
    let q: int = hb.len() + 4int + data.len() + 2int;
    let body = multipart_body(boundary, head, data);
    assert(body =~= sep + r);
    assert(body.subrange(0, sep.len() as int) =~= sep);
    lemma_find_first(body, sep, 0);
    assert(body.take(0) =~= Seq::<u8>::empty());
    assert(body.skip(sep.len() as int) =~= r);
    assert(r.take(q) =~= a);
    let parts = split_on(body, sep);
    assert(parts == seq![body.take(0)] + split_on(r, sep));
    assert(split_on(r, sep) == seq![a] + split_on(r.skip(q + sep.len()), sep));
    assert(parts[0] == Seq::<u8>::empty());
    assert(find(Seq::<u8>::empty(), head_terminator()) is None);
    assert(part_file(parts[0]) is None);
    assert(part_file(a) == Some((name, data)));
    let tail = parts.drop_first();
    assert(tail.len() > 0 && tail[0] == a);
    assert(multipart_file(tail) == Some((name, data)));
    assert(multipart_file(parts) == multipart_file(tail));
}

/// The same for the usual boundaries: an ASCII boundary without a carriage
/// return, and file bytes that do not hold the boundary line.
pub proof fn law_multipart_body_gives_back_its_file(
    content_type: Seq<char>,
    boundary: Seq<char>,
    head: Seq<char>,
    name: Seq<char>,
    data: Seq<u8>,
)
    requires
        prefixed_field(split_char(content_type, ';'), "boundary="@) == Some(boundary),
        is_ascii_chars(boundary),
        !boundary.contains('\r'),
        is_ascii_chars(head),
        head.len() > 0,
        !head.contains('\r'),
        !head.contains('\n'),
        !contains(head, "--"@),
        contains(head, "Content-Disposition"@),
        prefixed_field(split_char(head, ';'), "filename="@) == Some(name),
        data.len() > 0,
        !contains(data, encode_utf8("--"@ + boundary)),
        !starts_with(data, crlf()),
        !ends_with(data, crlf()),
        !ends_with(data, dashes()),
    ensures
        multipart_upload(content_type, multipart_body(boundary, head, data)) == Ok::<
            (Seq<char>, Seq<u8>),
            Seq<char>,
        >((name, data)),
{
    let sep = encode_utf8("--"@ + boundary);
    lemma_separator_bytes(boundary);
    let d = data + crlf() + sep;
    let sl: int = sep.len() as int;
    let n: int = data.len() as int;
    assert forall|j: int| 0 <= j < n + 2 implies !occurs_at(d, sep, j) by {
        if occurs_at(d, sep, j) {
            assert(d.subrange(j, j + sl)[0] == sep[0]);
            assert(d[j] == 45u8);
            if j + sl <= n {
                assert(data.subrange(j, j + sl) =~= d.subrange(j, j + sl));
                assert(occurs_at(data, sep, j));
            } else if j < n {
                let i = n - j;
                assert(d.subrange(j, j + sl)[i] == sep[i]);
                assert(d[n] == 13u8);
            } else {
                assert(d[j] == 13u8 || d[j] == 10u8);
            }
        }
    }
    law_multipart_body_gives_back_its_file_for_any_boundary(content_type, boundary, head, name, data);
}

} // verus!
