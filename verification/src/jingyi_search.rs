//! The text side of the search in the 精易 module knowledge base: the
//! catalogue items built from the raw knowledge, query tokens, the
//! capability aliases by which items are found, and the grouping of items
//! into API families. Scores are floating point and stay outside.
use vstd::prelude::*;
use crate::encoding::{to_lowercase, unicode_lowercase};
use crate::text::{
    append_chars, append_str, chars_eq, chars_of, contains, contains_item, contains_str,
    ends_with, eq_str, index_of_char, index_of_char_from, is_blank, join, join_chars,
    lemma_index_of_char, split_char, split_char_exec, starts_with, starts_with_str, str_views,
    string_of, sub_chars, to_char_vecs, to_strings, trim, trim_chars, utf8_len_clamped, views,
    is_white_space, trim_start, trim_end,
};

verus! {

/// A parameter as the knowledge base lists it.
#[derive(Debug, Clone)]
pub struct RawParam {
    pub name: String,
    pub param_type: String,
}

/// An item as the knowledge base lists it.
#[derive(Debug, Clone)]
pub struct RawItem {
    pub name: String,
    pub category: String,
    pub class_name: String,
    pub return_type: String,
    pub params: Vec<RawParam>,
    pub description: String,
}

#[derive(Debug, Clone)]
pub struct JingyiParam {
    pub name: String,
    pub param_type: String,
}

#[derive(Debug, Clone)]
pub struct JingyiItem {
    pub name: String,
    pub category: String,
    pub class_name: String,
    pub return_type: String,
    pub signature: String,
    pub description: String,
    pub params: Vec<JingyiParam>,
}

#[derive(Debug, Clone)]
pub struct JingyiRoute {
    pub family: String,
    pub route_type: String,
    pub summary: String,
    pub evidence: Vec<String>,
    pub count: usize,
    pub primary_options: Vec<JingyiItem>,
    pub supporting_options: Vec<JingyiItem>,
    pub options: Vec<JingyiItem>,
}

// ---------------------------------------------------------------------------
// Parameters and signatures
// ---------------------------------------------------------------------------

pub open spec fn is_ascii_alnum(c: char) -> bool {
    ('0' <= c && c <= '9') || ('a' <= c && c <= 'z') || ('A' <= c && c <= 'Z')
}

fn is_ascii_alnum_exec(c: char) -> (res: bool)
    ensures
        res == is_ascii_alnum(c),
{
    ('0' <= c && c <= '9') || ('a' <= c && c <= 'z') || ('A' <= c && c <= 'Z')
}

/// A name made only of ASCII letters, digits and `_` (also the empty name).
pub open spec fn is_plain_identifier(name: Seq<char>) -> bool {
    forall|i: int| 0 <= i < name.len() ==> is_ascii_alnum(#[trigger] name[i]) || name[i] == '_'
}

/// Internal parameters end the public parameter list: names starting with
/// `局`, the names `i`, `n`, `len`, and plain ASCII identifiers.
pub open spec fn is_internal_param(name: Seq<char>) -> bool {
    starts_with(name, "局_"@) || starts_with(name, "局"@) || name == "i"@ || name == "n"@ || name
        == "len"@ || is_plain_identifier(name)
}

/// The public parameters among the first `n`, as (name, type) pairs, and
/// whether an internal one was met.
pub open spec fn public_params_upto(params: Seq<RawParam>, n: int) -> (Seq<(Seq<char>, Seq<char>)>, bool)
    decreases n,
{
    if n <= 0 || n > params.len() {
        (seq![], false)
    } else {
        let (prev, stopped) = public_params_upto(params, n - 1);
        let name = trim(params[n - 1].name@);
        let ty = trim(params[n - 1].param_type@);
        if stopped || (name.len() == 0 && ty.len() == 0) {
            (prev, stopped)
        } else if is_internal_param(name) {
            (prev, true)
        } else {
            (prev.push((name, ty)), false)
        }
    }
}

pub open spec fn param_pairs(v: Seq<JingyiParam>) -> Seq<(Seq<char>, Seq<char>)> {
    v.map_values(|p: JingyiParam| (p.name@, p.param_type@))
}

fn is_plain_identifier_exec(name: &[char]) -> (res: bool)
    ensures
        res == is_plain_identifier(name@),
{
    let mut i: usize = 0;
    while i < name.len()
        invariant
            i <= name.len(),
            forall|j: int| 0 <= j < i ==> is_ascii_alnum(#[trigger] name@[j]) || name@[j] == '_',
        decreases name.len() - i,
    {
        if !(is_ascii_alnum_exec(name[i]) || name[i] == '_') {
            return false;
        }
        i += 1;
    }
    true
}

/// The parameters shown to users: trimmed, entries with neither name nor
/// type skipped, cut at the first internal parameter.
pub fn public_params(params: &Vec<RawParam>) -> (out: Vec<JingyiParam>)
    ensures
        param_pairs(out@) == public_params_upto(params@, params@.len() as int).0,
{
    let mut out: Vec<JingyiParam> = Vec::new();
    let mut i: usize = 0;
    while i < params.len()
        invariant
            i <= params@.len(),
            public_params_upto(params@, i as int) == (param_pairs(out@), false),
        decreases params@.len() - i,
    {
        let name = trim_chars(chars_of(params[i].name.as_str()).as_slice());
        let ty = trim_chars(chars_of(params[i].param_type.as_str()).as_slice());
        if name.len() == 0 && ty.len() == 0 {
            i += 1;
            continue;
        }
        let n = name.as_slice();
        if starts_with_str(n, "局_") || starts_with_str(n, "局") || eq_str(n, "i") || eq_str(n, "n")
            || eq_str(n, "len") || is_plain_identifier_exec(n) {
            proof {
                lemma_public_params_stopped(params@, i as int + 1, params@.len() as int);
            }
            return out;
        }
        let p = JingyiParam { name: string_of(n), param_type: string_of(ty.as_slice()) };
        let ghost before = out@;
        out.push(p);
        assert(param_pairs(out@) =~= param_pairs(before).push((name@, ty@)));
        i += 1;
    }
    out
}

proof fn lemma_public_params_stopped(params: Seq<RawParam>, a: int, b: int)
    requires
        1 <= a <= b <= params.len(),
        public_params_upto(params, a).1,
    ensures
        public_params_upto(params, b) == public_params_upto(params, a),
    decreases b - a,
{
    if a < b {
        lemma_public_params_stopped(params, a, b - 1);
    }
}

/// The shown return type: trimmed, `无返回值` when blank.
pub open spec fn shown_return_type(rt: Seq<char>) -> Seq<char> {
    if trim(rt).len() == 0 {
        "无返回值"@
    } else {
        trim(rt)
    }
}

fn shown_return_type_exec(rt: &str) -> (out: Vec<char>)
    ensures
        out@ == shown_return_type(rt@),
{
    let t = trim_chars(chars_of(rt).as_slice());
    if t.len() == 0 {
        chars_of("无返回值")
    } else {
        t
    }
}

/// A parameter in a signature: `name` or `name: type`.
pub open spec fn param_text(p: (Seq<char>, Seq<char>)) -> Seq<char> {
    if p.1.len() == 0 {
        p.0
    } else {
        p.0 + ": "@ + p.1
    }
}

/// The signature of an item: `return name（params）` with the parameters
/// separated by `，`.
pub open spec fn signature_text(
    return_type: Seq<char>,
    name: Seq<char>,
    params: Seq<(Seq<char>, Seq<char>)>,
) -> Seq<char> {
    shown_return_type(return_type) + " "@ + trim(name) + "（"@ + join(
        params.map_values(|p: (Seq<char>, Seq<char>)| param_text(p)),
        "，"@,
    ) + "）"@
}

pub fn signature(item: &RawItem, params: &Vec<JingyiParam>) -> (out: String)
    ensures
        out@ == signature_text(item.return_type@, item.name@, param_pairs(params@)),
{
    let mut texts: Vec<Vec<char>> = Vec::new();
    let mut i: usize = 0;
    while i < params.len()
        invariant
            i <= params@.len(),
            views(texts@) == param_pairs(params@).take(i as int).map_values(
                |p: (Seq<char>, Seq<char>)| param_text(p),
            ),
        decreases params@.len() - i,
    {
        let p = &params[i];
        let t = if p.param_type.as_str().is_empty() {
            chars_of(p.name.as_str())
        } else {
            let mut t = chars_of(p.name.as_str());
            append_str(&mut t, ": ");
            append_str(&mut t, p.param_type.as_str());
            t
        };
        let ghost before = texts@;
        texts.push(t);
        assert(views(texts@) =~= views(before).push(t@));
        assert(param_pairs(params@).take(i + 1) =~= param_pairs(params@).take(i as int).push(
            (p.name@, p.param_type@),
        ));
        i += 1;
    }
    assert(param_pairs(params@).take(params@.len() as int) == param_pairs(params@));
    let mut out = shown_return_type_exec(item.return_type.as_str());
    append_str(&mut out, " ");
    append_chars(&mut out, trim_chars(chars_of(item.name.as_str()).as_slice()).as_slice());
    append_str(&mut out, "（");
    let sep = chars_of("，");
    append_chars(&mut out, join_chars(&texts, sep.as_slice()).as_slice());
    append_str(&mut out, "）");
    string_of(out.as_slice())
}

/// The catalogue entry of a raw item listed under `category`.
pub open spec fn item_matches(out: JingyiItem, category: Seq<char>, raw: RawItem) -> bool {
    let params = public_params_upto(raw.params@, raw.params@.len() as int).0;
    &&& out.name@ == trim(raw.name@)
    &&& out.category@ == (if trim(raw.category@).len() == 0 {
        category
    } else {
        trim(raw.category@)
    })
    &&& out.class_name@ == trim(raw.class_name@)
    &&& out.return_type@ == shown_return_type(raw.return_type@)
    &&& out.signature@ == signature_text(raw.return_type@, raw.name@, params)
    &&& out.description@ == trim(raw.description@)
    &&& param_pairs(out.params@) == params
}

/// The raw items, category by category, that have a name.
pub open spec fn named_items(categories: Seq<(String, Vec<RawItem>)>, n: int) -> Seq<(Seq<char>, RawItem)>
    decreases n,
{
    if n <= 0 || n > categories.len() {
        seq![]
    } else {
        named_items(categories, n - 1) + named_in(
            categories[n - 1].0@,
            categories[n - 1].1@,
            categories[n - 1].1@.len() as int,
        )
    }
}

pub open spec fn named_in(category: Seq<char>, items: Seq<RawItem>, m: int) -> Seq<(Seq<char>, RawItem)>
    decreases m,
{
    if m <= 0 || m > items.len() {
        seq![]
    } else if trim(items[m - 1].name@).len() == 0 {
        named_in(category, items, m - 1)
    } else {
        named_in(category, items, m - 1).push((category, items[m - 1]))
    }
}

fn make_item(category: &String, raw: &RawItem) -> (out: JingyiItem)
    ensures
        item_matches(out, category@, *raw),
{
    let params = public_params(&raw.params);
    let cat = trim_chars(chars_of(raw.category.as_str()).as_slice());
    JingyiItem {
        name: string_of(trim_chars(chars_of(raw.name.as_str()).as_slice()).as_slice()),
        category: if cat.len() == 0 {
            category.clone()
        } else {
            string_of(cat.as_slice())
        },
        class_name: string_of(trim_chars(chars_of(raw.class_name.as_str()).as_slice()).as_slice()),
        return_type: string_of(shown_return_type_exec(raw.return_type.as_str()).as_slice()),
        signature: signature(raw, &params),
        description: string_of(
            trim_chars(chars_of(raw.description.as_str()).as_slice()).as_slice(),
        ),
        params,
    }
}

/// The catalogue: each named raw item, category by category (in the order
/// given), as an item.
pub fn flatten_items(categories: &Vec<(String, Vec<RawItem>)>) -> (out: Vec<JingyiItem>)
    ensures
        out@.len() == named_items(categories@, categories@.len() as int).len(),
        forall|i: int|
            0 <= i < out@.len() ==> {
                let (c, r) = named_items(categories@, categories@.len() as int)[i];
                item_matches(#[trigger] out@[i], c, r)
            },
{
    let mut out: Vec<JingyiItem> = Vec::new();
    let mut i: usize = 0;
    while i < categories.len()
        invariant
            i <= categories@.len(),
            out@.len() == named_items(categories@, i as int).len(),
            forall|k: int|
                0 <= k < out@.len() ==> {
                    let (c, r) = named_items(categories@, i as int)[k];
                    item_matches(#[trigger] out@[k], c, r)
                },
        decreases categories@.len() - i,
    {
        let (category, items) = &categories[i];
        let ghost base = named_items(categories@, i as int);
        let ghost base_len = out@.len();
        let mut j: usize = 0;
        while j < items.len()
            invariant
                j <= items@.len(),
                base.len() == base_len,
                out@.len() == base_len + named_in(category@, items@, j as int).len(),
                forall|k: int|
                    0 <= k < out@.len() ==> {
                        let (c, r) = (base + named_in(category@, items@, j as int))[k];
                        item_matches(#[trigger] out@[k], c, r)
                    },
            decreases items@.len() - j,
        {
            let raw = &items[j];
            if !is_blank(chars_of(raw.name.as_str()).as_slice()) {
                let item = make_item(category, raw);
                out.push(item);
                proof {
                    let next = base + named_in(category@, items@, j + 1);
                    assert(next =~= (base + named_in(category@, items@, j as int)).push(
                        (category@, *raw),
                    ));
                }
            } else {
                assert(named_in(category@, items@, j + 1) == named_in(category@, items@, j as int));
            }
            j += 1;
        }
        assert(named_items(categories@, i + 1) == base + named_in(
            category@,
            items@,
            items@.len() as int,
        ));
        i += 1;
    }
    out
}

// ---------------------------------------------------------------------------
// Tokens
// ---------------------------------------------------------------------------

pub open spec fn is_cjk(c: char) -> bool {
    '\u{4e00}' <= c && c <= '\u{9fff}'
}

/// The pieces of `t` of `size` characters, from each start position.
pub open spec fn windows(t: Seq<char>, size: int) -> Seq<Seq<char>> {
    if t.len() < size {
        seq![]
    } else {
        Seq::new((t.len() - size + 1) as nat, |i: int| t.subrange(i, i + size))
    }
}

/// The tokens of a run of CJK ideographs: the whole run when it has two or
/// more, then its pieces of 2, 3 and 4 characters.
pub open spec fn cjk_tokens(t: Seq<char>) -> Seq<Seq<char>> {
    (if t.len() >= 2 {
        seq![t]
    } else {
        seq![]
    }) + windows(t, 2) + windows(t, 3) + windows(t, 4)
}

fn push_windows(t: &[char], size: usize, out: &mut Vec<Vec<char>>)
    requires
        size >= 1,
    ensures
        views(final(out)@) == views(old(out)@) + windows(t@, size as int),
{
    if t.len() < size {
        assert(views(out@) + Seq::<Seq<char>>::empty() =~= views(out@));
        return ;
    }
    let ghost start = views(out@);
    let mut i: usize = 0;
    while i <= t.len() - size
        invariant
            t.len() >= size >= 1,
            i <= t.len() - size + 1,
            views(out@) == start + windows(t@, size as int).take(i as int),
        decreases t.len() - size + 1 - i,
    {
        let piece = sub_chars(t, i, i + size);
        let ghost before = out@;
        out.push(piece);
        assert(views(out@) =~= views(before).push(piece@));
        assert(windows(t@, size as int).take(i + 1) =~= windows(t@, size as int).take(i as int).push(
            t@.subrange(i as int, i + size),
        ));
        i += 1;
    }
    assert(windows(t@, size as int).take(windows(t@, size as int).len() as int) == windows(
        t@,
        size as int,
    ));
}

/// Adds the tokens of a CJK run (see `cjk_tokens`).
pub fn push_cjk_tokens(text: &[char], out: &mut Vec<Vec<char>>)
    ensures
        views(final(out)@) == views(old(out)@) + cjk_tokens(text@),
{
    let ghost start = views(out@);
    if text.len() >= 2 {
        let ghost before = out@;
        let whole = sub_chars(text, 0, text.len());
        assert(whole@ =~= text@);
        out.push(whole);
        assert(views(out@) =~= views(before).push(text@));
    }
    let ghost first = views(out@);
    assert(first == start + (if text@.len() >= 2 {
        seq![text@]
    } else {
        Seq::<Seq<char>>::empty()
    }));
    push_windows(text, 2, out);
    push_windows(text, 3, out);
    push_windows(text, 4, out);
    assert(views(out@) =~= start + cjk_tokens(text@));
}

/// Distinct trimmed items of at least two UTF-8 bytes, in order of first
/// appearance, among the first `n`.
pub open spec fn dedupe_upto(items: Seq<Seq<char>>, n: int) -> Seq<Seq<char>>
    decreases n,
{
    if n <= 0 || n > items.len() {
        seq![]
    } else {
        let prev = dedupe_upto(items, n - 1);
        let clean = trim(items[n - 1]);
        if vstd::utf8::encode_utf8(clean).len() < 2 || prev.contains(clean) {
            prev
        } else {
            prev.push(clean)
        }
    }
}

pub open spec fn deduped(items: Seq<Seq<char>>) -> Seq<Seq<char>> {
    dedupe_upto(items, items.len() as int)
}

pub fn dedupe(items: &Vec<Vec<char>>) -> (out: Vec<Vec<char>>)
    ensures
        views(out@) == deduped(views(items@)),
{
    let ghost all = views(items@);
    let mut out: Vec<Vec<char>> = Vec::new();
    let mut i: usize = 0;
    while i < items.len()
        invariant
            i <= items@.len(),
            all == views(items@),
            views(out@) == dedupe_upto(all, i as int),
        decreases items@.len() - i,
    {
        let clean = trim_chars(items[i].as_slice());
        assert(all[i as int] == items@[i as int]@);
        let n = utf8_len_clamped(clean.as_slice());
        if !(n < 2 || contains_item(&out, clean.as_slice())) {
            let ghost before = out@;
            out.push(clean);
            assert(views(out@) =~= views(before).push(clean@));
        }
        i += 1;
    }
    out
}

/// The state of the tokenizer: tokens so far and the current ASCII and
/// CJK runs.
pub struct TokenState {
    pub tokens: Seq<Seq<char>>,
    pub ascii: Seq<char>,
    pub cjk: Seq<char>,
}

pub open spec fn flush_ascii(st: TokenState) -> Seq<Seq<char>> {
    if st.ascii.len() > 0 {
        st.tokens.push(st.ascii)
    } else {
        st.tokens
    }
}

pub open spec fn flush_cjk(tokens: Seq<Seq<char>>, cjk: Seq<char>) -> Seq<Seq<char>> {
    if cjk.len() > 0 {
        tokens + cjk_tokens(cjk)
    } else {
        tokens
    }
}

/// One character read by the tokenizer: ASCII letters, digits and `_`
/// extend the ASCII run (lowercased), CJK ideographs the CJK run, and any
/// other character ends both runs.
pub open spec fn token_step(st: TokenState, c: char) -> TokenState {
    if is_ascii_alnum(c) || c == '_' {
        TokenState {
            tokens: flush_cjk(st.tokens, st.cjk),
            ascii: st.ascii.push(crate::text::ascii_lower(c)),
            cjk: seq![],
        }
    } else if is_cjk(c) {
        TokenState { tokens: flush_ascii(st), ascii: seq![], cjk: st.cjk.push(c) }
    } else {
        TokenState {
            tokens: flush_cjk(flush_ascii(st), st.cjk),
            ascii: seq![],
            cjk: seq![],
        }
    }
}

pub open spec fn token_run(text: Seq<char>, n: int) -> TokenState
    decreases n,
{
    if n <= 0 || n > text.len() {
        TokenState { tokens: seq![], ascii: seq![], cjk: seq![] }
    } else {
        token_step(token_run(text, n - 1), text[n - 1])
    }
}

/// The tokens of a text: ASCII words (lowercased) and CJK runs with their
/// pieces, deduplicated.
pub open spec fn tokens_of(text: Seq<char>) -> Seq<Seq<char>> {
    let st = token_run(text, text.len() as int);
    deduped(flush_cjk(flush_ascii(st), st.cjk))
}

fn tokenize_chars(text: &[char]) -> (out: Vec<Vec<char>>)
    ensures
        views(out@) == tokens_of(text@),
{
    let mut tokens: Vec<Vec<char>> = Vec::new();
    let mut ascii: Vec<char> = Vec::new();
    let mut cjk: Vec<char> = Vec::new();
    let mut i: usize = 0;
    while i < text.len()
        invariant
            i <= text.len(),
            ({
                let st = token_run(text@, i as int);
                &&& views(tokens@) == st.tokens
                &&& ascii@ == st.ascii
                &&& cjk@ == st.cjk
            }),
        decreases text.len() - i,
    {
        let ch = text[i];
        let ghost st = token_run(text@, i as int);
        if is_ascii_alnum_exec(ch) || ch == '_' {
            if cjk.len() > 0 {
                push_cjk_tokens(cjk.as_slice(), &mut tokens);
                cjk = Vec::new();
            }
            ascii.push(crate::text::ascii_lower_exec(ch));
        } else if '\u{4e00}' <= ch && ch <= '\u{9fff}' {
            if ascii.len() > 0 {
                let ghost before = tokens@;
                tokens.push(ascii);
                assert(views(tokens@) =~= views(before).push(st.ascii));
                ascii = Vec::new();
            }
            cjk.push(ch);
        } else {
            if ascii.len() > 0 {
                let ghost before = tokens@;
                tokens.push(ascii);
                assert(views(tokens@) =~= views(before).push(st.ascii));
                ascii = Vec::new();
            }
            if cjk.len() > 0 {
                push_cjk_tokens(cjk.as_slice(), &mut tokens);
                cjk = Vec::new();
            }
        }
        i += 1;
    }
    let ghost st = token_run(text@, text.len() as int);
    if ascii.len() > 0 {
        let ghost before = tokens@;
        tokens.push(ascii);
        assert(views(tokens@) =~= views(before).push(st.ascii));
    }
    if cjk.len() > 0 {
        push_cjk_tokens(cjk.as_slice(), &mut tokens);
    }
    dedupe(&tokens)
}

/// The tokens of a text (see `tokens_of`).
pub fn tokenize(text: &str) -> (out: Vec<String>)
    ensures
        str_views(out@) == tokens_of(text@),
{
    to_strings(&tokenize_chars(chars_of(text).as_slice()))
}

/// The tokens of an item's parameter names, deduplicated.
pub open spec fn param_name_tokens_spec(params: Seq<JingyiParam>) -> Seq<Seq<char>> {
    deduped(param_tokens_upto(params, params.len() as int))
}

pub open spec fn param_tokens_upto(params: Seq<JingyiParam>, n: int) -> Seq<Seq<char>>
    decreases n,
{
    if n <= 0 || n > params.len() {
        seq![]
    } else {
        param_tokens_upto(params, n - 1) + tokens_of(params[n - 1].name@)
    }
}

pub fn param_name_tokens(item: &JingyiItem) -> (out: Vec<String>)
    ensures
        str_views(out@) == param_name_tokens_spec(item.params@),
{
    let mut all: Vec<Vec<char>> = Vec::new();
    let mut i: usize = 0;
    while i < item.params.len()
        invariant
            i <= item.params@.len(),
            views(all@) == param_tokens_upto(item.params@, i as int),
        decreases item.params@.len() - i,
    {
        let t = tokenize_chars(chars_of(item.params[i].name.as_str()).as_slice());
        let mut k: usize = 0;
        let ghost start = views(all@);
        while k < t.len()
            invariant
                k <= t@.len(),
                views(all@) == start + views(t@).take(k as int),
            decreases t@.len() - k,
        {
            let ghost before = all@;
            all.push(t[k].clone());
            assert(views(all@) =~= views(before).push(t@[k as int]@));
            assert(views(t@).take(k + 1) =~= views(t@).take(k as int).push(t@[k as int]@));
            k += 1;
        }
        assert(views(t@).take(t@.len() as int) == views(t@));
        i += 1;
    }
    to_strings(&dedupe(&all))
}

// ---------------------------------------------------------------------------
// Capabilities and texts of an item
// ---------------------------------------------------------------------------

/// The parameter names of an item, lowercased, separated by spaces.
pub open spec fn lower_param_names(params: Seq<JingyiParam>) -> Seq<char> {
    join(params.map_values(|p: JingyiParam| unicode_lowercase(p.name@)), " "@)
}

fn lower_param_names_exec(params: &Vec<JingyiParam>) -> (out: Vec<char>)
    ensures
        out@ == lower_param_names(params@),
{
    let mut names: Vec<Vec<char>> = Vec::new();
    let mut i: usize = 0;
    while i < params.len()
        invariant
            i <= params@.len(),
            views(names@) == params@.take(i as int).map_values(
                |p: JingyiParam| unicode_lowercase(p.name@),
            ),
        decreases params@.len() - i,
    {
        let l = chars_of(to_lowercase(params[i].name.as_str()).as_str());
        let ghost before = names@;
        names.push(l);
        assert(views(names@) =~= views(before).push(l@));
        assert(params@.take(i + 1).map_values(|p: JingyiParam| unicode_lowercase(p.name@))
            =~= params@.take(i as int).map_values(|p: JingyiParam| unicode_lowercase(p.name@)).push(
            l@,
        ));
        i += 1;
    }
    assert(params@.take(params@.len() as int) == params@);
    let sep = chars_of(" ");
    join_chars(&names, sep.as_slice())
}

pub open spec fn http_aliases() -> Seq<Seq<char>> {
    seq![
        "http"@,
        "https"@,
        "request"@,
        "response"@,
        "web"@,
        "get"@,
        "post"@,
        "json"@,
        "form"@,
        "网页"@,
        "网络"@,
        "请求"@,
        "访问"@,
        "提交"@,
        "协议头"@,
        "状态码"@,
        "cookie"@,
    ]
}

pub open spec fn xmlhttp_aliases() -> Seq<Seq<char>> {
    seq![
        "http"@,
        "request"@,
        "response"@,
        "post"@,
        "json"@,
        "form"@,
        "请求"@,
        "访问"@,
        "发送"@,
        "状态码"@,
    ]
}

pub open spec fn post_data_aliases() -> Seq<Seq<char>> {
    seq![
        "http"@,
        "request"@,
        "post"@,
        "body"@,
        "payload"@,
        "form"@,
        "json"@,
        "multipart"@,
        "提交"@,
        "提交信息"@,
        "请求体"@,
        "参数"@,
        "协议头"@,
    ]
}

pub open spec fn json_aliases() -> Seq<Seq<char>> {
    seq!["json"@, "解析"@, "数组"@, "对象"@, "字段"@, "成员"@]
}

pub open spec fn thread_aliases() -> Seq<Seq<char>> {
    seq![
        "thread"@,
        "threads"@,
        "multithread"@,
        "concurrent"@,
        "多线程"@,
        "线程"@,
        "并发"@,
        "启动线程"@,
        "后台执行"@,
    ]
}

pub open spec fn when_list(b: bool, l: Seq<Seq<char>>) -> Seq<Seq<char>> {
    if b {
        l
    } else {
        seq![]
    }
}

/// The words by which an item's capability is recognised: HTTP request
/// words for items taking an address and request details (or named
/// XMLHTTP), request words for XMLHTTP, body words for POST data builders,
/// JSON words, and thread words; deduplicated and separated by spaces.
pub open spec fn capability_aliases(item: JingyiItem) -> Seq<char> {
    let name = unicode_lowercase(item.name@);
    let class = unicode_lowercase(item.class_name@);
    let params = lower_param_names(item.params@);
    let has_url = contains(params, "网址"@) || contains(params, "地址"@);
    let xml = contains(name, "xmlhttp"@) || contains(class, "xmlhttp"@);
    let has_request = contains(params, "访问方式"@) || contains(params, "提交信息"@) || contains(
        params,
        "协议头"@,
    ) || contains(params, "cookies"@) || xml;
    let post = contains(name, "post数据"@) || contains(class, "post数据"@);
    let json = contains(name, "json"@) || contains(class, "json"@);
    let thread = starts_with(name, "线程_"@) || contains(class, "线程"@) || contains(
        params,
        "线程id"@,
    ) || contains(params, "子程序指针"@) || contains(params, "要启动的子程序"@) || contains(
        params,
        "欲执行的子程序"@,
    );
    let aliases = when_list(has_url && has_request, http_aliases()) + when_list(
        xml,
        xmlhttp_aliases(),
    ) + when_list(post, post_data_aliases()) + when_list(json, json_aliases()) + when_list(
        thread,
        thread_aliases(),
    );
    join(deduped(aliases), " "@)
}

fn push_words(out: &mut Vec<Vec<char>>, b: bool, words: &Vec<Vec<char>>)
    ensures
        views(final(out)@) == views(old(out)@) + when_list(b, views(words@)),
{
    if !b {
        assert(views(out@) + Seq::<Seq<char>>::empty() =~= views(out@));
        return ;
    }
    let ghost start = views(out@);
    let mut i: usize = 0;
    while i < words.len()
        invariant
            i <= words@.len(),
            views(out@) == start + views(words@).take(i as int),
        decreases words@.len() - i,
    {
        let ghost before = out@;
        out.push(words[i].clone());
        assert(views(out@) =~= views(before).push(words@[i as int]@));
        assert(views(words@).take(i + 1) =~= views(words@).take(i as int).push(words@[i as int]@));
        i += 1;
    }
    assert(views(words@).take(words@.len() as int) == views(words@));
}

fn words_of(list: &[&str]) -> (out: Vec<Vec<char>>)
    ensures
        views(out@) == list@.map_values(|w: &str| w@),
{
    let mut out: Vec<Vec<char>> = Vec::new();
    let mut i: usize = 0;
    while i < list.len()
        invariant
            i <= list@.len(),
            views(out@) == list@.take(i as int).map_values(|w: &str| w@),
        decreases list@.len() - i,
    {
        let w = chars_of(list[i]);
        let ghost before = out@;
        out.push(w);
        assert(views(out@) =~= views(before).push(w@));
        assert(list@.take(i + 1).map_values(|w: &str| w@) =~= list@.take(i as int).map_values(
            |w: &str| w@,
        ).push(w@));
        i += 1;
    }
    assert(list@.take(list@.len() as int) == list@);
    out
}

fn capability_aliases_chars(item: &JingyiItem) -> (out: Vec<char>)
    ensures
        out@ == capability_aliases(*item),
{
    let name = chars_of(to_lowercase(item.name.as_str()).as_str());
    let class = chars_of(to_lowercase(item.class_name.as_str()).as_str());
    let params = lower_param_names_exec(&item.params);
    let (n, c, p) = (name.as_slice(), class.as_slice(), params.as_slice());
    let has_url = contains_str(p, "网址") || contains_str(p, "地址");
    let xml = contains_str(n, "xmlhttp") || contains_str(c, "xmlhttp");
    let has_request = contains_str(p, "访问方式") || contains_str(p, "提交信息") || contains_str(
        p,
        "协议头",
    ) || contains_str(p, "cookies") || xml;
    let post = contains_str(n, "post数据") || contains_str(c, "post数据");
    let json = contains_str(n, "json") || contains_str(c, "json");
    let thread = starts_with_str(n, "线程_") || contains_str(c, "线程") || contains_str(
        p,
        "线程id",
    ) || contains_str(p, "子程序指针") || contains_str(p, "要启动的子程序") || contains_str(
        p,
        "欲执行的子程序",
    );
    let http_words = words_of(
        &[
            "http",
            "https",
            "request",
            "response",
            "web",
            "get",
            "post",
            "json",
            "form",
            "网页",
            "网络",
            "请求",
            "访问",
            "提交",
            "协议头",
            "状态码",
            "cookie",
        ],
    );
    let xml_words = words_of(
        &["http", "request", "response", "post", "json", "form", "请求", "访问", "发送", "状态码"],
    );
    let post_words = words_of(
        &[
            "http",
            "request",
            "post",
            "body",
            "payload",
            "form",
            "json",
            "multipart",
            "提交",
            "提交信息",
            "请求体",
            "参数",
            "协议头",
        ],
    );
    let json_words = words_of(&["json", "解析", "数组", "对象", "字段", "成员"]);
    let thread_words = words_of(
        &[
            "thread",
            "threads",
            "multithread",
            "concurrent",
            "多线程",
            "线程",
            "并发",
            "启动线程",
            "后台执行",
        ],
    );
    assert(views(http_words@) =~= http_aliases());
    assert(views(xml_words@) =~= xmlhttp_aliases());
    assert(views(post_words@) =~= post_data_aliases());
    assert(views(json_words@) =~= json_aliases());
    assert(views(thread_words@) =~= thread_aliases());
    let mut aliases: Vec<Vec<char>> = Vec::new();
    push_words(&mut aliases, has_url && has_request, &http_words);
    push_words(&mut aliases, xml, &xml_words);
    push_words(&mut aliases, post, &post_words);
    push_words(&mut aliases, json, &json_words);
    push_words(&mut aliases, thread, &thread_words);
    let d = dedupe(&aliases);
    let sep = chars_of(" ");
    join_chars(&d, sep.as_slice())
}

pub fn capability_alias_text(item: &JingyiItem) -> (out: String)
    ensures
        out@ == capability_aliases(*item),
{
    string_of(capability_aliases_chars(item).as_slice())
}

/// The parameters as `name type`, separated by spaces.
pub open spec fn params_text(params: Seq<JingyiParam>) -> Seq<char> {
    join(params.map_values(|p: JingyiParam| p.name@ + " "@ + p.param_type@), " "@)
}

fn params_text_exec(params: &Vec<JingyiParam>) -> (out: Vec<char>)
    ensures
        out@ == params_text(params@),
{
    let mut parts: Vec<Vec<char>> = Vec::new();
    let mut i: usize = 0;
    while i < params.len()
        invariant
            i <= params@.len(),
            views(parts@) == params@.take(i as int).map_values(
                |p: JingyiParam| p.name@ + " "@ + p.param_type@,
            ),
        decreases params@.len() - i,
    {
        let mut t = chars_of(params[i].name.as_str());
        append_str(&mut t, " ");
        append_str(&mut t, params[i].param_type.as_str());
        let ghost before = parts@;
        parts.push(t);
        assert(views(parts@) =~= views(before).push(t@));
        assert(params@.take(i + 1).map_values(|p: JingyiParam| p.name@ + " "@ + p.param_type@)
            =~= params@.take(i as int).map_values(
            |p: JingyiParam| p.name@ + " "@ + p.param_type@,
        ).push(t@));
        i += 1;
    }
    assert(params@.take(params@.len() as int) == params@);
    let sep = chars_of(" ");
    join_chars(&parts, sep.as_slice())
}

/// All text of an item, lowercased.
pub open spec fn item_text_spec(item: JingyiItem) -> Seq<char> {
    unicode_lowercase(
        item.name@ + " "@ + item.category@ + " "@ + item.class_name@ + " "@ + item.return_type@
            + " "@ + item.signature@ + " "@ + item.description@ + " "@ + capability_aliases(item)
            + " "@ + params_text(item.params@),
    )
}

pub fn item_text(item: &JingyiItem) -> (out: String)
    ensures
        out@ == item_text_spec(*item),
{
    let mut t = chars_of(item.name.as_str());
    append_str(&mut t, " ");
    append_str(&mut t, item.category.as_str());
    append_str(&mut t, " ");
    append_str(&mut t, item.class_name.as_str());
    append_str(&mut t, " ");
    append_str(&mut t, item.return_type.as_str());
    append_str(&mut t, " ");
    append_str(&mut t, item.signature.as_str());
    append_str(&mut t, " ");
    append_str(&mut t, item.description.as_str());
    append_str(&mut t, " ");
    append_chars(&mut t, capability_aliases_chars(item).as_slice());
    append_str(&mut t, " ");
    append_chars(&mut t, params_text_exec(&item.params).as_slice());
    to_lowercase(string_of(t.as_slice()).as_str())
}

/// The searchable fields of an item, each lowercased, with their labels.
pub open spec fn field_texts(item: JingyiItem) -> Seq<(Seq<char>, Seq<char>)> {
    seq![
        ("name"@, unicode_lowercase(item.name@)),
        ("class"@, unicode_lowercase(item.class_name@)),
        ("category"@, unicode_lowercase(item.category@)),
        ("return"@, unicode_lowercase(item.return_type@)),
        ("signature"@, unicode_lowercase(item.signature@)),
        ("description"@, unicode_lowercase(item.description@)),
        ("capability"@, unicode_lowercase(capability_aliases(item))),
        ("params"@, unicode_lowercase(params_text(item.params@))),
    ]
}

pub fn item_field_texts(item: &JingyiItem) -> (out: Vec<(String, String)>)
    ensures
        out@.map_values(|p: (String, String)| (p.0@, p.1@)) == field_texts(*item),
{
    let mut v: Vec<(String, String)> = Vec::new();
    v.push(("name".to_owned(), to_lowercase(item.name.as_str())));
    v.push(("class".to_owned(), to_lowercase(item.class_name.as_str())));
    v.push(("category".to_owned(), to_lowercase(item.category.as_str())));
    v.push(("return".to_owned(), to_lowercase(item.return_type.as_str())));
    v.push(("signature".to_owned(), to_lowercase(item.signature.as_str())));
    v.push(("description".to_owned(), to_lowercase(item.description.as_str())));
    v.push(("capability".to_owned(), to_lowercase(capability_alias_text(item).as_str())));
    v.push(
        ("params".to_owned(), to_lowercase(string_of(params_text_exec(&item.params).as_slice()).as_str())),
    );
    assert(v@.map_values(|p: (String, String)| (p.0@, p.1@)) =~= field_texts(*item));
    v
}

// ---------------------------------------------------------------------------
// Families and routes
// ---------------------------------------------------------------------------

/// The namespace of an item: the trimmed part of its name before the first
/// `_`, when there is a `_` and the part has two or more characters.
pub open spec fn namespace_spec(name: Seq<char>) -> Option<Seq<char>> {
    let k = index_of_char(name, '_');
    if k < name.len() && trim(name.take(k)).len() >= 2 {
        Some(trim(name.take(k)))
    } else {
        None
    }
}

pub fn namespace(item: &JingyiItem) -> (out: Option<String>)
    ensures
        match out {
            Some(s) => namespace_spec(item.name@) == Some(s@),
            None => namespace_spec(item.name@) is None,
        },
{
    let name = chars_of(item.name.as_str());
    let k = index_of_char_from(name.as_slice(), '_', 0);
    assert(name@.skip(0) == name@);
    if k < name.len() {
        let left = trim_chars(sub_chars(name.as_slice(), 0, k).as_slice());
        assert(name@.subrange(0, k as int) == name@.take(k as int));
        if left.len() >= 2 {
            return Some(string_of(left.as_slice()));
        }
    }
    None
}

/// `category:class:name:signature`, by which duplicates are recognised.
pub open spec fn item_key_spec(item: JingyiItem) -> Seq<char> {
    item.category@ + ":"@ + item.class_name@ + ":"@ + item.name@ + ":"@ + item.signature@
}

pub fn item_key(item: &JingyiItem) -> (out: String)
    ensures
        out@ == item_key_spec(*item),
{
    let mut t = chars_of(item.category.as_str());
    append_str(&mut t, ":");
    append_str(&mut t, item.class_name.as_str());
    append_str(&mut t, ":");
    append_str(&mut t, item.name.as_str());
    append_str(&mut t, ":");
    append_str(&mut t, item.signature.as_str());
    string_of(t.as_slice())
}

/// A family is an object workflow when it names a class (`类_…` or the
/// class of one of its items), else a family of functions.
pub open spec fn is_object_family(family: Seq<char>, items: Seq<JingyiItem>) -> bool {
    starts_with(family, "类_"@) || exists|i: int|
        0 <= i < items.len() && #[trigger] items[i].class_name@ == family
}

pub fn route_type(family: &str, items: &Vec<JingyiItem>) -> (out: String)
    ensures
        out@ == (if is_object_family(family@, items@) {
            "object_workflow"@
        } else {
            "function_family"@
        }),
{
    let f = chars_of(family);
    if starts_with_str(f.as_slice(), "类_") {
        return "object_workflow".to_owned();
    }
    let mut i: usize = 0;
    while i < items.len()
        invariant
            i <= items@.len(),
            f@ == family@,
            !starts_with(family@, "类_"@),
            forall|j: int| 0 <= j < i ==> #[trigger] items@[j].class_name@ != f@,
        decreases items@.len() - i,
    {
        let c = chars_of(items[i].class_name.as_str());
        if chars_eq(c.as_slice(), f.as_slice()) {
            assert(items@[i as int].class_name@ == family@);
            return "object_workflow".to_owned();
        }
        i += 1;
    }
    "function_family".to_owned()
}

/// The family of an item: its class; else `网页_访问` or `线程_*` for
/// those name prefixes; else the first two `_` separated parts of its
/// name; else its namespace.
pub open spec fn family_spec(item: JingyiItem) -> Option<Seq<char>> {
    let name = trim(item.name@);
    if item.class_name@.len() > 0 {
        Some(item.class_name@)
    } else if starts_with(name, "网页_访问"@) {
        Some("网页_访问"@)
    } else if starts_with(name, "线程_"@) {
        Some("线程_*"@)
    } else if name.contains('_') && split_char(name, '_').len() >= 2 {
        Some(split_char(name, '_')[0] + "_"@ + split_char(name, '_')[1])
    } else {
        namespace_spec(item.name@)
    }
}

pub fn family_for(item: &JingyiItem) -> (out: Option<String>)
    ensures
        match out {
            Some(s) => family_spec(*item) == Some(s@),
            None => family_spec(*item) is None,
        },
{
    if !item.class_name.as_str().is_empty() {
        return Some(item.class_name.clone());
    }
    let name = trim_chars(chars_of(item.name.as_str()).as_slice());
    let n = name.as_slice();
    if starts_with_str(n, "网页_访问") {
        return Some("网页_访问".to_owned());
    }
    if starts_with_str(n, "线程_") {
        return Some("线程_*".to_owned());
    }
    if crate::text::has_char(n, '_') {
        let parts = split_char_exec(n, '_');
        if parts.len() >= 2 {
            assert(views(parts@)[0] == parts@[0]@ && views(parts@)[1] == parts@[1]@);
            let mut t = parts[0].clone();
            append_str(&mut t, "_");
            append_chars(&mut t, parts[1].as_slice());
            return Some(string_of(t.as_slice()));
        }
    }
    namespace(item)
}

/// The capability a route stands for: `thread`, `http`, `json` or `image`
/// by its options' aliases and its family, else the first `_` separated
/// part of its lowercased family.
pub open spec fn route_capability(family: Seq<char>, options: Seq<JingyiItem>) -> Seq<char> {
    let evidence = join(options.map_values(|i: JingyiItem| capability_aliases(i)), " "@);
    let fam = unicode_lowercase(family);
    if contains(evidence, "thread"@) || contains(fam, "线程"@) {
        "thread"@
    } else if contains(evidence, "request"@) || contains(evidence, "http"@) || contains(
        evidence,
        "请求"@,
    ) || contains(fam, "网页"@) || contains(fam, "xmlhttp"@) {
        "http"@
    } else if contains(evidence, "json"@) || contains(fam, "json"@) {
        "json"@
    } else if contains(fam, "找图"@) || contains(fam, "识图"@) || contains(fam, "图片"@) {
        "image"@
    } else {
        split_char(fam, '_')[0]
    }
}

pub fn route_capability_key(route: &JingyiRoute) -> (out: String)
    ensures
        out@ == route_capability(route.family@, route.options@),
{
    let mut parts: Vec<Vec<char>> = Vec::new();
    let mut i: usize = 0;
    while i < route.options.len()
        invariant
            i <= route.options@.len(),
            views(parts@) == route.options@.take(i as int).map_values(
                |it: JingyiItem| capability_aliases(it),
            ),
        decreases route.options@.len() - i,
    {
        let a = capability_aliases_chars(&route.options[i]);
        let ghost before = parts@;
        parts.push(a);
        assert(views(parts@) =~= views(before).push(a@));
        assert(route.options@.take(i + 1).map_values(|it: JingyiItem| capability_aliases(it))
            =~= route.options@.take(i as int).map_values(|it: JingyiItem| capability_aliases(it)).push(
            a@,
        ));
        i += 1;
    }
    assert(route.options@.take(route.options@.len() as int) == route.options@);
    let sep = chars_of(" ");
    let evidence = join_chars(&parts, sep.as_slice());
    let fam = chars_of(to_lowercase(route.family.as_str()).as_str());
    let (e, f) = (evidence.as_slice(), fam.as_slice());
    if contains_str(e, "thread") || contains_str(f, "线程") {
        return "thread".to_owned();
    }
    if contains_str(e, "request") || contains_str(e, "http") || contains_str(e, "请求")
        || contains_str(f, "网页") || contains_str(f, "xmlhttp") {
        return "http".to_owned();
    }
    if contains_str(e, "json") || contains_str(f, "json") {
        return "json".to_owned();
    }
    if contains_str(f, "找图") || contains_str(f, "识图") || contains_str(f, "图片") {
        return "image".to_owned();
    }
    let pieces = split_char_exec(f, '_');
    assert(views(pieces@)[0] == pieces@[0]@);
    string_of(pieces[0].as_slice())
}

/// An HTTP request function: it takes an address and request details.
pub open spec fn is_main_http(item: JingyiItem) -> bool {
    let text = item_text_spec(item);
    let params = lower_param_names(item.params@);
    (contains(params, "网址"@) || contains(params, "地址"@)) && (contains(params, "访问方式"@)
        || contains(params, "提交信息"@) || contains(params, "协议头"@) || contains(
        params,
        "cookies"@,
    ) || contains(text, "xmlhttp"@) || contains(text, "发送请求"@))
}

pub fn is_main_http_item(item: &JingyiItem) -> (res: bool)
    ensures
        res == is_main_http(*item),
{
    let text = chars_of(item_text(item).as_str());
    let params = lower_param_names_exec(&item.params);
    let (t, p) = (text.as_slice(), params.as_slice());
    (contains_str(p, "网址") || contains_str(p, "地址")) && (contains_str(p, "访问方式")
        || contains_str(p, "提交信息") || contains_str(p, "协议头") || contains_str(p, "cookies")
        || contains_str(t, "xmlhttp") || contains_str(t, "发送请求"))
}

/// A helper that builds POST data or headers.
pub open spec fn is_helper_builder(item: JingyiItem) -> bool {
    let name = unicode_lowercase(item.name@);
    let class = unicode_lowercase(item.class_name@);
    contains(name, "post数据"@) || contains(class, "post数据"@) || contains(name, "获取post数据"@)
        || contains(name, "获取协议头数据"@)
}

pub fn is_helper_builder_item(item: &JingyiItem) -> (res: bool)
    ensures
        res == is_helper_builder(*item),
{
    let name = chars_of(to_lowercase(item.name.as_str()).as_str());
    let class = chars_of(to_lowercase(item.class_name.as_str()).as_str());
    contains_str(name.as_slice(), "post数据") || contains_str(class.as_slice(), "post数据")
        || contains_str(name.as_slice(), "获取post数据") || contains_str(
        name.as_slice(),
        "获取协议头数据",
    )
}

/// A function that starts a thread: named with `启动`, taking the
/// subprogram to run and giving the thread.
pub open spec fn is_main_thread(item: JingyiItem) -> bool {
    let name = unicode_lowercase(item.name@);
    let params = lower_param_names(item.params@);
    contains(name, "启动"@) && (contains(params, "要启动的子程序"@) || contains(
        params,
        "欲执行的子程序"@,
    ) || contains(params, "子程序指针"@)) && (contains(params, "线程id"@) || contains(
        params,
        "线程句柄"@,
    ))
}

pub fn is_main_thread_item(item: &JingyiItem) -> (res: bool)
    ensures
        res == is_main_thread(*item),
{
    let name = chars_of(to_lowercase(item.name.as_str()).as_str());
    let params = lower_param_names_exec(&item.params);
    let (n, p) = (name.as_slice(), params.as_slice());
    contains_str(n, "启动") && (contains_str(p, "要启动的子程序") || contains_str(
        p,
        "欲执行的子程序",
    ) || contains_str(p, "子程序指针")) && (contains_str(p, "线程id") || contains_str(
        p,
        "线程句柄",
    ))
}

/// `p` is a prefix of `q`.
pub open spec fn is_prefix_of(p: Seq<Seq<char>>, q: Seq<Seq<char>>) -> bool {
    p.len() <= q.len() && q.take(p.len() as int) == p
}

proof fn lemma_prefix_trans(p: Seq<Seq<char>>, q: Seq<Seq<char>>, r: Seq<Seq<char>>)
    requires
        is_prefix_of(p, q),
        is_prefix_of(q, r),
    ensures
        is_prefix_of(p, r),
{
    assert(r.take(p.len() as int) =~= q.take(p.len() as int));
}

proof fn lemma_prefix_append(p: Seq<Seq<char>>, extra: Seq<Seq<char>>)
    ensures
        is_prefix_of(p, p + extra),
{
    assert((p + extra).take(p.len() as int) =~= p);
}

proof fn lemma_flush_ascii_prefix(st: TokenState)
    ensures
        is_prefix_of(st.tokens, flush_ascii(st)),
{
    if st.ascii.len() > 0 {
        assert(st.tokens.push(st.ascii).take(st.tokens.len() as int) =~= st.tokens);
    } else {
        assert(st.tokens.take(st.tokens.len() as int) =~= st.tokens);
    }
}

proof fn lemma_flush_cjk_prefix(tokens: Seq<Seq<char>>, cjk: Seq<char>)
    ensures
        is_prefix_of(tokens, flush_cjk(tokens, cjk)),
{
    if cjk.len() > 0 {
        lemma_prefix_append(tokens, cjk_tokens(cjk));
    } else {
        assert(tokens.take(tokens.len() as int) =~= tokens);
    }
}

/// Reading a character only adds tokens after those found so far.
proof fn lemma_step_keeps_tokens(st: TokenState, c: char)
    ensures
        is_prefix_of(st.tokens, token_step(st, c).tokens),
{
    lemma_flush_ascii_prefix(st);
    lemma_flush_cjk_prefix(st.tokens, st.cjk);
    lemma_flush_cjk_prefix(flush_ascii(st), st.cjk);
    lemma_prefix_trans(st.tokens, flush_ascii(st), flush_cjk(flush_ascii(st), st.cjk));
}

proof fn lemma_run_keeps_tokens(text: Seq<char>, m: int, n: int)
    requires
        0 <= m <= n <= text.len(),
    ensures
        is_prefix_of(token_run(text, m).tokens, token_run(text, n).tokens),
    decreases n - m,
{
    if m == n {
        let t = token_run(text, m).tokens;
        assert(t.take(t.len() as int) =~= t);
    } else {
        lemma_run_keeps_tokens(text, m, n - 1);
        lemma_step_keeps_tokens(token_run(text, n - 1), text[n - 1]);
        lemma_prefix_trans(
            token_run(text, m).tokens,
            token_run(text, n - 1).tokens,
            token_run(text, n).tokens,
        );
    }
}

/// While a run of CJK ideographs is read, the current run is what has been
/// read of it.
proof fn lemma_cjk_run_read(text: Seq<char>, start: int, t: Seq<char>, n: int)
    requires
        0 <= start <= n <= start + t.len() <= text.len(),
        text.subrange(start, start + t.len()) == t,
        forall|j: int| 0 <= j < t.len() ==> is_cjk(#[trigger] t[j]),
        token_run(text, start).cjk.len() == 0,
    ensures
        token_run(text, n).cjk == t.take(n - start),
    decreases n - start,
{
    if n == start {
        assert(t.take(0) =~= Seq::<char>::empty());
    } else {
        lemma_cjk_run_read(text, start, t, n - 1);
        let c = text[n - 1];
        assert(c == t[n - 1 - start]);
        assert(is_cjk(c));
        assert(!(is_ascii_alnum(c) || c == '_'));
        assert(t.take(n - 1 - start).push(c) =~= t.take(n - start));
    }
}

/// Before a run of CJK ideographs that follows no other, no run is open.
proof fn lemma_no_open_run(text: Seq<char>, start: int)
    requires
        0 <= start <= text.len(),
        start == 0 || !is_cjk(text[start - 1]),
    ensures
        token_run(text, start).cjk.len() == 0,
{
}

proof fn lemma_cjk_not_space(x: Seq<char>)
    requires
        forall|j: int| 0 <= j < x.len() ==> is_cjk(#[trigger] x[j]),
    ensures
        trim(x) == x,
{
    if x.len() > 0 {
        assert(!is_white_space(x[0]));
        assert(trim_start(x) == x);
        assert(!is_white_space(x.last()));
    }
}

proof fn lemma_utf8_at_least_chars(x: Seq<char>)
    ensures
        vstd::utf8::encode_utf8(x).len() >= x.len(),
    decreases x.len(),
{
    if x.len() > 0 {
        lemma_utf8_at_least_chars(x.drop_first());
        assert(vstd::utf8::encode_scalar(x[0] as u32).len() >= 1);
    }
}

proof fn lemma_dedupe_keeps(items: Seq<Seq<char>>, j: int, n: int)
    requires
        0 <= j < n <= items.len(),
        trim(items[j]) == items[j],
        vstd::utf8::encode_utf8(items[j]).len() >= 2,
    ensures
        dedupe_upto(items, n).contains(items[j]),
    decreases n,
{
    let prev = dedupe_upto(items, n - 1);
    if n - 1 == j {
        if !prev.contains(items[j]) {
            assert(dedupe_upto(items, n) == prev.push(items[j]));
            assert(prev.push(items[j])[prev.len() as int] == items[j]);
        }
    } else {
        lemma_dedupe_keeps(items, j, n - 1);
        let k = choose|k: int| 0 <= k < prev.len() && prev[k] == items[j];
        let clean = trim(items[n - 1]);
        if !(vstd::utf8::encode_utf8(clean).len() < 2 || prev.contains(clean)) {
            assert(prev.push(clean)[k] == items[j]);
        }
    }
}

/// The list of tokens of a text before duplicates are dropped.
pub open spec fn raw_tokens(text: Seq<char>) -> Seq<Seq<char>> {
    let st = token_run(text, text.len() as int);
    flush_cjk(flush_ascii(st), st.cjk)
}

proof fn lemma_piece_in_run_tokens(t: Seq<char>, size: int, i: int) -> (p: int)
    requires
        2 <= size <= 4,
        0 <= i,
        i + size <= t.len(),
    ensures
        0 <= p < cjk_tokens(t).len(),
        cjk_tokens(t)[p] == t.subrange(i, i + size),
{
    let ct = cjk_tokens(t);
    let w2 = windows(t, 2);
    let w3 = windows(t, 3);
    let w4 = windows(t, 4);
    let whole: Seq<Seq<char>> = seq![t];
    assert(ct == whole + w2 + w3 + w4);
    if size == 2 {
        assert(w2[i] == t.subrange(i, i + size));
        assert(ct[1 + i] == w2[i]);
        1 + i
    } else if size == 3 {
        assert(w3[i] == t.subrange(i, i + size));
        assert(ct[1 + w2.len() + i] == w3[i]);
        1 + w2.len() + i
    } else {
        assert(w4[i] == t.subrange(i, i + size));
        assert(ct[1 + w2.len() + w3.len() + i] == w4[i]);
        1 + w2.len() + w3.len() + i
    }
}

/// The tokens of a CJK run stand together in the token list of the text.
#[verifier::rlimit(40)]
proof fn lemma_run_tokens_listed(a: Seq<char>, t: Seq<char>, b: Seq<char>) -> (off: int)
    requires
        t.len() > 0,
        forall|j: int| 0 <= j < t.len() ==> is_cjk(#[trigger] t[j]),
        a.len() == 0 || !is_cjk(a.last()),
        b.len() == 0 || !is_cjk(b[0]),
    ensures
        0 <= off,
        off + cjk_tokens(t).len() <= raw_tokens(a + t + b).len(),
        forall|p: int|
            0 <= p < cjk_tokens(t).len() ==> raw_tokens(a + t + b)[off + p] == #[trigger] cjk_tokens(
                t,
            )[p],
{
    let text = a + t + b;
    let start = a.len() as int;
    let e = start + t.len();
    let ct = cjk_tokens(t);
    assert(text.subrange(start, e) =~= t);
    if start > 0 {
        assert(text[start - 1] == a.last());
    }
    lemma_no_open_run(text, start);
    lemma_cjk_run_read(text, start, t, e);
    assert(t.take(t.len() as int) =~= t);
    let st = token_run(text, e);
    assert(st.cjk == t);
    let list = raw_tokens(text);
    let all_n = text.len() as int;
    let fin = token_run(text, all_n);
    if b.len() == 0 {
        assert(all_n == e);
        let fa = flush_ascii(st);
        assert(list == fa + ct);
        fa.len() as int
    } else {
        let c = text[e];
        assert(c == b[0]);
        let st1 = token_run(text, e + 1);
        assert(st1 == token_step(st, c));
        let pre = if is_ascii_alnum(c) || c == '_' {
            st.tokens
        } else {
            flush_ascii(st)
        };
        assert(st1.tokens == pre + ct);
        lemma_run_keeps_tokens(text, e + 1, all_n);
        lemma_flush_ascii_prefix(fin);
        lemma_flush_cjk_prefix(flush_ascii(fin), fin.cjk);
        lemma_prefix_trans(st1.tokens, fin.tokens, flush_ascii(fin));
        lemma_prefix_trans(st1.tokens, flush_ascii(fin), list);
        assert forall|p: int| 0 <= p < ct.len() implies list[pre.len() + p] == #[trigger] ct[p] by {
            assert(list.take(st1.tokens.len() as int)[pre.len() + p] == st1.tokens[pre.len() + p]);
        }
        pre.len() as int
    }
}

/// The tokens of a text hold every piece of 2, 3 or 4 characters of each
/// run of CJK ideographs in it (a run is not preceded or followed by
/// another ideograph).
pub proof fn law_cjk_runs_give_all_short_pieces(
    a: Seq<char>,
    t: Seq<char>,
    b: Seq<char>,
    size: int,
    i: int,
)
    requires
        forall|j: int| 0 <= j < t.len() ==> is_cjk(#[trigger] t[j]),
        a.len() == 0 || !is_cjk(a.last()),
        b.len() == 0 || !is_cjk(b[0]),
        2 <= size <= 4,
        0 <= i,
        i + size <= t.len(),
    ensures
        tokens_of(a + t + b).contains(t.subrange(i, i + size)),
{
    let x = t.subrange(i, i + size);
    let p = lemma_piece_in_run_tokens(t, size, i);
    let off = lemma_run_tokens_listed(a, t, b);
    let list = raw_tokens(a + t + b);
    assert(list[off + p] == x);
    assert(forall|j: int| 0 <= j < x.len() ==> is_cjk(#[trigger] x[j])) by {
        assert forall|j: int| 0 <= j < x.len() implies is_cjk(#[trigger] x[j]) by {
            assert(x[j] == t[i + j]);
        }
    }
    lemma_cjk_not_space(x);
    lemma_utf8_at_least_chars(x);
    lemma_dedupe_keeps(list, off + p, list.len() as int);
}

} // verus!
