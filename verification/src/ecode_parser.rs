//! The text form of EasyLanguage projects (`.e.txt` files): what a source
//! file declares, the project map given to an agent, the pre-check before a
//! project is turned back into an `.e` file, and the results and command
//! lines of the conversion and compiler tools.
use vstd::prelude::*;
use crate::encoding::{codec_len_ok, decode_text_bytes, decode_tool_output_with_preference, file_text, tool_output_text};
use crate::text::{
    lemma_text_lt_asymmetric, lemma_text_lt_irreflexive, lemma_text_lt_total,
    lemma_text_lt_transitive, text_less, text_lt, is_permutation, key_lt, lemma_permutation_onto, sort_order,
    append_decimal, decimal, join, join_chars, lf_to_crlf, lf_to_crlf_exec, normalize_newlines,
    normalize_newlines_exec, replace_char, replace_char_exec, split_char, split_char_exec,
    append_chars, append_str, chars_eq, chars_of, contains, contains_item, contains_str, ends_with,
    ends_with_str, eq_str, has_char, is_blank, is_white_space, is_whitespace, lines, lines_of,
    starts_with, starts_with_str, str_views, string_of, strip_start_set, strip_start_set_chars,
    sub_chars, to_char_vecs, to_strings, trim, trim_chars, trim_matches_set,
    trim_matches_set_chars, trim_start, trim_start_chars, views, index_of_char,
    lemma_index_of_char, trim_end,
};

verus! {

// ---------------------------------------------------------------------------
// Result records
// ---------------------------------------------------------------------------

/// A JSON value, carried through unread.
#[verifier::external_type_specification]
#[verifier::external_body]
pub struct ExJsonValue(serde_json::Value);

/// What the parser made of an `.e` / `.ec` file.
#[derive(Debug)]
pub struct ParseResult {
    pub success: bool,
    pub output: String,
    /// The summary the parser may write beside its output, as JSON.
    pub summary: Option<serde_json::Value>,
    pub error: Option<String>,
}

#[derive(Debug)]
pub struct CompileResult {
    pub success: bool,
    pub stdout: String,
    pub stderr: String,
    pub output_path: Option<String>,
}

#[derive(Debug)]
pub struct ECodeProjectResult {
    pub success: bool,
    pub stdout: String,
    pub stderr: String,
    pub source_path: Option<String>,
    pub ecode_dir: Option<String>,
    pub output_path: Option<String>,
    pub files: Vec<String>,
}

#[derive(Debug)]
pub struct ECodeSubprogramSummary {
    pub name: String,
    pub signature: String,
    pub line: usize,
    pub line_count: usize,
    pub locals: Vec<String>,
    pub calls: Vec<String>,
}

#[derive(Debug)]
pub struct ECodeSourceFileSummary {
    pub path: String,
    pub relative_path: String,
    pub kind: String,
    pub chars: usize,
    pub lines: usize,
    pub support_libraries: Vec<String>,
    pub assembly: Option<String>,
    pub assembly_variables: Vec<String>,
    pub subprograms: Vec<ECodeSubprogramSummary>,
}

#[derive(Debug)]
pub struct ECodeProjectMapResult {
    pub success: bool,
    pub ecode_dir: String,
    pub source_file_count: usize,
    pub skipped_module_file_count: usize,
    pub support_libraries: Vec<String>,
    pub assemblies: Vec<String>,
    pub entrypoints: Vec<String>,
    pub recommended_read_order: Vec<String>,
    pub source_files: Vec<ECodeSourceFileSummary>,
    pub summary: String,
}

// ---------------------------------------------------------------------------
// Small list and line helpers
// ---------------------------------------------------------------------------

/// `items` with `value` added at the end, unless it is blank, already there,
/// or `items` already holds `limit` entries.
pub open spec fn push_limited(items: Seq<Seq<char>>, value: Seq<char>, limit: nat) -> Seq<
    Seq<char>,
> {
    if trim(value).len() == 0 || items.contains(value) || items.len() >= limit {
        items
    } else {
        items.push(value)
    }
}

pub fn push_limited_chars(items: &mut Vec<Vec<char>>, value: Vec<char>, limit: usize)
    ensures
        views(final(items)@) == push_limited(views(old(items)@), value@, limit as nat),
{
    if is_blank(value.as_slice()) || contains_item(items, value.as_slice()) || items.len()
        >= limit {
        return ;
    }
    let ghost before = items@;
    items.push(value);
    assert(views(items@) =~= views(before).push(value@));
}

/// Adds `value` to `items` unless it is blank, already there, or `items`
/// is full.
pub fn push_limited_unique(items: &mut Vec<String>, value: String, limit: usize)
    ensures
        str_views(final(items)@) == push_limited(str_views(old(items)@), value@, limit as nat),
{
    let cs = chars_of(value.as_str());
    let list = to_char_vecs(items);
    if is_blank(cs.as_slice()) || contains_item(&list, cs.as_slice()) || items.len() >= limit {
        return ;
    }
    let ghost before = items@;
    items.push(value);
    assert(str_views(items@) =~= str_views(before).push(cs@));
}

/// The rest of a line after `prefix`, trimmed, when the line (without its
/// leading whitespace) starts with `prefix`.
pub open spec fn after_prefix_spec(line: Seq<char>, prefix: Seq<char>) -> Option<Seq<char>> {
    let t = trim_start(line);
    if starts_with(t, prefix) {
        Some(trim(t.skip(prefix.len() as int)))
    } else {
        None
    }
}

fn after_prefix_chars(line: &[char], prefix: &str) -> (res: Option<Vec<char>>)
    ensures
        match res {
            Some(r) => after_prefix_spec(line@, prefix@) == Some(r@),
            None => after_prefix_spec(line@, prefix@) is None,
        },
{
    let t = trim_start_chars(line);
    let p = chars_of(prefix);
    if starts_with_chars_vec(&t, &p) {
        let rest = sub_chars(t.as_slice(), p.len(), t.len());
        assert(rest@ == t@.skip(p@.len() as int));
        Some(trim_chars(rest.as_slice()))
    } else {
        None
    }
}

fn starts_with_chars_vec(s: &Vec<char>, p: &Vec<char>) -> (res: bool)
    ensures
        res == starts_with(s@, p@),
        res ==> p.len() <= s.len(),
{
    crate::text::starts_with_chars(s.as_slice(), p.as_slice())
}

/// `line.trim_start().strip_prefix(prefix).map(str::trim)`.
pub fn after_prefix(line: &str, prefix: &str) -> (res: Option<String>)
    ensures
        match res {
            Some(r) => after_prefix_spec(line@, prefix@) == Some(r@),
            None => after_prefix_spec(line@, prefix@) is None,
        },
{
    match after_prefix_chars(chars_of(line).as_slice(), prefix) {
        Some(r) => Some(string_of(r.as_slice())),
        None => None,
    }
}

/// The position of the first `','` or `'，'`, or the length.
pub open spec fn first_comma(s: Seq<char>) -> int
    decreases s.len(),
{
    if s.len() == 0 {
        0
    } else if s[0] == ',' || s[0] == '，' {
        0
    } else {
        1 + first_comma(s.drop_first())
    }
}

pub proof fn lemma_first_comma(s: Seq<char>)
    ensures
        0 <= first_comma(s) <= s.len(),
    decreases s.len(),
{
    if s.len() > 0 && !(s[0] == ',' || s[0] == '，') {
        lemma_first_comma(s.drop_first());
    }
}

/// The name in a signature tail: the part before the first comma (ASCII or
/// full width), trimmed.
pub open spec fn signature_name(tail: Seq<char>) -> Seq<char> {
    trim(tail.take(first_comma(tail)))
}

fn signature_name_chars(tail: &[char]) -> (out: Vec<char>)
    ensures
        out@ == signature_name(tail@),
{
    let mut i: usize = 0;
    assert(tail@.skip(0) == tail@);
    while i < tail.len() && tail[i] != ',' && tail[i] != '，'
        invariant
            i <= tail.len(),
            first_comma(tail@) == i + first_comma(tail@.skip(i as int)),
        decreases tail.len() - i,
    {
        assert(tail@.skip(i as int).drop_first() == tail@.skip(i + 1));
        i += 1;
    }
    proof {
        lemma_first_comma(tail@.skip(i as int));
    }
    let head = sub_chars(tail, 0, i);
    assert(head@ == tail@.take(i as int));
    trim_chars(head.as_slice())
}

/// `tail.split([',', '，']).next().trim()`.
pub fn split_e_signature_name(signature_tail: &str) -> (out: String)
    ensures
        out@ == signature_name(signature_tail@),
{
    proof {
        assert(signature_tail@.skip(0) == signature_tail@);
    }
    string_of(signature_name_chars(chars_of(signature_tail).as_slice()).as_slice())
}

// ---------------------------------------------------------------------------
// Calls made on a line
// ---------------------------------------------------------------------------

/// Characters that separate words when looking for the called name.
pub open spec fn is_call_separator(c: char) -> bool {
    is_white_space(c) || c == '＝' || c == '=' || c == '+' || c == '＋'
}

fn is_call_separator_exec(c: char) -> (res: bool)
    ensures
        res == is_call_separator(c),
{
    is_whitespace(c) || c == '＝' || c == '=' || c == '+' || c == '＋'
}

/// `s` without trailing separators.
pub open spec fn drop_trailing_separators(s: Seq<char>) -> Seq<char>
    decreases s.len(),
{
    if s.len() > 0 && is_call_separator(s.last()) {
        drop_trailing_separators(s.drop_last())
    } else {
        s
    }
}

/// The longest suffix of `s` without separators.
pub open spec fn last_run(s: Seq<char>) -> Seq<char>
    decreases s.len(),
{
    if s.len() > 0 && !is_call_separator(s.last()) {
        last_run(s.drop_last()).push(s.last())
    } else {
        seq![]
    }
}

/// The last word of `s` (its last non-empty run without separators).
pub open spec fn last_word(s: Seq<char>) -> Seq<char> {
    last_run(drop_trailing_separators(s))
}

/// Punctuation trimmed from both ends of a called name.
pub open spec fn call_punctuation() -> Seq<char> {
    seq!['.', ':', '：', '(', '（']
}

/// The name called before an opening bracket at `pos`: the last word of
/// the text before it, trimmed, with punctuation trimmed from its ends.
pub open spec fn call_candidate(line: Seq<char>, pos: int) -> Seq<char> {
    trim_matches_set(trim(last_word(line.take(pos))), call_punctuation())
}

pub open spec fn is_cjk(c: char) -> bool {
    '\u{4e00}' <= c && c <= '\u{9fff}'
}

pub open spec fn has_cjk(s: Seq<char>) -> bool {
    exists|i: int| 0 <= i < s.len() && is_cjk(s[i])
}

/// A candidate counts as a call when it is non-empty, does not start with
/// `'.'`, has at most 40 characters and holds `'_'`, `'.'` or a CJK
/// ideograph.
pub open spec fn is_call_name(c: Seq<char>) -> bool {
    &&& c.len() > 0
    &&& c[0] != '.'
    &&& c.len() <= 40
    &&& (c.contains('_') || c.contains('.') || has_cjk(c))
}

/// The positions at or after `i` where the bracket marker `m` is found,
/// each search starting after the previous match.
pub open spec fn marker_positions(line: Seq<char>, m: Seq<char>, i: int) -> Seq<int>
    decreases line.len() + 1 - i,
{
    if m.len() == 0 || i < 0 {
        seq![]
    } else {
        proof {
            crate::text::lemma_find_from(line, m, i);
        }
        match crate::text::find_from(line, m, i) {
            Some(k) => if k >= i {
                seq![k] + marker_positions(line, m, k + m.len())
            } else {
                seq![]
            },
            None => seq![],
        }
    }
}

/// `calls` after the candidates found at `positions` were added.
pub open spec fn add_calls(line: Seq<char>, positions: Seq<int>, calls: Seq<Seq<char>>) -> Seq<
    Seq<char>,
>
    decreases positions.len(),
{
    if positions.len() == 0 {
        calls
    } else {
        let c = call_candidate(line, positions[0]);
        let next = if is_call_name(c) {
            push_limited(calls, c, 16)
        } else {
            calls
        };
        add_calls(line, positions.drop_first(), next)
    }
}

/// The calls recorded for a line: names before `" ("` and then before
/// `"（"`, at most 16 distinct ones in all.
pub open spec fn line_calls(line: Seq<char>, calls: Seq<Seq<char>>) -> Seq<Seq<char>> {
    let after_ascii = add_calls(line, marker_positions(line, " ("@, 0), calls);
    add_calls(line, marker_positions(line, "（"@, 0), after_ascii)
}

fn last_word_chars(s: &[char]) -> (out: Vec<char>)
    ensures
        out@ == last_word(s@),
{
    let mut e: usize = s.len();
    assert(s@.take(s.len() as int) == s@);
    while e > 0 && is_call_separator_exec(s[e - 1])
        invariant
            e <= s.len(),
            drop_trailing_separators(s@) == drop_trailing_separators(s@.take(e as int)),
        decreases e,
    {
        assert(s@.take(e as int).drop_last() == s@.take(e as int - 1));
        e -= 1;
    }
    proof {
        lemma_drop_trailing_stops(s@.take(e as int));
    }
    let mut b: usize = e;
    assert(s@.subrange(e as int, e as int).len() == 0);
    while b > 0 && !is_call_separator_exec(s[b - 1])
        invariant
            b <= e <= s.len(),
            last_run(s@.take(e as int)) == last_run(s@.take(b as int)) + s@.subrange(
                b as int,
                e as int,
            ),
        decreases b,
    {
        assert(s@.take(b as int).drop_last() == s@.take(b as int - 1));
        assert(s@.subrange(b - 1, e as int) == seq![s@[b - 1]] + s@.subrange(b as int, e as int));
        proof {
            i_assoc(last_run(s@.take(b as int - 1)), s@[b - 1], s@.subrange(b as int, e as int));
        }
        b -= 1;
    }
    assert(last_run(s@.take(b as int)) == Seq::<char>::empty());
    assert(Seq::<char>::empty() + s@.subrange(b as int, e as int) == s@.subrange(
        b as int,
        e as int,
    ));
    sub_chars(s, b, e)
}

proof fn i_assoc(a: Seq<char>, c: char, b: Seq<char>)
    ensures
        a.push(c) + b == a + (seq![c] + b),
{
    assert(a.push(c) + b =~= a + (seq![c] + b));
}

proof fn lemma_drop_trailing_stops(s: Seq<char>)
    ensures
        s.len() == 0 || !is_call_separator(s.last()) ==> drop_trailing_separators(s) == s,
{
}

fn cjk_in(s: &[char]) -> (res: bool)
    ensures
        res == has_cjk(s@),
{
    let mut i: usize = 0;
    while i < s.len()
        invariant
            i <= s.len(),
            forall|j: int| 0 <= j < i ==> !is_cjk(s@[j]),
        decreases s.len() - i,
    {
        if '\u{4e00}' <= s[i] && s[i] <= '\u{9fff}' {
            return true;
        }
        i += 1;
    }
    false
}

fn is_call_name_exec(c: &[char]) -> (res: bool)
    ensures
        res == is_call_name(c@),
{
    c.len() > 0 && c[0] != '.' && c.len() <= 40 && (has_char(c, '_') || has_char(c, '.')
        || cjk_in(c))
}

fn add_calls_for_marker(line: &[char], marker: &[char], calls: &mut Vec<Vec<char>>)
    requires
        marker.len() > 0,
    ensures
        views(final(calls)@) == add_calls(
            line@,
            marker_positions(line@, marker@, 0),
            views(old(calls)@),
        ),
{
    let mut start: usize = 0;
    let ghost total = marker_positions(line@, marker@, 0);
    while start <= line.len()
        invariant
            marker.len() > 0,
            total == marker_positions(line@, marker@, 0),
            add_calls(line@, total, views(old(calls)@)) == add_calls(
                line@,
                marker_positions(line@, marker@, start as int),
                views(calls@),
            ),
        decreases line.len() + 1 - start,
    {
        let ghost calls_before = views(calls@);
        match crate::text::find_from_exec(line, marker, start) {
            Some(k) => {
                proof {
                    crate::text::lemma_find_from(line@, marker@, start as int);
                }
                let ghost rest = marker_positions(line@, marker@, k + marker@.len());
                assert(marker_positions(line@, marker@, start as int) == seq![k as int] + rest);
                assert((seq![k as int] + rest).drop_first() == rest);
                let before = sub_chars(line, 0, k);
                assert(before@ == line@.take(k as int));
                let word = last_word_chars(before.as_slice());
                let trimmed = trim_chars(word.as_slice());
                let punct = vec!['.', ':', '：', '(', '（'];
                assert(punct@ == call_punctuation());
                let candidate = trim_matches_set_chars(trimmed.as_slice(), punct.as_slice());
                assert(candidate@ == call_candidate(line@, k as int));
                if is_call_name_exec(candidate.as_slice()) {
                    push_limited_chars(calls, candidate, 16);
                }
                assert(add_calls(line@, seq![k as int] + rest, calls_before) == add_calls(
                    line@,
                    rest,
                    views(calls@),
                ));
                start = k + marker.len();
            },
            None => {
                assert(marker_positions(line@, marker@, start as int) == Seq::<int>::empty());
                assert(add_calls(line@, Seq::<int>::empty(), views(calls@)) == views(calls@));
                return ;
            },
        }
    }
    proof {
        assert(marker_positions(line@, marker@, start as int) == Seq::<int>::empty()) by {
            crate::text::lemma_find_from(line@, marker@, start as int);
        }
    }
}

fn line_calls_chars(line: &[char], calls: &mut Vec<Vec<char>>)
    ensures
        views(final(calls)@) == line_calls(line@, views(old(calls)@)),
{
    let m1 = chars_of(" (");
    let m2 = chars_of("（");
    proof {
        reveal_strlit(" (");
        reveal_strlit("（");
    }
    add_calls_for_marker(line, m1.as_slice(), calls);
    add_calls_for_marker(line, m2.as_slice(), calls);
}

/// Records the names called on a line (see `line_calls`).
pub fn collect_line_calls(line: &str, calls: &mut Vec<String>)
    ensures
        str_views(final(calls)@) == line_calls(line@, str_views(old(calls)@)),
{
    let mut list = to_char_vecs(calls);
    line_calls_chars(chars_of(line).as_slice(), &mut list);
    *calls = to_strings(&list);
}

// ---------------------------------------------------------------------------
// What a source file declares
// ---------------------------------------------------------------------------

/// A subprogram as the scan of a file records it.
pub struct SubprogramModel {
    pub name: Seq<char>,
    pub signature: Seq<char>,
    pub line: nat,
    pub locals: Seq<Seq<char>>,
    pub calls: Seq<Seq<char>>,
}

/// What the scan of a file has found so far.
pub struct SourceScan {
    pub support_libraries: Seq<Seq<char>>,
    pub assembly_variables: Seq<Seq<char>>,
    pub assembly: Option<Seq<char>>,
    pub subprograms: Seq<SubprogramModel>,
}

pub open spec fn empty_scan() -> SourceScan {
    SourceScan {
        support_libraries: seq![],
        assembly_variables: seq![],
        assembly: None,
        subprograms: seq![],
    }
}

/// One line of a source file, numbered `index` from 0, added to the scan:
/// `.支持库` lines name support libraries (at most 80), `.程序集变量` lines
/// assembly variables (at most 80), a `.程序集` line the assembly, a
/// `.子程序` line starts a subprogram, `.局部变量` lines add locals (at
/// most 40) to the current subprogram, and any other line inside a
/// subprogram adds the names it calls.
pub open spec fn scan_line(st: SourceScan, line: Seq<char>, index: nat) -> SourceScan {
    if after_prefix_spec(line, ".支持库"@) is Some {
        SourceScan {
            support_libraries: push_limited(
                st.support_libraries,
                after_prefix_spec(line, ".支持库"@)->0,
                80,
            ),
            ..st
        }
    } else if after_prefix_spec(line, ".程序集变量"@) is Some {
        SourceScan {
            assembly_variables: push_limited(
                st.assembly_variables,
                after_prefix_spec(line, ".程序集变量"@)->0,
                80,
            ),
            ..st
        }
    } else if after_prefix_spec(line, ".程序集"@) is Some {
        if !starts_with(trim_start(line), ".程序集变量"@) {
            SourceScan {
                assembly: Some(signature_name(after_prefix_spec(line, ".程序集"@)->0)),
                ..st
            }
        } else {
            st
        }
    } else if after_prefix_spec(line, ".子程序"@) is Some {
        SourceScan {
            subprograms: st.subprograms.push(
                SubprogramModel {
                    name: signature_name(after_prefix_spec(line, ".子程序"@)->0),
                    signature: trim(line),
                    line: index + 1,
                    locals: seq![],
                    calls: seq![],
                },
            ),
            ..st
        }
    } else if after_prefix_spec(line, ".局部变量"@) is Some {
        if st.subprograms.len() > 0 {
            let cur = st.subprograms.last();
            SourceScan {
                subprograms: st.subprograms.update(
                    st.subprograms.len() - 1,
                    SubprogramModel {
                        locals: push_limited(cur.locals, after_prefix_spec(line, ".局部变量"@)->0, 40),
                        ..cur
                    },
                ),
                ..st
            }
        } else {
            st
        }
    } else if st.subprograms.len() > 0 {
        let cur = st.subprograms.last();
        SourceScan {
            subprograms: st.subprograms.update(
                st.subprograms.len() - 1,
                SubprogramModel { calls: line_calls(line, cur.calls), ..cur },
            ),
            ..st
        }
    } else {
        st
    }
}

/// The scan of the first `n` lines.
pub open spec fn scan_lines(ls: Seq<Seq<char>>, n: int) -> SourceScan
    decreases n,
{
    if n <= 0 || n > ls.len() {
        empty_scan()
    } else {
        scan_line(scan_lines(ls, n - 1), ls[n - 1], (n - 1) as nat)
    }
}

/// `a - b` clamped at 0.
pub open spec fn sat_sub(a: nat, b: nat) -> nat {
    if a >= b {
        (a - b) as nat
    } else {
        0
    }
}

/// The number of lines of the `i`-th subprogram: up to the line before the
/// next subprogram, or to the end of the file.
pub open spec fn subprogram_line_count(subs: Seq<SubprogramModel>, i: int, line_total: nat) -> nat {
    let end = if i + 1 < subs.len() {
        sat_sub(subs[i + 1].line, 1)
    } else {
        line_total
    };
    let n = sat_sub(end, subs[i].line) + 1;
    if n > usize::MAX {
        usize::MAX as nat
    } else {
        n
    }
}

/// The subprograms a scan of the first `n` lines finds start at strictly
/// increasing lines, all within those `n` lines.
proof fn lemma_scan_lines_increase(ls: Seq<Seq<char>>, n: int)
    requires
        0 <= n <= ls.len(),
    ensures
        ({
            let subs = scan_lines(ls, n).subprograms;
            &&& forall|i: int| 0 <= i < subs.len() ==> 1 <= #[trigger] subs[i].line <= n
            &&& forall|i: int, j: int|
                0 <= i < j < subs.len() ==> #[trigger] subs[i].line < #[trigger] subs[j].line
        }),
    decreases n,
{
    if n > 0 {
        lemma_scan_lines_increase(ls, n - 1);
        let prev = scan_lines(ls, n - 1).subprograms;
        let subs = scan_lines(ls, n).subprograms;
        assert(forall|i: int| 0 <= i < subs.len() ==> #[trigger] subs[i].line == (if i < prev.len() {
            prev[i].line
        } else {
            n as nat
        }));
        assert(subs.len() >= prev.len());
        assert(subs.len() <= prev.len() + 1);
    }
}

/// The subprograms of a file do not overlap: each one that another follows
/// ends on the line before that one starts, and the last one ends at the
/// last line of the file.
pub proof fn law_subprograms_do_not_overlap(content: Seq<char>, i: int)
    requires
        0 <= i < scan_lines(lines(content), lines(content).len() as int).subprograms.len(),
    ensures
        ({
            let ls = lines(content);
            let subs = scan_lines(ls, ls.len() as int).subprograms;
            let count = subprogram_line_count(subs, i, ls.len());
            &&& count >= 1
            &&& i + 1 < subs.len() ==> subs[i].line + count - 1 < subs[i + 1].line
            &&& i + 1 < subs.len() && subs[i + 1].line - subs[i].line <= usize::MAX ==> subs[i].line
                + count == subs[i + 1].line
            &&& i + 1 == subs.len() && ls.len() - subs[i].line + 1 <= usize::MAX ==> subs[i].line
                + count - 1 == ls.len()
        }),
{
    let ls = lines(content);
    lemma_scan_lines_increase(ls, ls.len() as int);
    let subs = scan_lines(ls, ls.len() as int).subprograms;
    if i + 1 < subs.len() {
        assert(subs[i].line < subs[i + 1].line);
    }
    assert(1 <= subs[i].line <= ls.len());
}

/// A subprogram record agrees with the `i`-th subprogram of a scan.
pub open spec fn subprogram_matches(
    s: ECodeSubprogramSummary,
    subs: Seq<SubprogramModel>,
    i: int,
    line_total: nat,
) -> bool {
    &&& s.name@ == subs[i].name
    &&& s.signature@ == subs[i].signature
    &&& s.line == subs[i].line
    &&& s.line_count == subprogram_line_count(subs, i, line_total)
    &&& str_views(s.locals@) == subs[i].locals
    &&& str_views(s.calls@) == subs[i].calls
}

/// The working record of a subprogram while a file is scanned.
struct SubprogramWork {
    name: Vec<char>,
    signature: Vec<char>,
    line: usize,
    locals: Vec<Vec<char>>,
    calls: Vec<Vec<char>>,
}

impl SubprogramWork {
    spec fn model(&self) -> SubprogramModel {
        SubprogramModel {
            name: self.name@,
            signature: self.signature@,
            line: self.line as nat,
            locals: views(self.locals@),
            calls: views(self.calls@),
        }
    }
}

spec fn models(v: Seq<SubprogramWork>) -> Seq<SubprogramModel> {
    v.map_values(|w: SubprogramWork| w.model())
}

proof fn lemma_models_push(v: Seq<SubprogramWork>, w: SubprogramWork)
    ensures
        models(v.push(w)) == models(v).push(w.model()),
{
    assert(models(v.push(w)) =~= models(v).push(w.model()));
}

/// Summarises the text of one source file: its support libraries,
/// assembly, assembly variables and subprograms (see `scan_lines`), its
/// number of characters and of lines.
pub fn summarize_ecode_source_file(
    path: String,
    relative_path: String,
    kind: String,
    content: &str,
) -> (out: ECodeSourceFileSummary)
    ensures
        ({
            let ls = lines(content@);
            let st = scan_lines(ls, ls.len() as int);
            &&& out.path == path
            &&& out.relative_path == relative_path
            &&& out.kind == kind
            &&& out.chars == content@.len()
            &&& out.lines == ls.len()
            &&& str_views(out.support_libraries@) == st.support_libraries
            &&& str_views(out.assembly_variables@) == st.assembly_variables
            &&& (match out.assembly {
                Some(a) => st.assembly == Some(a@),
                None => st.assembly is None,
            })
            &&& out.subprograms@.len() == st.subprograms.len()
            &&& forall|i: int|
                0 <= i < out.subprograms@.len() ==> subprogram_matches(
                    #[trigger] out.subprograms@[i],
                    st.subprograms,
                    i,
                    ls.len() as nat,
                )
        }),
{
    let text = chars_of(content);
    let ls = lines_of(text.as_slice());
    let ghost all = views(ls@);
    let mut support: Vec<Vec<char>> = Vec::new();
    let mut asm_vars: Vec<Vec<char>> = Vec::new();
    let mut assembly: Option<Vec<char>> = None;
    let mut subs: Vec<SubprogramWork> = Vec::new();
    let mut index: usize = 0;
    while index < ls.len()
        invariant
            index <= ls.len(),
            all == views(ls@),
            ({
                let st = scan_lines(all, index as int);
                &&& views(support@) == st.support_libraries
                &&& views(asm_vars@) == st.assembly_variables
                &&& (match assembly {
                    Some(a) => st.assembly == Some(a@),
                    None => st.assembly is None,
                })
                &&& models(subs@) == st.subprograms
                &&& forall|j: int| 0 <= j < subs@.len() ==> #[trigger] subs@[j].line <= index
            }),
        decreases ls.len() - index,
    {
        let line = &ls[index];
        assert(line@ == all[index as int]);
        let ghost st = scan_lines(all, index as int);
        assert(scan_lines(all, index + 1) == scan_line(st, line@, index as nat));
        if let Some(name) = after_prefix_chars(line.as_slice(), ".支持库") {
            push_limited_chars(&mut support, name, 80);
        } else if let Some(name) = after_prefix_chars(line.as_slice(), ".程序集变量") {
            push_limited_chars(&mut asm_vars, name, 80);
        } else if let Some(name) = after_prefix_chars(line.as_slice(), ".程序集") {
            let t = trim_start_chars(line.as_slice());
            if !starts_with_str(t.as_slice(), ".程序集变量") {
                assembly = Some(signature_name_chars(name.as_slice()));
            }
        } else if let Some(tail) = after_prefix_chars(line.as_slice(), ".子程序") {
            let w = SubprogramWork {
                name: signature_name_chars(tail.as_slice()),
                signature: trim_chars(line.as_slice()),
                line: index + 1,
                locals: Vec::new(),
                calls: Vec::new(),
            };
            proof {
                lemma_models_push(subs@, w);
                assert(views(w.locals@) == Seq::<Seq<char>>::empty());
                assert(views(w.calls@) == Seq::<Seq<char>>::empty());
            }
            subs.push(w);
        } else if let Some(local) = after_prefix_chars(line.as_slice(), ".局部变量") {
            if subs.len() > 0 {
                let mut w = subs.pop().unwrap();
                let ghost rest = subs@;
                push_limited_chars(&mut w.locals, local, 40);
                proof {
                    lemma_models_push(rest, w);
                    assert(models(rest.push(w)) == st.subprograms.update(
                        st.subprograms.len() - 1,
                        SubprogramModel {
                            locals: push_limited(
                                st.subprograms.last().locals,
                                local@,
                                40,
                            ),
                            ..st.subprograms.last()
                        },
                    ));
                }
                subs.push(w);
            }
        } else if subs.len() > 0 {
            let mut w = subs.pop().unwrap();
            let ghost rest = subs@;
            line_calls_chars(line.as_slice(), &mut w.calls);
            proof {
                lemma_models_push(rest, w);
                assert(models(rest.push(w)) == st.subprograms.update(
                    st.subprograms.len() - 1,
                    SubprogramModel {
                        calls: line_calls(line@, st.subprograms.last().calls),
                        ..st.subprograms.last()
                    },
                ));
            }
            subs.push(w);
        }
        index += 1;
    }
    assert(all.len() == ls.len());
    let line_total = ls.len();
    let mut out_subs: Vec<ECodeSubprogramSummary> = Vec::new();
    let ghost final_models = models(subs@);
    let mut i: usize = 0;
    while i < subs.len()
        invariant
            i <= subs.len(),
            line_total == ls.len(),
            final_models == models(subs@),
            out_subs@.len() == i,
            forall|j: int| 0 <= j < subs@.len() ==> #[trigger] subs@[j].line <= line_total,
            forall|j: int|
                0 <= j < i ==> subprogram_matches(
                    #[trigger] out_subs@[j],
                    final_models,
                    j,
                    line_total as nat,
                ),
        decreases subs.len() - i,
    {
        let start = subs[i].line;
        let end = if i + 1 < subs.len() {
            subs[i + 1].line.saturating_sub(1)
        } else {
            line_total
        };
        let count = end.saturating_sub(start).saturating_add(1);
        let w = &subs[i];
        let summary = ECodeSubprogramSummary {
            name: string_of(w.name.as_slice()),
            signature: string_of(w.signature.as_slice()),
            line: w.line,
            line_count: count,
            locals: to_strings(&w.locals),
            calls: to_strings(&w.calls),
        };
        assert(final_models[i as int] == subs@[i as int].model());
        if i + 1 < subs.len() {
            assert(final_models[i + 1] == subs@[i + 1].model());
        }
        assert(subprogram_matches(summary, final_models, i as int, line_total as nat));
        out_subs.push(summary);
        i += 1;
    }
    ECodeSourceFileSummary {
        path,
        relative_path,
        kind,
        chars: text.len(),
        lines: ls.len(),
        support_libraries: to_strings(&support),
        assembly: match assembly {
            Some(a) => Some(string_of(a.as_slice())),
            None => None,
        },
        assembly_variables: to_strings(&asm_vars),
        subprograms: out_subs,
    }
}

// ---------------------------------------------------------------------------
// Source files and their names
// ---------------------------------------------------------------------------

/// The kind of a source file by its name.
pub open spec fn file_kind(name: Seq<char>) -> Seq<char> {
    if ends_with(name, ".form.e.txt"@) {
        "窗口程序集"@
    } else if ends_with(name, ".class.e.txt"@) {
        "类模块"@
    } else if ends_with(name, ".static.e.txt"@) {
        "程序集"@
    } else if name == "全局变量.e.txt"@ {
        "全局变量"@
    } else if name == "常量.e.txt"@ {
        "常量"@
    } else if name == "自定义类型.e.txt"@ {
        "自定义类型"@
    } else {
        "源码"@
    }
}

pub open spec fn opt_name(file_name: Option<String>) -> Seq<char> {
    match file_name {
        Some(n) => n@,
        None => seq![],
    }
}

/// The kind of a source file given its file name (none counts as empty).
pub fn ecode_file_kind(file_name: Option<String>) -> (out: String)
    ensures
        out@ == file_kind(opt_name(file_name)),
{
    let name = match file_name {
        Some(n) => chars_of(n.as_str()),
        None => Vec::new(),
    };
    let n = name.as_slice();
    if ends_with_str(n, ".form.e.txt") {
        "窗口程序集".to_owned()
    } else if ends_with_str(n, ".class.e.txt") {
        "类模块".to_owned()
    } else if ends_with_str(n, ".static.e.txt") {
        "程序集".to_owned()
    } else if eq_str(n, "全局变量.e.txt") {
        "全局变量".to_owned()
    } else if eq_str(n, "常量.e.txt") {
        "常量".to_owned()
    } else if eq_str(n, "自定义类型.e.txt") {
        "自定义类型".to_owned()
    } else {
        "源码".to_owned()
    }
}

/// Whether a directory with this name holds module sources (`模块`).
pub fn is_module_dir(file_name: Option<String>) -> (res: bool)
    ensures
        res == (file_name is Some && opt_name(file_name) == "模块"@),
{
    match file_name {
        Some(n) => eq_str(chars_of(n.as_str()).as_slice(), "模块"),
        None => false,
    }
}

/// Whether a file with this name is a text source (`*.e.txt`).
pub fn is_ecode_source_file(file_name: Option<String>) -> (res: bool)
    ensures
        res == (file_name is Some && ends_with(opt_name(file_name), ".e.txt"@)),
{
    match file_name {
        Some(n) => ends_with_str(chars_of(n.as_str()).as_slice(), ".e.txt"),
        None => false,
    }
}

/// A path relative to the project written with backslashes.
pub fn relative_path(stripped: &str) -> (out: String)
    ensures
        out@ == replace_char(stripped@, '/', '\\'),
{
    string_of(replace_char_exec(chars_of(stripped).as_slice(), '/', '\\').as_slice())
}

/// The reading order of a source file: global variables first, then window
/// assemblies, classes and static assemblies under `代码`, then the rest.
pub open spec fn read_rank(relative: Seq<char>) -> nat {
    let n = replace_char(relative, '/', '\\');
    if n == "全局变量.e.txt"@ || ends_with(n, "\\全局变量.e.txt"@) {
        0
    } else if contains(n, "\\代码\\"@) && ends_with(n, ".form.e.txt"@) {
        1
    } else if contains(n, "\\代码\\"@) && ends_with(n, ".class.e.txt"@) {
        2
    } else if contains(n, "\\代码\\"@) && ends_with(n, ".static.e.txt"@) {
        3
    } else {
        9
    }
}

pub fn ecode_read_rank(relative: &str) -> (rank: usize)
    ensures
        rank == read_rank(relative@),
{
    let n = replace_char_exec(chars_of(relative).as_slice(), '/', '\\');
    let s = n.as_slice();
    if eq_str(s, "全局变量.e.txt") || ends_with_str(s, "\\全局变量.e.txt") {
        return 0;
    }
    let in_code = contains_str(s, "\\代码\\");
    if in_code && ends_with_str(s, ".form.e.txt") {
        return 1;
    }
    if in_code && ends_with_str(s, ".class.e.txt") {
        return 2;
    }
    if in_code && ends_with_str(s, ".static.e.txt") {
        return 3;
    }
    9
}

/// How a module file is named in the project: its stem, or `模块` when it
/// has none; any name mentioning `精易` becomes `精易模块`.
pub open spec fn module_name(stem: Option<Seq<char>>) -> Seq<char> {
    let s = match stem {
        Some(x) => x,
        None => "模块"@,
    };
    if contains(s, "精易"@) {
        "精易模块"@
    } else {
        s
    }
}

pub fn module_display_name(stem: Option<String>) -> (out: String)
    ensures
        out@ == module_name(
            match stem {
                Some(x) => Some(x@),
                None => None,
            },
        ),
{
    let s = match stem {
        Some(x) => x,
        None => "模块".to_owned(),
    };
    if contains_str(chars_of(s.as_str()).as_slice(), "精易") {
        "精易模块".to_owned()
    } else {
        s
    }
}

// ---------------------------------------------------------------------------
// Code turned into a template project
// ---------------------------------------------------------------------------

/// Each non-blank line indented by four spaces, blank lines emptied.
pub open spec fn indent_lines(ls: Seq<Seq<char>>) -> Seq<Seq<char>> {
    ls.map_values(|l: Seq<char>| if trim(l).len() == 0 { seq![] } else { "    "@ + l })
}

/// Code as the startup subprogram of a template assembly, unless it is a
/// whole assembly already (it declares `.版本` and `.程序集`).
pub open spec fn template_code(code: Seq<char>) -> Seq<char> {
    let t = trim(code);
    if contains(t, ".版本"@) && contains(t, ".程序集"@) {
        t
    } else {
        ".版本 2\n\n.程序集 程序集1\n\n.子程序 _启动子程序, 整数型, , 本子程序在程序启动后最先执行\n\n"@
            + join(indent_lines(lines(t)), seq!['\n']) + "\n\n    返回 (0)"@
    }
}

pub fn normalize_e_code_for_template(code: &str) -> (out: String)
    ensures
        out@ == template_code(code@),
{
    let t = trim_chars(chars_of(code).as_slice());
    if contains_str(t.as_slice(), ".版本") && contains_str(t.as_slice(), ".程序集") {
        return string_of(t.as_slice());
    }
    let ls = lines_of(t.as_slice());
    let mut body_lines: Vec<Vec<char>> = Vec::new();
    let mut i: usize = 0;
    while i < ls.len()
        invariant
            i <= ls.len(),
            views(body_lines@) == indent_lines(views(ls@)).take(i as int),
        decreases ls.len() - i,
    {
        let line = if is_blank(ls[i].as_slice()) {
            Vec::new()
        } else {
            let mut l = chars_of("    ");
            append_chars(&mut l, ls[i].as_slice());
            l
        };
        let ghost before = body_lines@;
        body_lines.push(line);
        assert(views(body_lines@) =~= views(before).push(line@));
        assert(indent_lines(views(ls@)).take(i + 1) =~= indent_lines(views(ls@)).take(
            i as int,
        ).push(line@));
        i += 1;
    }
    assert(indent_lines(views(ls@)).take(ls.len() as int) == indent_lines(views(ls@)));
    let newline = vec!['\n'];
    assert(newline@ == seq!['\n']);
    let body = join_chars(&body_lines, newline.as_slice());
    let mut out = chars_of(
        ".版本 2\n\n.程序集 程序集1\n\n.子程序 _启动子程序, 整数型, , 本子程序在程序启动后最先执行\n\n",
    );
    append_chars(&mut out, body.as_slice());
    append_str(&mut out, "\n\n    返回 (0)");
    string_of(out.as_slice())
}

// ---------------------------------------------------------------------------
// Pre-check of variable declarations
// ---------------------------------------------------------------------------

/// A declaration line whose fifth comma separated field (the default value)
/// holds a text quote: `.全局变量`, `.程序集变量` and `.局部变量` may not
/// have one.
pub open spec fn has_initializer(line: Seq<char>) -> bool {
    &&& (starts_with(line, ".全局变量 "@) || starts_with(line, ".程序集变量 "@) || starts_with(
        line,
        ".局部变量 "@,
    ))
    &&& split_char(line, ',').len() > 4
    &&& ({
        let f = trim(split_char(line, ',')[4]);
        f.contains('"') || f.contains('“') || f.contains('”')
    })
}

proof fn lemma_split_after(x: Seq<char>, y: Seq<char>, c: char)
    requires
        !x.contains(c),
    ensures
        split_char(x + seq![c] + y, c) == seq![x] + split_char(y, c),
{
    let t = x + seq![c] + y;
    lemma_index_of_char(t, c);
    let k = index_of_char(t, c);
    if k < x.len() {
        assert(t[k] == x[k]);
    }
    if k > x.len() {
        assert(t[x.len() as int] == c);
    }
    assert(k == x.len());
    assert(t.take(k) =~= x);
    assert(t.skip(k + 1) =~= y);
}

proof fn lemma_split_first(x: Seq<char>, tail: Seq<char>, c: char)
    requires
        !x.contains(c),
        tail.len() == 0 || tail[0] == c,
    ensures
        split_char(x + tail, c).len() >= 1,
        split_char(x + tail, c)[0] == x,
{
    let t = x + tail;
    lemma_index_of_char(t, c);
    let k = index_of_char(t, c);
    if k < x.len() {
        assert(t[k] == x[k]);
    }
    if k > x.len() {
        assert(t[x.len() as int] == c);
    }
    assert(k == x.len());
    assert(t.take(k) =~= x);
    if tail.len() == 0 {
        assert(t =~= x);
    }
}

proof fn lemma_trim_start_keeps(s: Seq<char>, q: char)
    requires
        s.contains(q),
        !is_white_space(q),
    ensures
        trim_start(s).contains(q),
    decreases s.len(),
{
    if s.len() > 0 && is_white_space(s[0]) {
        let i = choose|i: int| 0 <= i < s.len() && s[i] == q;
        assert(i > 0);
        assert(s.drop_first()[i - 1] == q);
        lemma_trim_start_keeps(s.drop_first(), q);
    }
}

proof fn lemma_trim_end_keeps(s: Seq<char>, q: char)
    requires
        s.contains(q),
        !is_white_space(q),
    ensures
        trim_end(s).contains(q),
    decreases s.len(),
{
    if s.len() > 0 && is_white_space(s.last()) {
        let i = choose|i: int| 0 <= i < s.len() && s[i] == q;
        assert(i < s.len() - 1);
        assert(s.drop_last()[i] == q);
        lemma_trim_end_keeps(s.drop_last(), q);
    }
}

/// Each of the three declarations, `.全局变量`, `.程序集变量` and
/// `.局部变量`, is flagged when its fifth comma separated field (the
/// default value) holds a quote, whatever the other fields and whatever
/// follows that field.
pub proof fn law_declarations_with_defaults_are_flagged(
    keyword: Seq<char>,
    f0: Seq<char>,
    f1: Seq<char>,
    f2: Seq<char>,
    f3: Seq<char>,
    f4: Seq<char>,
    tail: Seq<char>,
)
    requires
        keyword == ".全局变量 "@ || keyword == ".程序集变量 "@ || keyword == ".局部变量 "@,
        !f0.contains(','),
        !f1.contains(','),
        !f2.contains(','),
        !f3.contains(','),
        !f4.contains(','),
        tail.len() == 0 || tail[0] == ',',
        f4.contains('"') || f4.contains('“') || f4.contains('”'),
    ensures
        has_initializer(
            keyword + f0 + seq![','] + f1 + seq![','] + f2 + seq![','] + f3 + seq![','] + f4 + tail,
        ),
{
    reveal_strlit(".全局变量 ");
    reveal_strlit(".程序集变量 ");
    reveal_strlit(".局部变量 ");
    let p0 = keyword + f0;
    assert(!keyword.contains(','));
    assert(!p0.contains(',')) by {
        if p0.contains(',') {
            let i = choose|i: int| 0 <= i < p0.len() && p0[i] == ',';
            if i < keyword.len() {
                assert(keyword[i] == ',');
            } else {
                assert(f0[i - keyword.len()] == ',');
            }
        }
    }
    let line = keyword + f0 + seq![','] + f1 + seq![','] + f2 + seq![','] + f3 + seq![','] + f4 + tail;
    let r4 = f4 + tail;
    let r3 = f3 + seq![','] + r4;
    let r2 = f2 + seq![','] + r3;
    let r1 = f1 + seq![','] + r2;
    assert(line =~= p0 + seq![','] + r1);
    lemma_split_after(p0, r1, ',');
    lemma_split_after(f1, r2, ',');
    lemma_split_after(f2, r3, ',');
    lemma_split_after(f3, r4, ',');
    lemma_split_first(f4, tail, ',');
    let parts = split_char(line, ',');
    assert(parts == seq![p0] + (seq![f1] + (seq![f2] + (seq![f3] + split_char(r4, ',')))));
    assert(parts.len() > 4);
    assert(parts[4] == f4);
    assert(line.take(keyword.len() as int) =~= keyword);
    assert(starts_with(line, keyword));
    assert(!is_white_space('"'));
    assert(!is_white_space('“'));
    assert(!is_white_space('”'));
    if f4.contains('"') {
        lemma_trim_start_keeps(f4, '"');
        lemma_trim_end_keeps(trim_start(f4), '"');
    } else if f4.contains('“') {
        lemma_trim_start_keeps(f4, '“');
        lemma_trim_end_keeps(trim_start(f4), '“');
    } else {
        lemma_trim_start_keeps(f4, '”');
        lemma_trim_end_keeps(trim_start(f4), '”');
    }
}

pub fn declaration_line_has_initializer(line: &str) -> (res: bool)
    ensures
        res == has_initializer(line@),
{
    let cs = chars_of(line);
    let s = cs.as_slice();
    if !(starts_with_str(s, ".全局变量 ") || starts_with_str(s, ".程序集变量 ") || starts_with_str(
        s,
        ".局部变量 ",
    )) {
        return false;
    }
    let fields = split_char_exec(s, ',');
    if fields.len() <= 4 {
        return false;
    }
    assert(views(fields@)[4] == fields@[4]@);
    let f = trim_chars(fields[4].as_slice());
    has_char(f.as_slice(), '"') || has_char(f.as_slice(), '“') || has_char(f.as_slice(), '”')
}

/// A line as the pre-check reads it: without leading byte order marks,
/// trimmed.
pub open spec fn precheck_line(line: Seq<char>) -> Seq<char> {
    trim(strip_start_set(line, seq!['\u{feff}']))
}

/// The finding for line `index` (from 0) of a file.
pub open spec fn declaration_finding(relative: Seq<char>, index: nat, line: Seq<char>) -> Seq<
    char,
> {
    relative + ":"@ + decimal(index + 1) + " 声明行包含默认值："@ + line
}

/// The findings for the first `n` lines.
pub open spec fn declaration_findings_spec(relative: Seq<char>, ls: Seq<Seq<char>>, n: int) -> Seq<
    Seq<char>,
>
    decreases n,
{
    if n <= 0 || n > ls.len() {
        seq![]
    } else {
        let prev = declaration_findings_spec(relative, ls, n - 1);
        let t = precheck_line(ls[n - 1]);
        if has_initializer(t) {
            prev.push(declaration_finding(relative, (n - 1) as nat, t))
        } else {
            prev
        }
    }
}

/// The pre-check findings of one source file: a line for each declaration
/// with a default value, naming the file and the line.
pub fn declaration_findings(relative: &str, text: &str) -> (out: Vec<String>)
    ensures
        ({
            let ls = lines(text@);
            str_views(out@) == declaration_findings_spec(relative@, ls, ls.len() as int)
        }),
{
    let ls = lines_of(chars_of(text).as_slice());
    let bom = vec!['\u{feff}'];
    let mut out: Vec<String> = Vec::new();
    let mut i: usize = 0;
    while i < ls.len()
        invariant
            i <= ls.len(),
            bom@ == seq!['\u{feff}'],
            str_views(out@) == declaration_findings_spec(relative@, views(ls@), i as int),
        decreases ls.len() - i,
    {
        assert(views(ls@)[i as int] == ls@[i as int]@);
        let stripped = strip_start_set_chars(ls[i].as_slice(), bom.as_slice());
        let t = trim_chars(stripped.as_slice());
        let ts = string_of(t.as_slice());
        if declaration_line_has_initializer(ts.as_str()) {
            let mut m = chars_of(relative);
            append_str(&mut m, ":");
            append_decimal(&mut m, i + 1);
            append_str(&mut m, " 声明行包含默认值：");
            append_chars(&mut m, t.as_slice());
            let ghost before = out@;
            out.push(string_of(m.as_slice()));
            assert(str_views(out@) =~= str_views(before).push(m@));
        }
        i += 1;
    }
    out
}

/// The pre-check findings of one source file read from its bytes: the text
/// is read as UTF-8 when it is valid UTF-8 and as GBK otherwise, as every
/// source file is, then checked as `declaration_findings` does.
pub fn declaration_findings_in_bytes(relative: &str, bytes: &[u8]) -> (out: Vec<String>)
    requires
        codec_len_ok(bytes@.len() as int),
    ensures
        ({
            let ls = lines(file_text(bytes@));
            str_views(out@) == declaration_findings_spec(relative@, ls, ls.len() as int)
        }),
{
    let text = decode_text_bytes(bytes).0;
    declaration_findings(relative, text.as_str())
}

/// The advice appended to a failed pre-check.
pub open spec fn precheck_advice() -> Seq<char> {
    "\n\n修复建议：.全局变量/.程序集变量/.局部变量 只能声明名称、类型、数组和备注等字段，不要在声明行写默认值；请在启动子程序或窗口创建完毕事件中赋值，然后重新 build_ecode_project。"@
}

/// The pre-check of a project before it is turned into an `.e` file: it
/// passes when no declaration has a default value, and otherwise fails with
/// all findings, one per line, and the advice.
pub fn validate_ecode_project_before_generate(findings: &Vec<String>) -> (res: Result<(), String>)
    ensures
        match res {
            Ok(()) => findings@.len() == 0,
            Err(e) => findings@.len() > 0 && e@ == "文本工程源码预检查失败：\n"@ + join(
                str_views(findings@),
                seq!['\n'],
            ) + precheck_advice(),
        },
{
    if findings.len() == 0 {
        return Ok(());
    }
    let list = to_char_vecs(findings);
    let newline = vec!['\n'];
    assert(newline@ == seq!['\n']);
    let mut m = chars_of("文本工程源码预检查失败：\n");
    append_chars(&mut m, join_chars(&list, newline.as_slice()).as_slice());
    append_str(
        &mut m,
        "\n\n修复建议：.全局变量/.程序集变量/.局部变量 只能声明名称、类型、数组和备注等字段，不要在声明行写默认值；请在启动子程序或窗口创建完毕事件中赋值，然后重新 build_ecode_project。",
    );
    Err(string_of(m.as_slice()))
}

/// Text files of a project whose line endings are made CRLF before it is
/// turned into an `.e` file.
pub open spec fn is_line_ending_file(name: Seq<char>) -> bool {
    ends_with(name, ".e.txt"@) || ends_with(name, ".config.json"@) || ends_with(
        name,
        ".desc.json"@,
    ) || ends_with(name, ".list.txt"@)
}

pub fn is_line_ending_file_name(name: &str) -> (res: bool)
    ensures
        res == is_line_ending_file(name@),
{
    let n = chars_of(name);
    let s = n.as_slice();
    ends_with_str(s, ".e.txt") || ends_with_str(s, ".config.json") || ends_with_str(
        s,
        ".desc.json",
    ) || ends_with_str(s, ".list.txt")
}

/// The new content of such a file: `None` when it has no `'\n'` byte (it is
/// left alone); otherwise its text, decoded as tool output is, with every
/// line break written CRLF, as UTF-8.
pub open spec fn crlf_file_bytes(bytes: Seq<u8>) -> Option<Seq<u8>> {
    if !bytes.contains(10u8) {
        None
    } else {
        Some(
            vstd::utf8::encode_utf8(
                lf_to_crlf(normalize_newlines(tool_output_text(bytes, false))),
            ),
        )
    }
}

pub fn normalized_text_file_bytes(bytes: &[u8]) -> (out: Option<Vec<u8>>)
    requires
        codec_len_ok(bytes@.len() as int),
    ensures
        match out {
            Some(b) => crlf_file_bytes(bytes@) == Some(b@),
            None => crlf_file_bytes(bytes@) is None,
        },
{
    let mut i: usize = 0;
    let mut found = false;
    while i < bytes.len()
        invariant
            i <= bytes.len(),
            found == (exists|j: int| 0 <= j < i && bytes@[j] == 10u8),
        decreases bytes.len() - i,
    {
        if bytes[i] == 10u8 {
            found = true;
        }
        i += 1;
    }
    if !found {
        proof {
            assert forall|j: int| 0 <= j < bytes@.len() implies bytes@[j] != 10u8 by {}
        }
        return None;
    }
    proof {
        let j = choose|j: int| 0 <= j < i && bytes@[j] == 10u8;
        assert(bytes@.contains(10u8));
    }
    let text = decode_tool_output_with_preference(bytes, false);
    let normalized = normalize_newlines_exec(chars_of(text.as_str()).as_slice());
    let crlf = lf_to_crlf_exec(normalized.as_slice());
    Some(crate::encoding::utf8_bytes(string_of(crlf.as_slice()).as_str()))
}

// ---------------------------------------------------------------------------
// Conversion and compiler tools
// ---------------------------------------------------------------------------

/// The trimmed parts that are not empty (`join_non_empty` keeps these).
pub open spec fn non_empty_trimmed(parts: Seq<Seq<char>>) -> Seq<Seq<char>>
    decreases parts.len(),
{
    if parts.len() == 0 {
        seq![]
    } else {
        let rest = non_empty_trimmed(parts.drop_last());
        let t = trim(parts.last());
        if t.len() > 0 {
            rest.push(t)
        } else {
            rest
        }
    }
}

/// The trimmed, non-empty parts joined by `'\n'`.
pub fn join_non_empty(parts: &Vec<String>) -> (out: String)
    ensures
        out@ == join(non_empty_trimmed(str_views(parts@)), seq!['\n']),
{
    let mut kept: Vec<Vec<char>> = Vec::new();
    let mut i: usize = 0;
    while i < parts.len()
        invariant
            i <= parts.len(),
            views(kept@) == non_empty_trimmed(str_views(parts@).take(i as int)),
        decreases parts.len() - i,
    {
        let t = trim_chars(chars_of(parts[i].as_str()).as_slice());
        assert(str_views(parts@).take(i + 1).drop_last() == str_views(parts@).take(i as int));
        assert(str_views(parts@).take(i + 1).last() == parts@[i as int]@);
        if t.len() > 0 {
            let ghost before = kept@;
            kept.push(t);
            assert(views(kept@) =~= views(before).push(t@));
        }
        i += 1;
    }
    assert(str_views(parts@).take(parts.len() as int) == str_views(parts@));
    let newline = vec!['\n'];
    assert(newline@ == seq!['\n']);
    string_of(join_chars(&kept, newline.as_slice()).as_slice())
}

/// The arguments every `e2txt` call starts with.
pub open spec fn e2txt_base() -> Seq<Seq<char>> {
    seq!["-log"@, "-enc"@, "UTF-8"@, "-ns"@, "2"@, "-e"@]
}

pub fn e2txt_base_args() -> (out: Vec<String>)
    ensures
        str_views(out@) == e2txt_base(),
{
    let mut v: Vec<String> = Vec::new();
    v.push("-log".to_owned());
    v.push("-enc".to_owned());
    v.push("UTF-8".to_owned());
    v.push("-ns".to_owned());
    v.push("2".to_owned());
    v.push("-e".to_owned());
    assert(str_views(v@) =~= e2txt_base());
    v
}

/// The arguments of an `e2txt` conversion from `src` to `dst` in `mode`
/// (`e2t` exports an `.e` file, `t2e` builds one).
pub fn e2txt_args(src: String, dst: String, mode: String) -> (out: Vec<String>)
    ensures
        str_views(out@) == e2txt_base() + seq!["-src"@, src@, "-dst"@, dst@, "-mode"@, mode@],
{
    let mut v = e2txt_base_args();
    let ghost base = v@;
    v.push("-src".to_owned());
    let ghost s1 = src@;
    v.push(src);
    v.push("-dst".to_owned());
    let ghost d1 = dst@;
    v.push(dst);
    v.push("-mode".to_owned());
    let ghost m1 = mode@;
    v.push(mode);
    assert(str_views(v@) =~= str_views(base) + seq!["-src"@, s1, "-dst"@, d1, "-mode"@, m1]);
    v
}

/// `e2txt` succeeded: it exited successfully and reported `SUCC:` on one of
/// its outputs.
pub fn e2txt_succeeded(status_ok: bool, stdout: &str, stderr: &str) -> (res: bool)
    ensures
        res == (status_ok && (contains(stdout@, "SUCC:"@) || contains(stderr@, "SUCC:"@))),
{
    status_ok && (contains_str(chars_of(stdout).as_slice(), "SUCC:") || contains_str(
        chars_of(stderr).as_slice(),
        "SUCC:",
    ))
}

/// The note when `e2txt` reported success but the `.e` file never appeared.
pub open spec fn missing_output_note() -> Seq<char> {
    "e2txt 已返回成功，但目标 .e 文件在等待 10 秒后仍未出现。"@
}

/// The error output of a build: when the tool succeeded but the output did
/// not appear, the note is added (alone when the output was blank).
pub fn generate_stderr(success: bool, output_ready: bool, stderr: String) -> (out: String)
    ensures
        out@ == (if success && !output_ready {
            if trim(stderr@).len() == 0 {
                missing_output_note()
            } else {
                stderr@ + seq!['\n'] + missing_output_note()
            }
        } else {
            stderr@
        }),
{
    if success && !output_ready {
        if is_blank(chars_of(stderr.as_str()).as_slice()) {
            "e2txt 已返回成功，但目标 .e 文件在等待 10 秒后仍未出现。".to_owned()
        } else {
            let mut m = chars_of(stderr.as_str());
            m.push('\n');
            append_str(&mut m, "e2txt 已返回成功，但目标 .e 文件在等待 10 秒后仍未出现。");
            string_of(m.as_slice())
        }
    } else {
        stderr
    }
}

/// The arguments of `eparser32.exe`: the parser library, the EasyLanguage
/// root, the `.e` file and the file the parser writes its text to.
pub fn eparser_args(dll: String, e_root: String, source: String, output: String) -> (out: Vec<
    String,
>)
    ensures
        str_views(out@) == seq![dll@, e_root@, source@, output@],
{
    let ghost (d, r, s, o) = (dll@, e_root@, source@, output@);
    let mut v: Vec<String> = Vec::new();
    v.push(dll);
    v.push(e_root);
    v.push(source);
    v.push(output);
    assert(str_views(v@) =~= seq![d, r, s, o]);
    v
}

/// Static linking unless asked otherwise.
pub open spec fn static_linking(static_link: Option<bool>) -> bool {
    match static_link {
        Some(b) => b,
        None => true,
    }
}

/// The arguments of `ecl.exe make`.
pub fn ecl_args(source: String, output: String, e_exe: String, static_link: Option<bool>) -> (out:
    Vec<String>)
    ensures
        str_views(out@) == seq![
            "make"@,
            source@,
            output@,
            "-epath"@,
            e_exe@,
            "-nologo"@,
            if static_linking(static_link) {
                "-s"@
            } else {
                "-d"@
            },
        ],
{
    let ghost (s1, o1, e1) = (source@, output@, e_exe@);
    let mut v: Vec<String> = Vec::new();
    v.push("make".to_owned());
    v.push(source);
    v.push(output);
    v.push("-epath".to_owned());
    v.push(e_exe);
    v.push("-nologo".to_owned());
    let is_static = match static_link {
        Some(b) => b,
        None => true,
    };
    if is_static {
        v.push("-s".to_owned());
    } else {
        v.push("-d".to_owned());
    }
    assert(str_views(v@) =~= seq![
        "make"@,
        s1,
        o1,
        "-epath"@,
        e1,
        "-nologo"@,
        if is_static {
            "-s"@
        } else {
            "-d"@
        },
    ]);
    v
}

/// Seconds the compiler may run: 180 when linking statically, else 120.
pub fn ecl_timeout_secs(static_link: Option<bool>) -> (secs: u64)
    ensures
        secs == (if static_linking(static_link) {
            180u64
        } else {
            120u64
        }),
{
    match static_link {
        Some(false) => 120,
        _ => 180,
    }
}

/// `format!("{}", n)` for a signed number.
pub open spec fn signed_decimal(n: int) -> Seq<char> {
    if n < 0 {
        seq!['-'] + decimal((-n) as nat)
    } else {
        decimal(n as nat)
    }
}

fn append_i32(m: &mut Vec<char>, n: i32)
    ensures
        final(m)@ == old(m)@ + signed_decimal(n as int),
{
    if n < 0 {
        let magnitude: u64 = (-(n as i64)) as u64;
        m.push('-');
        let ghost mid = m@;
        append_decimal(m, magnitude as usize);
        assert(m@ == old(m)@ + (seq!['-'] + decimal((-n) as nat)));
    } else {
        append_decimal(m, n as usize);
    }
}

/// `format!("{}", b)` for a boolean.
pub open spec fn bool_text(b: bool) -> Seq<char> {
    if b {
        "true"@
    } else {
        "false"@
    }
}

/// The message when the compiler failed.
pub open spec fn compile_failed_message(exit_code: Option<i32>, detail: Seq<char>) -> Seq<char> {
    "ecl.exe 编译失败，退出码："@ + (match exit_code {
        Some(c) => signed_decimal(c as int),
        None => "被系统终止"@,
    }) + "。\n"@ + (if detail.len() == 0 {
        "没有捕获到编译器输出；请检查生成的 .e 和模块依赖。"@
    } else {
        detail
    })
}

/// The message when the compiler succeeded but wrote no executable.
pub open spec fn missing_exe_message(
    output: Seq<char>,
    exit_code: Option<i32>,
    static_link: bool,
    detail: Seq<char>,
) -> Seq<char> {
    "ecl.exe 未生成目标 EXE："@ + output + "\n退出码："@ + (match exit_code {
        Some(c) => signed_decimal(c as int),
        None => "未知"@,
    }) + "\n静态链接："@ + bool_text(static_link) + seq!['\n'] + (if detail.len() == 0 {
        "没有捕获到编译器输出；请检查源码是否使用了未引用的模块/支持库，或打开详情查看生成的 .e。"@
    } else {
        "编译器输出：\n"@ + detail
    })
}

/// The output of the compiler with the list of staged modules in front.
pub open spec fn staged_stdout(staged: Seq<Seq<char>>, stdout: Seq<char>) -> Seq<char> {
    if staged.len() == 0 {
        stdout
    } else {
        "已同步/放置依赖模块：\n"@ + join(staged, seq!['\n']) + "\n\n"@ + stdout
    }
}

/// The error output reported for a compile.
pub open spec fn compile_stderr(
    status_ok: bool,
    output_exists: bool,
    exit_code: Option<i32>,
    static_link: bool,
    output: Seq<char>,
    stdout: Seq<char>,
    stderr: Seq<char>,
) -> Seq<char> {
    let detail = join(non_empty_trimmed(seq![stderr, stdout]), seq!['\n']);
    if !status_ok {
        compile_failed_message(exit_code, detail)
    } else if !output_exists {
        missing_exe_message(output, exit_code, static_link, detail)
    } else {
        stderr
    }
}

/// The result of a compile from what the compiler did: it counts as run
/// when it exited successfully or with code 1, and as a success when it
/// also wrote the executable. Its output is decoded preferring GBK.
pub fn compile_outcome(
    exited_ok: bool,
    exit_code: Option<i32>,
    raw_stdout: &[u8],
    raw_stderr: &[u8],
    output_exists: bool,
    output: String,
    static_link: Option<bool>,
    staged_modules: &Vec<String>,
) -> (out: CompileResult)
    requires
        codec_len_ok(raw_stdout@.len() as int),
        codec_len_ok(raw_stderr@.len() as int),
    ensures
        ({
            let status_ok = exited_ok || exit_code == Some(1i32);
            let stdout = staged_stdout(
                str_views(staged_modules@),
                tool_output_text(raw_stdout@, true),
            );
            &&& out.success == (status_ok && output_exists)
            &&& out.stdout@ == stdout
            &&& out.stderr@ == compile_stderr(
                status_ok,
                output_exists,
                exit_code,
                static_linking(static_link),
                output@,
                stdout,
                tool_output_text(raw_stderr@, true),
            )
            &&& out.output_path == (if output_exists {
                Some(output)
            } else {
                None
            })
        }),
{
    let stdout0 = decode_tool_output_with_preference(raw_stdout, true);
    let stderr0 = decode_tool_output_with_preference(raw_stderr, true);
    let status_ok = exited_ok || match exit_code {
        Some(1) => true,
        _ => false,
    };
    let stdout = if staged_modules.len() > 0 {
        let list = to_char_vecs(staged_modules);
        let newline = vec!['\n'];
        assert(newline@ == seq!['\n']);
        let mut m = chars_of("已同步/放置依赖模块：\n");
        append_chars(&mut m, join_chars(&list, newline.as_slice()).as_slice());
        append_str(&mut m, "\n\n");
        append_str(&mut m, stdout0.as_str());
        string_of(m.as_slice())
    } else {
        stdout0
    };
    let is_static = match static_link {
        Some(b) => b,
        None => true,
    };
    let mut pair: Vec<String> = Vec::new();
    pair.push(stderr0.clone());
    pair.push(stdout.clone());
    assert(str_views(pair@) =~= seq![stderr0@, stdout@]);
    let detail = chars_of(join_non_empty(&pair).as_str());
    let stderr = if !status_ok {
        let mut m = chars_of("ecl.exe 编译失败，退出码：");
        match exit_code {
            Some(c) => append_i32(&mut m, c),
            None => append_str(&mut m, "被系统终止"),
        }
        append_str(&mut m, "。\n");
        if detail.len() == 0 {
            append_str(&mut m, "没有捕获到编译器输出；请检查生成的 .e 和模块依赖。");
        } else {
            append_chars(&mut m, detail.as_slice());
        }
        string_of(m.as_slice())
    } else if !output_exists {
        let mut m = chars_of("ecl.exe 未生成目标 EXE：");
        append_str(&mut m, output.as_str());
        append_str(&mut m, "\n退出码：");
        match exit_code {
            Some(c) => append_i32(&mut m, c),
            None => append_str(&mut m, "未知"),
        }
        append_str(&mut m, "\n静态链接：");
        if is_static {
            append_str(&mut m, "true");
        } else {
            append_str(&mut m, "false");
        }
        m.push('\n');
        if detail.len() == 0 {
            append_str(
                &mut m,
                "没有捕获到编译器输出；请检查源码是否使用了未引用的模块/支持库，或打开详情查看生成的 .e。",
            );
        } else {
            append_str(&mut m, "编译器输出：\n");
            append_chars(&mut m, detail.as_slice());
        }
        string_of(m.as_slice())
    } else {
        stderr0
    };
    let output_path = if output_exists {
        Some(output)
    } else {
        None
    };
    CompileResult { success: status_ok && output_exists, stdout, stderr, output_path }
}

// ---------------------------------------------------------------------------
// The project map
// ---------------------------------------------------------------------------

/// The strings of `s` are in strictly increasing order.
pub open spec fn strictly_sorted(s: Seq<Seq<char>>) -> bool {
    forall|i: int, j: int| 0 <= i < j < s.len() ==> text_lt(#[trigger] s[i], #[trigger] s[j])
}

/// Adds `x` to a strictly sorted list unless it is there (a `BTreeSet`
/// insert).
pub fn insert_sorted_unique(set: &mut Vec<Vec<char>>, x: Vec<char>)
    requires
        strictly_sorted(views(old(set)@)),
    ensures
        strictly_sorted(views(final(set)@)),
        views(final(set)@).to_set() == views(old(set)@).to_set().insert(x@),
{
    let ghost old_views = views(set@);
    let mut p: usize = 0;
    while p < set.len() && text_less(set[p].as_slice(), x.as_slice())
        invariant
            p <= set.len(),
            set@ == old(set)@,
            forall|q: int| 0 <= q < p ==> text_lt(#[trigger] views(set@)[q], x@),
        decreases set.len() - p,
    {
        assert(views(set@)[p as int] == set@[p as int]@);
        p += 1;
    }
    if p < set.len() && chars_eq(set[p].as_slice(), x.as_slice()) {
        assert(views(set@)[p as int] == x@);
        assert(old_views.to_set().insert(x@) =~= old_views.to_set());
        return ;
    }
    proof {
        if p < set.len() {
            assert(views(set@)[p as int] == set@[p as int]@);
            lemma_text_lt_total(views(set@)[p as int], x@);
        }
    }
    let ghost xv = x@;
    set.insert(p, x);
    proof {
        let nv = views(set@);
        assert(nv =~= old_views.insert(p as int, xv));
        assert forall|i: int, j: int| 0 <= i < j < nv.len() implies text_lt(
            #[trigger] nv[i],
            #[trigger] nv[j],
        ) by {
            if j < p {
                assert(nv[i] == old_views[i] && nv[j] == old_views[j]);
            } else if j == p {
                assert(nv[i] == old_views[i]);
            } else if i < p {
                assert(nv[i] == old_views[i] && nv[j] == old_views[j - 1]);
                assert(text_lt(old_views[i], xv));
                assert(text_lt(xv, old_views[p as int]));
                if j - 1 > p {
                    lemma_text_lt_transitive(xv, old_views[p as int], old_views[j - 1]);
                }
                lemma_text_lt_transitive(old_views[i], xv, old_views[j - 1]);
            } else if i == p {
                assert(nv[j] == old_views[j - 1]);
                if j - 1 > p {
                    lemma_text_lt_transitive(xv, old_views[p as int], old_views[j - 1]);
                }
            } else {
                assert(nv[i] == old_views[i - 1] && nv[j] == old_views[j - 1]);
            }
        }
        assert(nv.to_set() =~= old_views.to_set().insert(xv)) by {
            assert forall|e: Seq<char>| nv.to_set().contains(e) <==> old_views.to_set().insert(
                xv,
            ).contains(e) by {
                if nv.contains(e) {
                    let k = choose|k: int| 0 <= k < nv.len() && nv[k] == e;
                    if k < p {
                        assert(old_views[k] == e);
                    } else if k > p {
                        assert(old_views[k - 1] == e);
                    }
                }
                if old_views.contains(e) {
                    let k = choose|k: int| 0 <= k < old_views.len() && old_views[k] == e;
                    if k < p {
                        assert(nv[k] == e);
                    } else {
                        assert(nv[k + 1] == e);
                    }
                }
                if e == xv {
                    assert(nv[p as int] == e);
                }
            }
        }
    }
}

/// The order in which source files are read: by reading rank, then by
/// relative path (the files are given by their relative paths); ties keep
/// their order.
pub fn order_ecode_source_files(relatives: &Vec<String>) -> (order: Vec<usize>)
    ensures
        is_permutation(order@, relatives@.len()),
        forall|i: int, j: int|
            0 <= i < j < order@.len() ==> !key_lt(
                read_rank(relatives@[order@[j] as int]@),
                relatives@[order@[j] as int]@,
                read_rank(relatives@[order@[i] as int]@),
                relatives@[order@[i] as int]@,
            ),
{
    let n = relatives.len();
    let mut ranks: Vec<usize> = Vec::new();
    let mut rels: Vec<Vec<char>> = Vec::new();
    let mut k: usize = 0;
    while k < n
        invariant
            k <= n == relatives@.len(),
            ranks@.len() == k,
            rels@.len() == k,
            forall|m: int| 0 <= m < k ==> #[trigger] rels@[m]@ == relatives@[m]@,
            forall|m: int| 0 <= m < k ==> #[trigger] ranks@[m] == read_rank(relatives@[m]@),
        decreases n - k,
    {
        ranks.push(ecode_read_rank(relatives[k].as_str()));
        rels.push(chars_of(relatives[k].as_str()));
        k += 1;
    }
    let order = sort_order(&ranks, &rels);
    proof {
        assert forall|a: int, b: int| 0 <= a < b < order@.len() implies !key_lt(
            read_rank(relatives@[order@[b] as int]@),
            relatives@[order@[b] as int]@,
            read_rank(relatives@[order@[a] as int]@),
            relatives@[order@[a] as int]@,
        ) by {
            assert(order@[a] < n && order@[b] < n);
            assert(rels@[order@[a] as int]@ == relatives@[order@[a] as int]@);
            assert(rels@[order@[b] as int]@ == relatives@[order@[b] as int]@);
            assert(ranks@[order@[a] as int] == read_rank(relatives@[order@[a] as int]@));
            assert(ranks@[order@[b] as int] == read_rank(relatives@[order@[b] as int]@));
        }
    }
    order
}

/// Support libraries named in the files, as a set.
pub open spec fn library_set(files: Seq<ECodeSourceFileSummary>) -> Set<Seq<char>>
    decreases files.len(),
{
    if files.len() == 0 {
        Set::empty()
    } else {
        library_set(files.drop_last()) + str_views(files.last().support_libraries@).to_set()
    }
}

/// Assemblies named in the files, as a set.
pub open spec fn assembly_set(files: Seq<ECodeSourceFileSummary>) -> Set<Seq<char>>
    decreases files.len(),
{
    if files.len() == 0 {
        Set::empty()
    } else {
        match files.last().assembly {
            Some(a) => assembly_set(files.drop_last()).insert(a@),
            None => assembly_set(files.drop_last()),
        }
    }
}

/// Subprograms that look like entry points: names starting with `_` or
/// naming a creation, click or timer event.
pub open spec fn is_entry_name(name: Seq<char>) -> bool {
    starts_with(name, "_"@) || contains(name, "创建完毕"@) || contains(name, "被单击"@) || contains(
        name,
        "周期事件"@,
    )
}

/// How an entry point is listed: `relative:line name`.
pub open spec fn entry_text(relative: Seq<char>, line: nat, name: Seq<char>) -> Seq<char> {
    relative + ":"@ + decimal(line) + " "@ + name
}

/// The entry points after the first `m` subprograms of one file.
pub open spec fn file_entries(
    relative: Seq<char>,
    subs: Seq<ECodeSubprogramSummary>,
    m: int,
    acc: Seq<Seq<char>>,
) -> Seq<Seq<char>>
    decreases m,
{
    if m <= 0 || m > subs.len() {
        acc
    } else {
        let prev = file_entries(relative, subs, m - 1, acc);
        let s = subs[m - 1];
        if is_entry_name(s.name@) {
            push_limited(prev, entry_text(relative, s.line as nat, s.name@), 40)
        } else {
            prev
        }
    }
}

/// The entry points (at most 40) of the first `n` files.
pub open spec fn entrypoints_of(files: Seq<ECodeSourceFileSummary>, n: int) -> Seq<Seq<char>>
    decreases n,
{
    if n <= 0 || n > files.len() {
        seq![]
    } else {
        let f = files[n - 1];
        file_entries(
            f.relative_path@,
            f.subprograms@,
            f.subprograms@.len() as int,
            entrypoints_of(files, n - 1),
        )
    }
}

/// The number of subprograms in the first `n` files.
pub open spec fn subprogram_total(files: Seq<ECodeSourceFileSummary>, n: int) -> nat
    decreases n,
{
    if n <= 0 || n > files.len() {
        0
    } else {
        subprogram_total(files, n - 1) + files[n - 1].subprograms@.len()
    }
}

/// The summary sentence of a project map.
pub open spec fn project_summary(
    source_file_count: nat,
    returned: nat,
    skipped: nat,
    assemblies: nat,
    subprograms: nat,
    libraries: nat,
) -> Seq<char> {
    "发现主工程源码文件 "@ + decimal(source_file_count) + " 个，本次摘要返回 "@ + decimal(returned)
        + " 个，跳过模块源码 "@ + decimal(skipped) + " 个；程序集 "@ + decimal(assemblies)
        + " 个，子程序 "@ + decimal(subprograms) + " 个，支持库 "@ + decimal(libraries) + " 个。"@
}

/// The number of files summarised when `max_files` is asked for: 40 by
/// default, kept between 1 and 120.
pub open spec fn files_limit(max_files: Option<usize>) -> nat {
    match max_files {
        Some(m) => if m < 1 {
            1
        } else if m > 120 {
            120
        } else {
            m as nat
        },
        None => 40,
    }
}

pub fn max_files_limit(max_files: Option<usize>) -> (n: usize)
    ensures
        n == files_limit(max_files),
{
    match max_files {
        Some(m) => if m < 1 {
            1
        } else if m > 120 {
            120
        } else {
            m
        },
        None => 40,
    }
}

/// Whether a source file is part of a project map: module files only when
/// modules are included.
pub open spec fn kept_file(in_module: bool, include_modules: bool) -> bool {
    include_modules || !in_module
}

/// The number of files among the first `n` that a map keeps.
pub open spec fn kept_count(in_module: Seq<bool>, include_modules: bool, n: int) -> nat
    decreases n,
{
    if n <= 0 {
        0
    } else {
        kept_count(in_module, include_modules, n - 1) + if kept_file(
            in_module[n - 1],
            include_modules,
        ) {
            1nat
        } else {
            0nat
        }
    }
}

/// The number of files among the first `n` that lie in module directories.
pub open spec fn module_count(in_module: Seq<bool>, n: int) -> nat
    decreases n,
{
    if n <= 0 {
        0
    } else {
        module_count(in_module, n - 1) + if in_module[n - 1] {
            1nat
        } else {
            0nat
        }
    }
}

proof fn lemma_module_count_is_kept_complement(in_module: Seq<bool>, n: int)
    requires
        0 <= n <= in_module.len(),
    ensures
        kept_count(in_module, false, n) + module_count(in_module, n) == n,
    decreases n,
{
    if n > 0 {
        lemma_module_count_is_kept_complement(in_module, n - 1);
    }
}

/// Which source files a project map summarises, and its file counts.
pub struct ProjectFilePlan {
    /// The files the map covers (module files only when included).
    pub source_file_count: usize,
    /// The module files left out (none when modules are included).
    pub skipped_module_file_count: usize,
    /// The files summarised, as indices into the files found, in reading
    /// order.
    pub chosen: Vec<usize>,
}

/// Which of the source files found (given by relative path, and whether
/// each lies in a module directory) a project map summarises: the files it
/// covers are counted, the module files left out are counted, and the
/// first `files_limit(max_files)` covered files in reading order are
/// chosen (all of them when there are fewer), each once: no covered file
/// left out reads before a chosen one.
pub fn plan_project_files(
    relatives: &Vec<String>,
    in_module: &Vec<bool>,
    include_modules: Option<bool>,
    max_files: Option<usize>,
) -> (plan: ProjectFilePlan)
    requires
        relatives@.len() == in_module@.len(),
    ensures
        ({
            let inc = match include_modules {
                Some(b) => b,
                None => false,
            };
            let n = relatives@.len() as int;
            let c = plan.chosen@;
            &&& plan.source_file_count == kept_count(in_module@, inc, n)
            &&& plan.skipped_module_file_count == (if inc {
                0
            } else {
                module_count(in_module@, n)
            })
            &&& c.len() == (if plan.source_file_count < files_limit(max_files) {
                plan.source_file_count as nat
            } else {
                files_limit(max_files)
            })
            &&& forall|i: int|
                0 <= i < c.len() ==> #[trigger] c[i] < n && kept_file(in_module@[c[i] as int], inc)
            &&& forall|i: int, j: int| 0 <= i < j < c.len() ==> #[trigger] c[i] != #[trigger] c[j]
            &&& forall|i: int, j: int|
                0 <= i < j < c.len() ==> !key_lt(
                    read_rank(relatives@[c[j] as int]@),
                    relatives@[c[j] as int]@,
                    read_rank(relatives@[c[i] as int]@),
                    relatives@[c[i] as int]@,
                )
            &&& forall|k: int, i: int|
                0 <= k < n && kept_file(in_module@[k], inc) && !c.contains(k as usize) && 0 <= i
                    < c.len() ==> !key_lt(
                    read_rank(relatives@[k]@),
                    relatives@[k]@,
                    read_rank(relatives@[c[i] as int]@),
                    relatives@[c[i] as int]@,
                )
        }),
{
    let inc = match include_modules {
        Some(b) => b,
        None => false,
    };
    let n = relatives.len();
    let mut kept: Vec<usize> = Vec::new();
    let mut kept_rels: Vec<String> = Vec::new();
    let mut modules: usize = 0;
    let mut k: usize = 0;
    while k < n
        invariant
            k <= n == relatives@.len() == in_module@.len(),
            kept@.len() == kept_rels@.len() == kept_count(in_module@, inc, k as int),
            modules == module_count(in_module@, k as int),
            modules <= k,
            kept@.len() <= k,
            forall|m: int| 0 <= m < kept@.len() ==> #[trigger] kept@[m] < k && kept_file(
                in_module@[kept@[m] as int],
                inc,
            ),
            forall|m: int, l: int| 0 <= m < l < kept@.len() ==> kept@[m] < kept@[l],
            forall|m: int| 0 <= m < kept@.len() ==> #[trigger] kept_rels@[m]@ == relatives@[kept@[m] as int]@,
            forall|k2: int|
                0 <= k2 < k && kept_file(in_module@[k2], inc) ==> kept@.contains(k2 as usize),
        decreases n - k,
    {
        if in_module[k] {
            modules += 1;
        }
        if inc || !in_module[k] {
            let ghost before = kept@;
            kept.push(k);
            kept_rels.push(relatives[k].clone());
            proof {
                assert forall|k2: int|
                    0 <= k2 < k + 1 && kept_file(in_module@[k2], inc) implies kept@.contains(
                    k2 as usize,
                ) by {
                    if k2 < k {
                        let m = choose|m: int| 0 <= m < before.len() && before[m] == k2 as usize;
                        assert(kept@[m] == k2 as usize);
                    } else {
                        assert(kept@[before.len() as int] == k2 as usize);
                    }
                }
            }
        }
        k += 1;
    }
    proof {
        lemma_module_count_is_kept_complement(in_module@, n as int);
    }
    let order = order_ecode_source_files(&kept_rels);
    let limit = max_files_limit(max_files);
    let take = if kept.len() < limit {
        kept.len()
    } else {
        limit
    };
    let mut chosen: Vec<usize> = Vec::new();
    let mut i: usize = 0;
    while i < take
        invariant
            i <= take <= kept@.len() == order@.len() == kept_rels@.len(),
            is_permutation(order@, kept@.len() as nat),
            chosen@.len() == i,
            forall|m: int| 0 <= m < i ==> #[trigger] chosen@[m] == kept@[order@[m] as int],
        decreases take - i,
    {
        chosen.push(kept[order[i]]);
        i += 1;
    }
    let source_file_count = kept.len();
    let skipped_module_file_count = if inc {
        0
    } else {
        modules
    };
    proof {
        let c = chosen@;
        assert forall|a: int, b: int| 0 <= a < b < c.len() implies #[trigger] c[a] != #[trigger] c[b] by {
            let oa = order@[a] as int;
            let ob = order@[b] as int;
            assert(oa != ob);
            if oa < ob {
                assert(kept@[oa] < kept@[ob]);
            } else {
                assert(kept@[ob] < kept@[oa]);
            }
        }
        assert forall|a: int, b: int| 0 <= a < b < c.len() implies !key_lt(
            read_rank(relatives@[c[b] as int]@),
            relatives@[c[b] as int]@,
            read_rank(relatives@[c[a] as int]@),
            relatives@[c[a] as int]@,
        ) by {
            assert(kept_rels@[order@[a] as int]@ == relatives@[c[a] as int]@);
            assert(kept_rels@[order@[b] as int]@ == relatives@[c[b] as int]@);
        }
        assert forall|a: int| 0 <= a < c.len() implies #[trigger] c[a] < n && kept_file(
            in_module@[c[a] as int],
            inc,
        ) by {
            assert(order@[a] < kept@.len());
        }
        assert forall|k2: int, a: int|
            0 <= k2 < n && kept_file(in_module@[k2], inc) && !c.contains(k2 as usize) && 0 <= a
                < c.len() implies !key_lt(
            read_rank(relatives@[k2]@),
            relatives@[k2]@,
            read_rank(relatives@[c[a] as int]@),
            relatives@[c[a] as int]@,
        ) by {
            assert(kept@.contains(k2 as usize));
            let m = choose|m: int| 0 <= m < kept@.len() && kept@[m] == k2 as usize;
            lemma_permutation_onto(order@, kept@.len() as nat, m);
            let p = choose|p: int| 0 <= p < order@.len() && order@[p] as int == m;
            if p < c.len() {
                assert(c[p] == k2 as usize);
                assert(c.contains(k2 as usize));
            }
            assert(a < p);
            assert(kept_rels@[order@[p] as int]@ == relatives@[k2]@);
            assert(kept_rels@[order@[a] as int]@ == relatives@[c[a] as int]@);
        }
    }
    ProjectFilePlan { source_file_count, skipped_module_file_count, chosen }
}

/// The map of a project from the summaries of its source files (in reading
/// order): all support libraries and assemblies, sorted and without
/// duplicates, the entry points, the first twelve files to read, and a
/// summary sentence.
pub fn summarize_ecode_project_for_agent(
    ecode_dir: String,
    plan: &ProjectFilePlan,
    source_files: Vec<ECodeSourceFileSummary>,
) -> (out: ECodeProjectMapResult)
    requires
        source_files@.len() == plan.chosen@.len(),
        subprogram_total(source_files@, source_files@.len() as int) <= usize::MAX,
    ensures
        out.success,
        out.ecode_dir == ecode_dir,
        out.source_file_count == plan.source_file_count,
        out.skipped_module_file_count == plan.skipped_module_file_count,
        out.source_files@.len() == plan.chosen@.len(),
        strictly_sorted(str_views(out.support_libraries@)),
        str_views(out.support_libraries@).to_set() == library_set(source_files@),
        strictly_sorted(str_views(out.assemblies@)),
        str_views(out.assemblies@).to_set() == assembly_set(source_files@),
        str_views(out.entrypoints@) == entrypoints_of(source_files@, source_files@.len() as int),
        out.recommended_read_order@.len() == (if source_files@.len() < 12 {
            source_files@.len()
        } else {
            12
        }),
        forall|i: int|
            0 <= i < out.recommended_read_order@.len() ==> #[trigger] out.recommended_read_order@[i]
                == source_files@[i].path,
        out.source_files == source_files,
        out.summary@ == project_summary(
            plan.source_file_count as nat,
            source_files@.len(),
            plan.skipped_module_file_count as nat,
            str_views(out.assemblies@).len(),
            subprogram_total(source_files@, source_files@.len() as int),
            str_views(out.support_libraries@).len(),
        ),
{
    let source_file_count = plan.source_file_count;
    let skipped_module_file_count = plan.skipped_module_file_count;
    let ghost files = source_files@;
    let mut libraries: Vec<Vec<char>> = Vec::new();
    let mut assemblies: Vec<Vec<char>> = Vec::new();
    let mut entrypoints: Vec<Vec<char>> = Vec::new();
    let mut subprogram_count: usize = 0;
    let mut i: usize = 0;
    assert(views(libraries@).to_set() =~= Set::<Seq<char>>::empty());
    assert(views(assemblies@).to_set() =~= Set::<Seq<char>>::empty());
    while i < source_files.len()
        invariant
            i <= source_files@.len(),
            files == source_files@,
            subprogram_total(files, files.len() as int) <= usize::MAX,
            strictly_sorted(views(libraries@)),
            views(libraries@).to_set() == library_set(files.take(i as int)),
            strictly_sorted(views(assemblies@)),
            views(assemblies@).to_set() == assembly_set(files.take(i as int)),
            views(entrypoints@) == entrypoints_of(files, i as int),
            subprogram_count == subprogram_total(files, i as int),
        decreases source_files.len() - i,
    {
        let f = &source_files[i];
        assert(files.take(i + 1).drop_last() == files.take(i as int));
        assert(files.take(i + 1).last() == files[i as int]);
        proof {
            lemma_subprogram_total_mono(files, i + 1, files.len() as int);
        }
        let libs = to_char_vecs(&f.support_libraries);
        let ghost libs_before = views(libraries@).to_set();
        let mut j: usize = 0;
        while j < libs.len()
            invariant
                j <= libs.len(),
                strictly_sorted(views(libraries@)),
                views(libraries@).to_set() == libs_before + views(libs@).take(j as int).to_set(),
            decreases libs.len() - j,
        {
            insert_sorted_unique(&mut libraries, libs[j].clone());
            assert(views(libs@).take(j + 1).to_set() =~= views(libs@).take(j as int).to_set().insert(
                libs@[j as int]@,
            )) by {
                assert(views(libs@).take(j + 1) =~= views(libs@).take(j as int).push(libs@[j as int]@));
                views(libs@).take(j as int).lemma_push_to_set_commute(libs@[j as int]@);
            }
            assert(libs_before + views(libs@).take(j + 1).to_set() =~= (libs_before + views(libs@).take(
                j as int,
            ).to_set()).insert(libs@[j as int]@));
            j += 1;
        }
        assert(views(libs@).take(libs.len() as int) == views(libs@));
        match &f.assembly {
            Some(a) => {
                insert_sorted_unique(&mut assemblies, chars_of(a.as_str()));
            },
            None => {},
        }
        let rel = chars_of(f.relative_path.as_str());
        let mut k: usize = 0;
        let ghost acc0 = entrypoints_of(files, i as int);
        while k < f.subprograms.len()
            invariant
                k <= f.subprograms@.len(),
                f == &files[i as int],
                rel@ == f.relative_path@,
                views(entrypoints@) == file_entries(rel@, f.subprograms@, k as int, acc0),
            decreases f.subprograms@.len() - k,
        {
            let s = &f.subprograms[k];
            let name = chars_of(s.name.as_str());
            let n = name.as_slice();
            if starts_with_str(n, "_") || contains_str(n, "创建完毕") || contains_str(n, "被单击")
                || contains_str(n, "周期事件") {
                let mut t = rel.clone();
                append_str(&mut t, ":");
                append_decimal(&mut t, s.line);
                append_str(&mut t, " ");
                append_chars(&mut t, n);
                push_limited_chars(&mut entrypoints, t, 40);
            }
            k += 1;
        }
        subprogram_count = subprogram_count + f.subprograms.len();
        i += 1;
    }
    assert(files.take(files.len() as int) == files);
    let mut recommended: Vec<String> = Vec::new();
    let mut r: usize = 0;
    while r < source_files.len() && r < 12
        invariant
            r <= source_files@.len(),
            r <= 12,
            recommended@.len() == r,
            forall|m: int| 0 <= m < r ==> #[trigger] recommended@[m] == source_files@[m].path,
        decreases 12 - r,
    {
        recommended.push(source_files[r].path.clone());
        r += 1;
    }
    let mut m = chars_of("发现主工程源码文件 ");
    append_decimal(&mut m, source_file_count);
    append_str(&mut m, " 个，本次摘要返回 ");
    append_decimal(&mut m, source_files.len());
    append_str(&mut m, " 个，跳过模块源码 ");
    append_decimal(&mut m, skipped_module_file_count);
    append_str(&mut m, " 个；程序集 ");
    append_decimal(&mut m, assemblies.len());
    append_str(&mut m, " 个，子程序 ");
    append_decimal(&mut m, subprogram_count);
    append_str(&mut m, " 个，支持库 ");
    append_decimal(&mut m, libraries.len());
    append_str(&mut m, " 个。");
    let support_libraries = to_strings(&libraries);
    let assembly_list = to_strings(&assemblies);
    ECodeProjectMapResult {
        success: true,
        ecode_dir,
        source_file_count,
        skipped_module_file_count,
        support_libraries,
        assemblies: assembly_list,
        entrypoints: to_strings(&entrypoints),
        recommended_read_order: recommended,
        source_files,
        summary: string_of(m.as_slice()),
    }
}

proof fn lemma_subprogram_total_mono(files: Seq<ECodeSourceFileSummary>, a: int, b: int)
    requires
        0 <= a <= b <= files.len(),
    ensures
        subprogram_total(files, a) <= subprogram_total(files, b),
    decreases b - a,
{
    if a < b {
        lemma_subprogram_total_mono(files, a, b - 1);
    }
}

// ---------------------------------------------------------------------------
// Parser runs
// ---------------------------------------------------------------------------

/// The result of a parser run from what the parser did: on failure its
/// output and error output; on success the file it wrote (UTF-8 or GBK)
/// when there is one, else its output, and its error output when there is
/// any. The summary beside the output is passed on.
pub fn parse_outcome(
    exited_ok: bool,
    raw_stdout: &[u8],
    raw_stderr: &[u8],
    output_file: Option<Vec<u8>>,
    summary: Option<serde_json::Value>,
) -> (out: ParseResult)
    requires
        codec_len_ok(raw_stdout@.len() as int),
        codec_len_ok(raw_stderr@.len() as int),
        output_file matches Some(b) ==> codec_len_ok(b@.len() as int),
    ensures
        out.success == exited_ok,
        !exited_ok ==> {
            &&& out.output@ == tool_output_text(raw_stdout@, false)
            &&& out.summary is None
            &&& out.error matches Some(e) && e@ == tool_output_text(raw_stderr@, false)
        },
        exited_ok ==> {
            &&& out.output@ == (match output_file {
                Some(b) => crate::encoding::file_text(b@),
                None => tool_output_text(raw_stdout@, false),
            })
            &&& out.summary == summary
            &&& (if tool_output_text(raw_stderr@, false).len() == 0 {
                out.error is None
            } else {
                out.error matches Some(e) && e@ == tool_output_text(raw_stderr@, false)
            })
        },
{
    let stdout = crate::encoding::decode_tool_output(raw_stdout);
    let stderr = crate::encoding::decode_tool_output(raw_stderr);
    if !exited_ok {
        return ParseResult { success: false, output: stdout, summary: None, error: Some(stderr) };
    }
    let output = match output_file {
        Some(bytes) => crate::encoding::decode_text_bytes(bytes.as_slice()).0,
        None => stdout,
    };
    let error = if stderr.as_str().is_empty() {
        None
    } else {
        Some(stderr)
    };
    ParseResult { success: true, output, summary, error }
}

// ---------------------------------------------------------------------------
// Module references of a generated project
// ---------------------------------------------------------------------------

pub open spec fn hex_digit(d: nat) -> char {
    if d < 10 {
        ((48 + d) as u32) as char
    } else {
        ((87 + d) as u32) as char
    }
}

/// How `serde_json` writes one character inside a JSON string: quote and
/// backslash escaped, the short escapes for backspace, tab, line feed,
/// form feed and carriage return, `\u00XX` (lowercase hex) for the other
/// control characters below 0x20, and everything else as it is.
pub open spec fn json_escape_char(c: char) -> Seq<char> {
    let u = c as u32;
    if c == '"' {
        seq!['\\', '"']
    } else if c == '\\' {
        seq!['\\', '\\']
    } else if u == 8 {
        seq!['\\', 'b']
    } else if u == 9 {
        seq!['\\', 't']
    } else if u == 10 {
        seq!['\\', 'n']
    } else if u == 12 {
        seq!['\\', 'f']
    } else if u == 13 {
        seq!['\\', 'r']
    } else if u < 0x20 {
        seq!['\\', 'u', '0', '0', hex_digit((u / 16) as nat), hex_digit((u % 16) as nat)]
    } else {
        seq![c]
    }
}

pub open spec fn json_escaped(s: Seq<char>) -> Seq<char>
    decreases s.len(),
{
    if s.len() == 0 {
        seq![]
    } else {
        json_escaped(s.drop_last()) + json_escape_char(s.last())
    }
}

/// `serde_json::to_string` of a string: the string quoted, with the
/// escapes of `json_escape_char`. Writing a string into memory cannot fail.
#[verifier::external_body]
fn json_string(value: &str) -> (res: Option<String>)
    ensures
        res is Some,
        res matches Some(t) ==> t@ == seq!['"'] + json_escaped(value@) + seq!['"'],
{
    serde_json::to_string(value).ok()
}

/// A string escaped for a JSON string literal, without the quotes around
/// it (quotes at either end of the escaped text are stripped too).
pub fn escape_json_string(value: &str) -> (out: String)
    ensures
        out@ == trim_matches_set(seq!['"'] + json_escaped(value@) + seq!['"'], seq!['"']),
{
    let quoted = match json_string(value) {
        Some(t) => t,
        None => String::new(),
    };
    let q: [char; 1] = ['"'];
    assert(q@ =~= seq!['"']);
    let t = chars_of(quoted.as_str());
    string_of(trim_matches_set_chars(t.as_slice(), q.as_slice()).as_slice())
}

/// The content of a module reference (`<name>.desc.json`) in a generated
/// project: the module's source path as JSON.
pub open spec fn module_ref_content(source: Seq<char>) -> Seq<char> {
    "{\n    \"Source\": \""@ + trim_matches_set(
        seq!['"'] + json_escaped(source) + seq!['"'],
        seq!['"'],
    ) + "\"\n}\n"@
}

pub fn module_ref_desc(source: &str) -> (out: String)
    ensures
        out@ == module_ref_content(source@),
{
    let mut v: Vec<char> = Vec::new();
    append_str(&mut v, "{\n    \"Source\": \"");
    let e = escape_json_string(source);
    append_str(&mut v, e.as_str());
    append_str(&mut v, "\"\n}\n");
    string_of(v.as_slice())
}

// ---------------------------------------------------------------------------
// Default places of generated files
// ---------------------------------------------------------------------------

/// The directory (under the data directory's `ecode`) that an exported
/// project gets by default: the source's file stem (`project` without
/// one), a dash and the time in milliseconds.
pub fn exported_ecode_dir_name(stem: Option<&str>, millis: u64) -> (out: String)
    ensures
        out@ == (match stem {
            Some(s) => s@,
            None => "project"@,
        }) + "-"@ + decimal(millis as nat),
{
    let mut v: Vec<char> = Vec::new();
    match stem {
        Some(s) => append_str(&mut v, s),
        None => append_str(&mut v, "project"),
    }
    append_str(&mut v, "-");
    append_chars(&mut v, crate::text::u64_to_decimal(millis).as_slice());
    string_of(v.as_slice())
}

/// The run directory (under the data directory's `auto-runs`) of an `.e`
/// file generated without a given path; the file is `generated.e` in it.
pub fn generated_run_dir_name(millis: u64) -> (out: String)
    ensures
        out@ == "run-"@ + decimal(millis as nat),
{
    let mut v: Vec<char> = Vec::new();
    append_str(&mut v, "run-");
    append_chars(&mut v, crate::text::u64_to_decimal(millis).as_slice());
    string_of(v.as_slice())
}

/// The working project directory (under `generated-ecode`) of code turned
/// into an `.e` file.
pub fn generated_project_dir_name(millis: u64) -> (out: String)
    ensures
        out@ == "project-"@ + decimal(millis as nat),
{
    let mut v: Vec<char> = Vec::new();
    append_str(&mut v, "project-");
    append_chars(&mut v, crate::text::u64_to_decimal(millis).as_slice());
    string_of(v.as_slice())
}

// ---------------------------------------------------------------------------
// Waiting for a file that a tool writes
// ---------------------------------------------------------------------------

/// What a wait for a path does next.
#[derive(Debug)]
pub enum WaitStep {
    /// The path exists: the wait succeeds.
    Found,
    /// The time is up: the wait fails.
    TimedOut,
    /// Sleep this many milliseconds, then look again.
    Sleep(u64),
}

/// The next step of a wait for a path, from whether it exists and how long
/// the wait has lasted: found, timed out, or a sleep of one poll interval
/// that does not run past the timeout.
pub fn wait_step(exists: bool, elapsed_ms: u64, timeout_ms: u64, poll_ms: u64) -> (step: WaitStep)
    ensures
        exists ==> step is Found,
        !exists && elapsed_ms >= timeout_ms ==> step is TimedOut,
        !exists && elapsed_ms < timeout_ms ==> step == WaitStep::Sleep(
            if poll_ms < timeout_ms - elapsed_ms {
                poll_ms
            } else {
                (timeout_ms - elapsed_ms) as u64
            },
        ),
{
    if exists {
        WaitStep::Found
    } else if elapsed_ms >= timeout_ms {
        WaitStep::TimedOut
    } else {
        let left = timeout_ms - elapsed_ms;
        WaitStep::Sleep(if poll_ms < left { poll_ms } else { left })
    }
}

} // verus!
