//! Search/replace patch blocks: parsing them out of a patch text and
//! applying them to a file's content.
use vstd::prelude::*;
use crate::text::{
    append_chars, append_decimal, append_str, chars_of, count_matches, count_matches_exec,
    decimal, find, find_from_exec, is_blank, is_white_space, join, join_chars, lemma_contains_count,
    lemma_find_contains, lemma_views_push, lines, lines_of, normalize_newlines, index_of_char,
    lemma_index_of_char, lemma_next_newline_at, next_newline, split_char, strip_cr,
    normalize_newlines_exec, occurs_at, contains, starts_with,
    starts_with_chars, string_of, sub_chars, trim, trim_chars, trim_end, trim_start, views,
};

verus! {

/// One `<<<<<<< SEARCH ... ======= ... >>>>>>> REPLACE` block.
#[derive(Debug)]
pub struct PatchBlock {
    pub search: String,
    pub replace: String,
}

impl View for PatchBlock {
    type V = (Seq<char>, Seq<char>);

    open spec fn view(&self) -> (Seq<char>, Seq<char>) {
        (self.search@, self.replace@)
    }
}

pub open spec fn block_views(v: Seq<PatchBlock>) -> Seq<(Seq<char>, Seq<char>)> {
    v.map_values(|b: PatchBlock| b@)
}

// ---------------------------------------------------------------------------
// Parsing
// ---------------------------------------------------------------------------

pub open spec fn search_marker() -> Seq<char> {
    "<<<<<<< SEARCH"@
}

pub open spec fn divider_marker() -> Seq<char> {
    "======="@
}

pub open spec fn replace_marker() -> Seq<char> {
    ">>>>>>> REPLACE"@
}

/// A line is a marker line when, trimmed, it starts with the marker.
pub open spec fn is_marker_line(line: Seq<char>, marker: Seq<char>) -> bool {
    starts_with(trim(line), marker)
}

/// The index of the first marker line in `ls`, or `ls.len()`.
pub open spec fn first_marker(ls: Seq<Seq<char>>, marker: Seq<char>) -> int
    decreases ls.len(),
{
    if ls.len() == 0 {
        0
    } else if is_marker_line(ls[0], marker) {
        0
    } else {
        1 + first_marker(ls.drop_first(), marker)
    }
}

pub proof fn lemma_first_marker(ls: Seq<Seq<char>>, marker: Seq<char>)
    ensures
        0 <= first_marker(ls, marker) <= ls.len(),
        first_marker(ls, marker) < ls.len() ==> is_marker_line(
            ls[first_marker(ls, marker)],
            marker,
        ),
        forall|j: int| 0 <= j < first_marker(ls, marker) ==> !is_marker_line(ls[j], marker),
    decreases ls.len(),
{
    if ls.len() > 0 && !is_marker_line(ls[0], marker) {
        lemma_first_marker(ls.drop_first(), marker);
        assert forall|j: int| 0 <= j < first_marker(ls, marker) implies !is_marker_line(
            ls[j],
            marker,
        ) by {
            if j > 0 {
                assert(ls[j] == ls.drop_first()[j - 1]);
            }
        }
    }
}

pub proof fn lemma_first_marker_at(ls: Seq<Seq<char>>, marker: Seq<char>, k: int)
    requires
        0 <= k <= ls.len(),
        k < ls.len() ==> is_marker_line(ls[k], marker),
        forall|j: int| 0 <= j < k ==> !is_marker_line(ls[j], marker),
    ensures
        first_marker(ls, marker) == k,
    decreases ls.len(),
{
    if ls.len() > 0 && !is_marker_line(ls[0], marker) {
        lemma_first_marker_at(ls.drop_first(), marker, k - 1);
    }
}

/// The blocks found in a sequence of lines: a SEARCH marker line opens a
/// block, the lines up to the next divider line are the search text, the
/// lines after it up to the next REPLACE marker line (or the end) are the
/// replacement; a block without a divider is dropped. Lines are joined with
/// `'\n'`.
pub open spec fn parse_blocks(ls: Seq<Seq<char>>) -> Seq<(Seq<char>, Seq<char>)>
    decreases ls.len(),
{
    if ls.len() == 0 {
        seq![]
    } else if !is_marker_line(ls[0], search_marker()) {
        parse_blocks(ls.drop_first())
    } else {
        let rest = ls.drop_first();
        let k = first_marker(rest, divider_marker());
        proof {
            lemma_first_marker(rest, divider_marker());
        }
        if k >= rest.len() {
            seq![]
        } else {
            let rest2 = rest.skip(k + 1);
            let m = first_marker(rest2, replace_marker());
            proof {
                lemma_first_marker(rest2, replace_marker());
            }
            let block = (join(rest.take(k), seq!['\n']), join(rest2.take(m), seq!['\n']));
            if m >= rest2.len() {
                seq![block]
            } else {
                seq![block] + parse_blocks(rest2.skip(m + 1))
            }
        }
    }
}

fn is_marker_line_exec(line: &Vec<char>, marker: &Vec<char>) -> (res: bool)
    ensures
        res == is_marker_line(line@, marker@),
{
    let t = trim_chars(line.as_slice());
    starts_with_chars(t.as_slice(), marker.as_slice())
}

/// Copies `ls[from..to]`.
fn sub_lines(ls: &Vec<Vec<char>>, from: usize, to: usize) -> (out: Vec<Vec<char>>)
    requires
        from <= to <= ls.len(),
    ensures
        views(out@) == views(ls@).subrange(from as int, to as int),
{
    let mut out: Vec<Vec<char>> = Vec::new();
    let mut i = from;
    while i < to
        invariant
            from <= i <= to <= ls.len(),
            views(out@) == views(ls@).subrange(from as int, i as int),
        decreases to - i,
    {
        proof {
            lemma_views_push(out@, ls@[i as int]);
        }
        out.push(ls[i].clone());
        assert(views(ls@).subrange(from as int, i + 1) == views(ls@).subrange(
            from as int,
            i as int,
        ).push(views(ls@)[i as int]));
        i += 1;
    }
    out
}

/// The first marker line at or after `from`, or `ls.len()`.
fn scan_marker(ls: &Vec<Vec<char>>, marker: &Vec<char>, from: usize) -> (k: usize)
    requires
        from <= ls.len(),
    ensures
        from <= k <= ls.len(),
        k - from == first_marker(views(ls@).skip(from as int), marker@),
{
    let mut i = from;
    while i < ls.len() && !is_marker_line_exec(&ls[i], marker)
        invariant
            from <= i <= ls.len(),
            forall|j: int| from <= j < i ==> !is_marker_line(views(ls@)[j], marker@),
        decreases ls.len() - i,
    {
        i += 1;
    }
    proof {
        let t = views(ls@).skip(from as int);
        lemma_first_marker_at(t, marker@, i - from);
    }
    i
}

/// Parses the search/replace blocks of a patch text.
pub fn parse_patches(patch_text: &str) -> (patches: Vec<PatchBlock>)
    ensures
        block_views(patches@) == parse_blocks(lines(patch_text@)),
{
    let text = chars_of(patch_text);
    let ls = lines_of(text.as_slice());
    let ghost all = views(ls@);
    let search_m = chars_of("<<<<<<< SEARCH");
    let divider_m = chars_of("=======");
    let replace_m = chars_of(">>>>>>> REPLACE");
    let newline = chars_of("\n");
    proof {
        reveal_strlit("\n");
        assert(newline@ == seq!['\n']);
    }
    let mut patches: Vec<PatchBlock> = Vec::new();
    let mut i: usize = 0;
    assert(all.skip(0) == all);
    while i < ls.len()
        invariant
            i <= ls.len(),
            all == views(ls@),
            search_m@ == search_marker(),
            divider_m@ == divider_marker(),
            replace_m@ == replace_marker(),
            newline@ == seq!['\n'],
            parse_blocks(all) == block_views(patches@) + parse_blocks(all.skip(i as int)),
        decreases ls.len() - i,
    {
        let ghost cur = all.skip(i as int);
        assert(cur[0] == all[i as int]);
        assert(cur.drop_first() == all.skip(i + 1));
        let mut next = i + 1;
        if is_marker_line_exec(&ls[i], &search_m) {
            let k = scan_marker(&ls, &divider_m, i + 1);
            if k < ls.len() {
                let m = scan_marker(&ls, &replace_m, k + 1);
                let search_lines = sub_lines(&ls, i + 1, k);
                let replace_lines = sub_lines(&ls, k + 1, m);
                let search = string_of(join_chars(&search_lines, newline.as_slice()).as_slice());
                let replace = string_of(join_chars(&replace_lines, newline.as_slice()).as_slice());
                let block = PatchBlock { search, replace };
                proof {
                    let rest = cur.drop_first();
                    assert(rest == all.skip(i + 1));
                    assert(rest.take(k - i - 1) == all.subrange(i + 1, k as int));
                    let rest2 = rest.skip(k - i);
                    assert(rest2 == all.skip(k + 1));
                    assert(rest2.take(m - k - 1) == all.subrange(k + 1, m as int));
                    if m < ls.len() {
                        assert(rest2.skip(m - k) == all.skip(m + 1));
                    } else {
                        assert(all.skip(ls.len() as int).len() == 0);
                    }
                    assert(block_views(patches@.push(block)) == block_views(patches@).push(
                        block@,
                    ));
                }
                patches.push(block);
                next = if m < ls.len() {
                    m + 1
                } else {
                    ls.len()
                };
            } else {
                proof {
                    assert(all.skip(ls.len() as int).len() == 0);
                }
                next = ls.len();
            }
        }
        i = next;
    }
    proof {
        assert(all.skip(i as int).len() == 0);
        assert(block_views(patches@) + seq![] == block_views(patches@));
    }
    patches
}

// ---------------------------------------------------------------------------
// Applying
// ---------------------------------------------------------------------------

/// The message for the `index`-th block (from 0) whose search text is blank.
pub open spec fn empty_search_message(index: nat) -> Seq<char> {
    "第 "@ + decimal(index + 1) + " 个 Patch 的 SEARCH 块为空，无法进行替换"@
}

/// The message for a block whose search text is not found.
pub open spec fn not_found_message(index: nat, search: Seq<char>) -> Seq<char> {
    "第 "@ + decimal(index + 1) + " 个 Patch 块在文件中找不到指定的 SEARCH 代码片段。原 SEARCH 段：\n"@
        + search
}

/// The message for a block whose search text occurs more than once.
pub open spec fn ambiguous_message(index: nat, count: nat) -> Seq<char> {
    "第 "@ + decimal(index + 1) + " 个 Patch 块在文件中找到多个重复的匹配项（共 "@ + decimal(count)
        + " 处），替换不唯一，拒绝应用。请提供更多上下文行。"@
}

/// `c` with `len` characters at position `k` replaced by `r`.
pub open spec fn splice(c: Seq<char>, k: int, len: int, r: Seq<char>) -> Seq<char> {
    c.take(k) + r + c.skip(k + len)
}

/// Applies the `index`-th block to `content`. After line breaks are made
/// uniform, a search text found exactly once is replaced by the
/// replacement; one not found at all is looked for once more trimmed, in the
/// trimmed content, and if it is found there exactly once its first
/// occurrence is replaced by the trimmed replacement; otherwise the block is
/// refused.
pub open spec fn apply_block(content: Seq<char>, block: (Seq<char>, Seq<char>), index: nat) -> Result<
    Seq<char>,
    Seq<char>,
> {
    let c = normalize_newlines(content);
    let s = normalize_newlines(block.0);
    let r = normalize_newlines(block.1);
    if trim(s).len() == 0 {
        Err(empty_search_message(index))
    } else {
        let count = count_matches(c, s);
        if count == 0 {
            let ts = trim(s);
            if count_matches(trim(c), ts) == 1 {
                Ok(splice(c, find(c, ts)->0, ts.len() as int, trim(r)))
            } else {
                Err(not_found_message(index, block.0))
            }
        } else if count > 1 {
            Err(ambiguous_message(index, count))
        } else {
            Ok(splice(c, find(c, s)->0, s.len() as int, r))
        }
    }
}

/// Applies `blocks[from..]` in order, stopping at the first refused block.
pub open spec fn apply_blocks_from(
    content: Seq<char>,
    blocks: Seq<(Seq<char>, Seq<char>)>,
    from: int,
) -> Result<Seq<char>, Seq<char>>
    decreases blocks.len() - from,
{
    if from < 0 || from >= blocks.len() {
        Ok(content)
    } else {
        match apply_block(content, blocks[from], from as nat) {
            Ok(next) => apply_blocks_from(next, blocks, from + 1),
            Err(e) => Err(e),
        }
    }
}

pub open spec fn apply_blocks(content: Seq<char>, blocks: Seq<(Seq<char>, Seq<char>)>) -> Result<
    Seq<char>,
    Seq<char>,
> {
    apply_blocks_from(content, blocks, 0)
}

proof fn lemma_occurs_in_sub(h: Seq<char>, a: int, b: int, n: Seq<char>)
    requires
        0 <= a <= b <= h.len(),
        contains(h.subrange(a, b), n),
    ensures
        contains(h, n),
{
    let i = choose|i: int| occurs_at(h.subrange(a, b), n, i);
    assert(h.subrange(a, b).subrange(i, i + n.len()) == h.subrange(a + i, a + i + n.len()));
    assert(occurs_at(h, n, a + i));
}

fn message_with_index(head: &str, index: usize, tail: &str) -> (out: Vec<char>)
    requires
        index < usize::MAX,
    ensures
        out@ == head@ + decimal(index as nat + 1) + tail@,
{
    let mut m = chars_of(head);
    append_decimal(&mut m, index + 1);
    append_str(&mut m, tail);
    m
}

/// Applies one block to the content; see `apply_block`.
pub fn apply_one_patch(content: &[char], block: &PatchBlock, index: usize) -> (res: Result<
    Vec<char>,
    String,
>)
    requires
        index < usize::MAX,
    ensures
        match res {
            Ok(c) => apply_block(content@, block@, index as nat) == Ok::<Seq<char>, Seq<char>>(
                c@,
            ),
            Err(e) => apply_block(content@, block@, index as nat) == Err::<Seq<char>, Seq<char>>(
                e@,
            ),
        },
{
    let c = normalize_newlines_exec(content);
    let s = normalize_newlines_exec(chars_of(block.search.as_str()).as_slice());
    let r = normalize_newlines_exec(chars_of(block.replace.as_str()).as_slice());
    if is_blank(s.as_slice()) {
        let m = message_with_index("第 ", index, " 个 Patch 的 SEARCH 块为空，无法进行替换");
        return Err(string_of(m.as_slice()));
    }
    proof {
        lemma_trim_nonempty(s@);
    }
    let count = count_matches_exec(c.as_slice(), s.as_slice());
    if count == 0 {
        let tc = trim_chars(c.as_slice());
        let ts = trim_chars(s.as_slice());
        proof {
            lemma_trim_nonempty_inner(s@);
        }
        let tcount = count_matches_exec(tc.as_slice(), ts.as_slice());
        if tcount == 1 {
            proof {
                lemma_contains_count(tc@, ts@);
                lemma_trim_is_sub(c@);
                let (a, b) = trim_sub_bounds(c@);
                lemma_occurs_in_sub(c@, a, b, ts@);
                lemma_find_contains(c@, ts@);
            }
            let k = find_from_exec(c.as_slice(), ts.as_slice(), 0).unwrap();
            assert(occurs_at(c@, ts@, k as int));
            assert(k + ts.len() <= c.len());
            let tr = trim_chars(r.as_slice());
            let mut out = sub_chars(c.as_slice(), 0, k);
            append_chars(&mut out, tr.as_slice());
            let tail = sub_chars(c.as_slice(), k + ts.len(), c.len());
            append_chars(&mut out, tail.as_slice());
            proof {
                assert(c@.subrange(0, k as int) == c@.take(k as int));
                assert(c@.subrange(k + ts.len(), c.len() as int) == c@.skip(k + ts.len()));
            }
            Ok(out)
        } else {
            let mut m = message_with_index(
                "第 ",
                index,
                " 个 Patch 块在文件中找不到指定的 SEARCH 代码片段。原 SEARCH 段：\n",
            );
            append_str(&mut m, block.search.as_str());
            Err(string_of(m.as_slice()))
        }
    } else if count > 1 {
        let mut m = message_with_index(
            "第 ",
            index,
            " 个 Patch 块在文件中找到多个重复的匹配项（共 ",
        );
        append_decimal(&mut m, count);
        append_str(&mut m, " 处），替换不唯一，拒绝应用。请提供更多上下文行。");
        Err(string_of(m.as_slice()))
    } else {
        proof {
            lemma_contains_count(c@, s@);
            lemma_find_contains(c@, s@);
        }
        let k = find_from_exec(c.as_slice(), s.as_slice(), 0).unwrap();
        assert(occurs_at(c@, s@, k as int));
        assert(k + s.len() <= c.len());
        let mut out = sub_chars(c.as_slice(), 0, k);
        append_chars(&mut out, r.as_slice());
        let tail = sub_chars(c.as_slice(), k + s.len(), c.len());
        append_chars(&mut out, tail.as_slice());
        proof {
            assert(c@.subrange(0, k as int) == c@.take(k as int));
            assert(c@.subrange(k + s.len(), c.len() as int) == c@.skip(k + s.len()));
        }
        Ok(out)
    }
}

proof fn lemma_trim_nonempty(s: Seq<char>)
    requires
        trim(s).len() != 0,
    ensures
        s.len() > 0,
{
    if s.len() == 0 {
        assert(trim_start(s) == s);
        assert(trim_end(s) == s);
    }
}

proof fn lemma_trim_nonempty_inner(s: Seq<char>)
    requires
        trim(s).len() != 0,
    ensures
        trim(s).len() > 0,
{
}

/// The bounds of `trim(s)` inside `s`, as spec values.
pub open spec fn trim_sub_bounds(s: Seq<char>) -> (int, int) {
    (s.len() - trim_start(s).len(), s.len() - trim_start(s).len() + trim(s).len())
}

pub proof fn lemma_trim_start_is_skip(s: Seq<char>)
    ensures
        trim_start(s).len() <= s.len(),
        trim_start(s) == s.skip(s.len() - trim_start(s).len()),
    decreases s.len(),
{
    if s.len() > 0 && is_white_space(s[0]) {
        lemma_trim_start_is_skip(s.drop_first());
        assert(s.drop_first().skip(s.drop_first().len() - trim_start(s).len()) == s.skip(
            s.len() - trim_start(s).len(),
        ));
    }
}

pub proof fn lemma_trim_end_is_take(s: Seq<char>)
    ensures
        trim_end(s).len() <= s.len(),
        trim_end(s) == s.take(trim_end(s).len() as int),
    decreases s.len(),
{
    if s.len() > 0 && is_white_space(s.last()) {
        lemma_trim_end_is_take(s.drop_last());
        assert(s.drop_last().take(trim_end(s).len() as int) == s.take(trim_end(s).len() as int));
    }
}

pub proof fn lemma_trim_is_sub(s: Seq<char>)
    ensures
        0 <= trim_sub_bounds(s).0 <= trim_sub_bounds(s).1 <= s.len(),
        trim(s) == s.subrange(trim_sub_bounds(s).0, trim_sub_bounds(s).1),
{
    lemma_trim_start_is_skip(s);
    let t = trim_start(s);
    lemma_trim_end_is_take(t);
    let a = s.len() - t.len();
    assert(t.take(trim(s).len() as int) == s.subrange(a, a + trim(s).len()));
}

/// Applies the blocks in order to the content; see `apply_blocks`.
pub fn apply_patches(content: &str, patches: &Vec<PatchBlock>) -> (res: Result<String, String>)
    ensures
        match res {
            Ok(c) => apply_blocks(content@, block_views(patches@)) == Ok::<
                Seq<char>,
                Seq<char>,
            >(c@),
            Err(e) => apply_blocks(content@, block_views(patches@)) == Err::<
                Seq<char>,
                Seq<char>,
            >(e@),
        },
{
    let ghost blocks = block_views(patches@);
    let mut current = chars_of(content);
    let mut i: usize = 0;
    while i < patches.len()
        invariant
            i <= patches.len(),
            blocks == block_views(patches@),
            apply_blocks(content@, blocks) == apply_blocks_from(current@, blocks, i as int),
        decreases patches.len() - i,
    {
        assert(blocks[i as int] == patches@[i as int]@);
        match apply_one_patch(current.as_slice(), &patches[i], i) {
            Ok(next) => {
                current = next;
            },
            Err(e) => {
                return Err(e);
            },
        }
        i += 1;
    }
    Ok(string_of(current.as_slice()))
}

/// The message when a patch text holds no block.
pub open spec fn no_blocks_message() -> Seq<char> {
    "未在输入的 patch 中解析到有效的 <<<<<<< SEARCH ... ======= ... >>>>>>> REPLACE 块"@
}

/// The blocks of a patch text, or an error when it holds none.
pub fn prepare_patches(patch_content: &str) -> (res: Result<Vec<PatchBlock>, String>)
    ensures
        match res {
            Ok(p) => p@.len() > 0 && block_views(p@) == parse_blocks(lines(patch_content@)),
            Err(e) => parse_blocks(lines(patch_content@)).len() == 0 && e@ == no_blocks_message(),
        },
{
    let patches = parse_patches(patch_content);
    if patches.len() == 0 {
        Err(
            "未在输入的 patch 中解析到有效的 <<<<<<< SEARCH ... ======= ... >>>>>>> REPLACE 块".to_owned(),
        )
    } else {
        Ok(patches)
    }
}

/// The report after `count` blocks were applied.
pub fn patch_success_message(count: usize) -> (out: String)
    ensures
        out@ == "成功应用 "@ + decimal(count as nat) + " 个 Patch 块修改。"@,
{
    let mut m = chars_of("成功应用 ");
    append_decimal(&mut m, count);
    append_str(&mut m, " 个 Patch 块修改。");
    string_of(m.as_slice())
}

proof fn lemma_no_cr_concat(a: Seq<char>, b: Seq<char>)
    requires
        !a.contains('\r'),
        !b.contains('\r'),
    ensures
        !(a + b).contains('\r'),
{
    if (a + b).contains('\r') {
        let i = choose|i: int| 0 <= i < (a + b).len() && (a + b)[i] == '\r';
        if i < a.len() {
            assert(a[i] == '\r');
        } else {
            assert(b[i - a.len()] == '\r');
        }
    }
}

/// A block whose search text occurs once in the content (and nowhere else,
/// overlapping occurrences included) replaces exactly that occurrence:
/// what comes before and after it is kept as it was.
pub proof fn law_unique_search_is_replaced(
    before: Seq<char>,
    search: Seq<char>,
    after: Seq<char>,
    replace: Seq<char>,
    index: nat,
)
    requires
        !before.contains('\r'),
        !search.contains('\r'),
        !after.contains('\r'),
        !replace.contains('\r'),
        trim(search).len() > 0,
        forall|j: int|
            occurs_at(before + search + after, search, j) ==> j == before.len(),
    ensures
        apply_block(before + search + after, (search, replace), index) == Ok::<
            Seq<char>,
            Seq<char>,
        >(before + replace + after),
{
    let c = before + search + after;
    lemma_no_cr_concat(before, search);
    lemma_no_cr_concat(before + search, after);
    crate::text::lemma_normalize_identity(c);
    crate::text::lemma_normalize_identity(search);
    crate::text::lemma_normalize_identity(replace);
    assert(search.len() > 0);
    assert(c.subrange(before.len() as int, (before.len() + search.len()) as int) =~= search);
    assert(occurs_at(c, search, before.len() as int));
    lemma_find_contains(c, search);
    crate::text::lemma_find_from(c, search, 0);
    let k = find(c, search)->0;
    assert(k == before.len());
    crate::text::lemma_count_from_find(c, search, 0);
    crate::text::lemma_count_from_find(c, search, k + search.len());
    crate::text::lemma_find_from(c, search, k + search.len());
    assert(count_matches(c, search) == 1);
    assert(c.take(k) =~= before);
    assert(c.skip(k + search.len()) =~= after);
}

/// A block whose search text occurs more than once is refused, with the
/// number of occurrences in the message.
pub proof fn law_ambiguous_search_is_refused(
    content: Seq<char>,
    search: Seq<char>,
    replace: Seq<char>,
    index: nat,
)
    requires
        trim(normalize_newlines(search)).len() > 0,
        count_matches(normalize_newlines(content), normalize_newlines(search)) > 1,
    ensures
        apply_block(content, (search, replace), index) == Err::<Seq<char>, Seq<char>>(
            ambiguous_message(
                index,
                count_matches(normalize_newlines(content), normalize_newlines(search)),
            ),
        ),
{
}

/// The lines of one block written in the documented format.
pub open spec fn block_lines(search: Seq<Seq<char>>, replace: Seq<Seq<char>>) -> Seq<Seq<char>> {
    seq![search_marker()] + search + seq![divider_marker()] + replace + seq![replace_marker()]
}

/// The lines of some blocks written one after the other.
pub open spec fn rendered_lines(blocks: Seq<(Seq<Seq<char>>, Seq<Seq<char>>)>) -> Seq<Seq<char>>
    decreases blocks.len(),
{
    if blocks.len() == 0 {
        seq![]
    } else {
        block_lines(blocks[0].0, blocks[0].1) + rendered_lines(blocks.drop_first())
    }
}

/// A block can be written in the format when no search line reads as a
/// divider and no replacement line reads as the end marker.
pub open spec fn writable_block(search: Seq<Seq<char>>, replace: Seq<Seq<char>>) -> bool {
    &&& forall|j: int| 0 <= j < search.len() ==> !is_marker_line(#[trigger] search[j], divider_marker())
    &&& forall|j: int| 0 <= j < replace.len() ==> !is_marker_line(#[trigger] replace[j], replace_marker())
}

proof fn lemma_markers_are_marker_lines()
    ensures
        is_marker_line(search_marker(), search_marker()),
        is_marker_line(divider_marker(), divider_marker()),
        is_marker_line(replace_marker(), replace_marker()),
{
    reveal_strlit("<<<<<<< SEARCH");
    reveal_strlit("=======");
    reveal_strlit(">>>>>>> REPLACE");
    assert(trim(search_marker()) == search_marker());
    assert(trim(divider_marker()) == divider_marker());
    assert(trim(replace_marker()) == replace_marker());
    assert(search_marker().take(search_marker().len() as int) =~= search_marker());
    assert(divider_marker().take(divider_marker().len() as int) =~= divider_marker());
    assert(replace_marker().take(replace_marker().len() as int) =~= replace_marker());
}

proof fn lemma_parse_one_block(
    search: Seq<Seq<char>>,
    replace: Seq<Seq<char>>,
    rest: Seq<Seq<char>>,
)
    requires
        writable_block(search, replace),
    ensures
        parse_blocks(block_lines(search, replace) + rest) == seq![
            (join(search, seq!['\n']), join(replace, seq!['\n'])),
        ] + parse_blocks(rest),
{
    lemma_markers_are_marker_lines();
    let ls = block_lines(search, replace) + rest;
    let r0 = ls.drop_first();
    assert(ls[0] == search_marker());
    assert(r0 =~= search + seq![divider_marker()] + replace + seq![replace_marker()] + rest);
    assert forall|j: int| 0 <= j < search.len() implies !is_marker_line(r0[j], divider_marker()) by {
        assert(r0[j] == search[j]);
    }
    assert(r0[search.len() as int] == divider_marker());
    lemma_first_marker_at(r0, divider_marker(), search.len() as int);
    let k = search.len() as int;
    assert(r0.take(k) =~= search);
    let r2 = r0.skip(k + 1);
    assert(r2 =~= replace + seq![replace_marker()] + rest);
    assert forall|j: int| 0 <= j < replace.len() implies !is_marker_line(r2[j], replace_marker()) by {
        assert(r2[j] == replace[j]);
    }
    assert(r2[replace.len() as int] == replace_marker());
    lemma_first_marker_at(r2, replace_marker(), replace.len() as int);
    let m = replace.len() as int;
    assert(r2.take(m) =~= replace);
    assert(r2.skip(m + 1) =~= rest);
}

/// Blocks written in the documented format (each search text between a
/// SEARCH line and a divider, its replacement between the divider and a
/// REPLACE line) are read back block for block, their lines joined with
/// line breaks.
pub proof fn law_written_blocks_are_read_back(blocks: Seq<(Seq<Seq<char>>, Seq<Seq<char>>)>)
    requires
        forall|i: int| 0 <= i < blocks.len() ==> writable_block(#[trigger] blocks[i].0, blocks[i].1),
    ensures
        parse_blocks(rendered_lines(blocks)) == blocks.map_values(
            |b: (Seq<Seq<char>>, Seq<Seq<char>>)| (join(b.0, seq!['\n']), join(b.1, seq!['\n'])),
        ),
    decreases blocks.len(),
{
    if blocks.len() > 0 {
        let tail = blocks.drop_first();
        assert forall|i: int| 0 <= i < tail.len() implies writable_block(#[trigger] tail[i].0, tail[i].1) by {
            assert(tail[i] == blocks[i + 1]);
        }
        law_written_blocks_are_read_back(tail);
        assert(writable_block(blocks[0].0, blocks[0].1));
        lemma_parse_one_block(blocks[0].0, blocks[0].1, rendered_lines(tail));
        assert(blocks.map_values(
            |b: (Seq<Seq<char>>, Seq<Seq<char>>)| (join(b.0, seq!['\n']), join(b.1, seq!['\n'])),
        ) =~= seq![(join(blocks[0].0, seq!['\n']), join(blocks[0].1, seq!['\n']))]
            + tail.map_values(
            |b: (Seq<Seq<char>>, Seq<Seq<char>>)| (join(b.0, seq!['\n']), join(b.1, seq!['\n'])),
        ));
    } else {
        assert(rendered_lines(blocks) == Seq::<Seq<char>>::empty());
    }
}

/// The lines of a text without carriage returns, followed by a line break
/// and more text, are its pieces between line breaks, then the lines of
/// the rest.
proof fn lemma_lines_concat(x: Seq<char>, y: Seq<char>)
    requires
        !x.contains('\r'),
    ensures
        lines(x + seq!['\n'] + y) == split_char(x, '\n') + lines(y),
    decreases x.len(),
{
    let t = x + seq!['\n'] + y;
    let k = index_of_char(x, '\n');
    lemma_index_of_char(x, '\n');
    assert forall|j: int| 0 <= j < k implies t[j] != '\n' by {
        assert(t[j] == x[j]);
    }
    if k < x.len() {
        assert(t[k] == x[k]);
    } else {
        assert(t[x.len() as int] == '\n');
    }
    lemma_next_newline_at(t, k);
    assert(t.take(k) =~= x.take(k));
    if k > 0 {
        assert(x.take(k).last() == x[k - 1]);
        assert(x[k - 1] != '\r');
    }
    assert(strip_cr(t.take(k)) == x.take(k));
    if k == x.len() {
        assert(x.take(k) =~= x);
        assert(t.skip(k + 1) =~= y);
        assert(split_char(x, '\n') == seq![x]);
    } else {
        let x2 = x.skip(k + 1);
        assert(t.skip(k + 1) =~= x2 + seq!['\n'] + y);
        assert(!x2.contains('\r')) by {
            if x2.contains('\r') {
                let j = choose|j: int| 0 <= j < x2.len() && x2[j] == '\r';
                assert(x[j + k + 1] == '\r');
            }
        }
        lemma_lines_concat(x2, y);
        assert(split_char(x, '\n') == seq![x.take(k)] + split_char(x2, '\n'));
        assert(seq![x.take(k)] + (split_char(x2, '\n') + lines(y)) =~= seq![x.take(k)]
            + split_char(x2, '\n') + lines(y));
    }
}

/// Joining a first part onto more parts puts the separator between them.
proof fn lemma_join_cons(a: Seq<char>, rest: Seq<Seq<char>>, sep: Seq<char>)
    requires
        rest.len() >= 1,
    ensures
        join(seq![a] + rest, sep) == a + sep + join(rest, sep),
    decreases rest.len(),
{
    let all = seq![a] + rest;
    assert(all.last() == rest.last());
    assert(all.len() >= 2);
    assert(join(all, sep) == join(all.drop_last(), sep) + sep + all.last());
    if rest.len() == 1 {
        assert(all.drop_last() =~= seq![a]);
        assert(join(seq![a], sep) == a);
        assert(join(rest, sep) == rest[0]);
        assert(rest.last() == rest[0]);
    } else {
        assert(all.drop_last() =~= seq![a] + rest.drop_last());
        assert(join(rest, sep) == join(rest.drop_last(), sep) + sep + rest.last());
        lemma_join_cons(a, rest.drop_last(), sep);
        assert(a + sep + join(rest.drop_last(), sep) + sep + rest.last() =~= a + sep + (join(
            rest.drop_last(),
            sep,
        ) + sep + rest.last()));
    }
}

/// Splitting a text at line breaks and joining the pieces with line
/// breaks gives the text back.
proof fn lemma_join_split(x: Seq<char>)
    ensures
        join(split_char(x, '\n'), seq!['\n']) == x,
    decreases x.len(),
{
    let k = index_of_char(x, '\n');
    lemma_index_of_char(x, '\n');
    if k < x.len() {
        let x2 = x.skip(k + 1);
        lemma_join_split(x2);
        assert(split_char(x, '\n') == seq![x.take(k)] + split_char(x2, '\n'));
        lemma_join_cons(x.take(k), split_char(x2, '\n'), seq!['\n']);
        assert(x.take(k) + seq!['\n'] + x2 =~= x);
    } else {
        assert(split_char(x, '\n') == seq![x]);
    }
}

/// A line without line breaks or carriage returns is its own single line.
proof fn lemma_single_line(m: Seq<char>)
    requires
        m.len() > 0,
        !m.contains('\n'),
        !m.contains('\r'),
    ensures
        lines(m) == seq![m],
        split_char(m, '\n') == seq![m],
{
    lemma_next_newline_at(m, m.len() as int);
    lemma_index_of_char(m, '\n');
    if index_of_char(m, '\n') < m.len() {
        assert(m.contains('\n'));
    }
    assert(m.take(m.len() as int) =~= m);
    if m.last() == '\r' {
        assert(m.contains('\r'));
    }
}

/// A block written as text (the SEARCH line, the search text, the divider
/// line, the replacement and the REPLACE line, joined by line breaks) is
/// read back as exactly that search text and replacement, when neither
/// holds a carriage return, no line of the search text reads as a divider
/// and no line of the replacement reads as the end marker.
pub proof fn law_written_block_text_is_read_back(search: Seq<char>, replace: Seq<char>)
    requires
        !search.contains('\r'),
        !replace.contains('\r'),
        writable_block(split_char(search, '\n'), split_char(replace, '\n')),
    ensures
        parse_blocks(
            lines(
                search_marker() + seq!['\n'] + search + seq!['\n'] + divider_marker() + seq!['\n']
                    + replace + seq!['\n'] + replace_marker(),
            ),
        ) == seq![(search, replace)],
{
    reveal_strlit("<<<<<<< SEARCH");
    reveal_strlit("=======");
    reveal_strlit(">>>>>>> REPLACE");
    let m1 = search_marker();
    let m2 = divider_marker();
    let m3 = replace_marker();
    let nl = seq!['\n'];
    lemma_single_line(m1);
    lemma_single_line(m2);
    lemma_single_line(m3);
    let t4 = replace + nl + m3;
    let t3 = m2 + nl + t4;
    let t2 = search + nl + t3;
    let t1 = m1 + nl + t2;
    lemma_lines_concat(replace, m3);
    lemma_lines_concat(m2, t4);
    lemma_lines_concat(search, t3);
    lemma_lines_concat(m1, t2);
    let ss = split_char(search, '\n');
    let rs = split_char(replace, '\n');
    assert(m1 + nl + search + nl + m2 + nl + replace + nl + m3 =~= t1);
    assert(lines(t1) =~= block_lines(ss, rs) + Seq::<Seq<char>>::empty());
    lemma_parse_one_block(ss, rs, Seq::<Seq<char>>::empty());
    lemma_join_split(search);
    lemma_join_split(replace);
    assert(parse_blocks(Seq::<Seq<char>>::empty()) == Seq::<(Seq<char>, Seq<char>)>::empty());
    assert(seq![(join(ss, nl), join(rs, nl))] + Seq::<(Seq<char>, Seq<char>)>::empty()
        =~= seq![(search, replace)]);
}

proof fn lemma_apply_prefix(
    content: Seq<char>,
    blocks: Seq<(Seq<char>, Seq<char>)>,
    k: int,
    from: int,
)
    requires
        0 <= from <= k < blocks.len(),
    ensures
        apply_blocks_from(content, blocks.take(k + 1), from) == match apply_blocks_from(
            content,
            blocks.take(k),
            from,
        ) {
            Ok(m) => apply_block(m, blocks[k], k as nat),
            Err(e) => Err(e),
        },
    decreases k - from,
{
    let t1 = blocks.take(k + 1);
    let t0 = blocks.take(k);
    assert(t1[from] == blocks[from]);
    if from == k {
        assert(apply_blocks_from(content, t0, from) == Ok::<Seq<char>, Seq<char>>(content));
        match apply_block(content, t1[from], from as nat) {
            Ok(next) => {
                assert(apply_blocks_from(next, t1, from + 1) == Ok::<Seq<char>, Seq<char>>(next));
            },
            Err(e) => {},
        }
    } else {
        assert(t0[from] == blocks[from]);
        match apply_block(content, blocks[from], from as nat) {
            Ok(next) => {
                lemma_apply_prefix(next, blocks, k, from + 1);
            },
            Err(e) => {},
        }
    }
}

/// Blocks are applied one after the other: no blocks leave the content as
/// it is, and applying the first `k + 1` blocks is applying the first `k`
/// and then block `k` to the content they produced (a refusal stops
/// everything). So every block sees the edits of the blocks before it.
pub proof fn law_blocks_apply_in_sequence(
    content: Seq<char>,
    blocks: Seq<(Seq<char>, Seq<char>)>,
    k: int,
)
    requires
        0 <= k < blocks.len(),
    ensures
        apply_blocks(content, Seq::empty()) == Ok::<Seq<char>, Seq<char>>(content),
        apply_blocks(content, blocks.take(k + 1)) == match apply_blocks(content, blocks.take(k)) {
            Ok(m) => apply_block(m, blocks[k], k as nat),
            Err(e) => Err(e),
        },
{
    lemma_apply_prefix(content, blocks, k, 0);
}

/// Two blocks whose search texts each occur once, one before the other,
/// both take effect: the first replaces its text, then the second replaces
/// its own in what the first produced.
pub proof fn law_two_unique_edits_both_apply(
    a: Seq<char>,
    s1: Seq<char>,
    m: Seq<char>,
    s2: Seq<char>,
    b: Seq<char>,
    r1: Seq<char>,
    r2: Seq<char>,
)
    requires
        !a.contains('\r'),
        !s1.contains('\r'),
        !m.contains('\r'),
        !s2.contains('\r'),
        !b.contains('\r'),
        !r1.contains('\r'),
        !r2.contains('\r'),
        trim(s1).len() > 0,
        trim(s2).len() > 0,
        forall|j: int| occurs_at(a + s1 + (m + s2 + b), s1, j) ==> j == a.len(),
        forall|j: int| occurs_at(a + r1 + m + s2 + b, s2, j) ==> j == (a + r1 + m).len(),
    ensures
        apply_blocks(a + s1 + (m + s2 + b), seq![(s1, r1), (s2, r2)]) == Ok::<
            Seq<char>,
            Seq<char>,
        >(a + r1 + m + r2 + b),
{
    let blocks = seq![(s1, r1), (s2, r2)];
    let c = a + s1 + (m + s2 + b);
    lemma_no_cr_concat(m, s2);
    lemma_no_cr_concat(m + s2, b);
    law_unique_search_is_replaced(a, s1, m + s2 + b, r1, 0);
    let c1 = a + r1 + (m + s2 + b);
    assert(c1 =~= (a + r1 + m) + s2 + b);
    lemma_no_cr_concat(a, r1);
    lemma_no_cr_concat(a + r1, m);
    assert(forall|j: int| occurs_at((a + r1 + m) + s2 + b, s2, j) ==> j == (a + r1 + m).len()) by {
        assert((a + r1 + m) + s2 + b =~= a + r1 + m + s2 + b);
    }
    law_unique_search_is_replaced(a + r1 + m, s2, b, r2, 1);
    assert((a + r1 + m) + r2 + b =~= a + r1 + m + r2 + b);
    lemma_apply_prefix(c, blocks, 0, 0);
    lemma_apply_prefix(c, blocks, 1, 0);
    assert(blocks.take(2) =~= blocks);
    assert(blocks.take(0) =~= Seq::<(Seq<char>, Seq<char>)>::empty());
}

} // verus!
