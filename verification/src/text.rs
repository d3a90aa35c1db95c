//! Text primitives over character sequences: the building blocks that the
//! rest of the library uses to read and write source text.
use vstd::prelude::*;

verus! {

// ---------------------------------------------------------------------------
// Conversions between strings and character vectors
// ---------------------------------------------------------------------------

/// `String::push`: appends one character.
#[verifier::external_body]
pub(crate) fn string_push(s: &mut String, c: char)
    ensures
        final(s)@ == old(s)@.push(c),
{
    s.push(c);
}

/// The characters of a string slice, in order.
pub fn chars_of(s: &str) -> (out: Vec<char>)
    ensures
        out@ == s@,
{
    let mut out: Vec<char> = Vec::new();
    for c in it: s.chars()
        invariant
            out@ == it.seq().take(it.index() as int),
            it.seq() == s@,
    {
        out.push(c);
    }
    out
}

/// The string made of the given characters.
pub fn string_of(cs: &[char]) -> (out: String)
    ensures
        out@ == cs@,
{
    let mut out = String::new();
    let mut i: usize = 0;
    while i < cs.len()
        invariant
            i <= cs.len(),
            out@ == cs@.take(i as int),
        decreases cs.len() - i,
    {
        string_push(&mut out, cs[i]);
        assert(cs@.take(i as int + 1) == cs@.take(i as int).push(cs@[i as int]));
        i += 1;
    }
    assert(cs@.take(cs.len() as int) == cs@);
    out
}

/// A copy of `s[from..to]`.
pub fn sub_chars(s: &[char], from: usize, to: usize) -> (out: Vec<char>)
    requires
        from <= to <= s.len(),
    ensures
        out@ == s@.subrange(from as int, to as int),
{
    let mut out: Vec<char> = Vec::new();
    let mut i: usize = from;
    while i < to
        invariant
            from <= i <= to <= s.len(),
            out@ == s@.subrange(from as int, i as int),
        decreases to - i,
    {
        out.push(s[i]);
        assert(s@.subrange(from as int, i as int + 1) == s@.subrange(from as int, i as int).push(
            s@[i as int],
        ));
        i += 1;
    }
    out
}

/// Appends all of `b` to `a`.
pub fn append_chars(a: &mut Vec<char>, b: &[char])
    ensures
        final(a)@ == old(a)@ + b@,
{
    let mut i: usize = 0;
    while i < b.len()
        invariant
            i <= b.len(),
            a@ == old(a)@ + b@.take(i as int),
        decreases b.len() - i,
    {
        a.push(b[i]);
        assert(b@.take(i as int + 1) == b@.take(i as int).push(b@[i as int]));
        i += 1;
    }
    assert(b@.take(b.len() as int) == b@);
}

/// Appends the characters of `b` to `a`.
pub fn append_str(a: &mut Vec<char>, b: &str)
    ensures
        final(a)@ == old(a)@ + b@,
{
    let cs = chars_of(b);
    append_chars(a, cs.as_slice());
}

/// Whether two character slices are equal.
pub fn chars_eq(a: &[char], b: &[char]) -> (res: bool)
    ensures
        res == (a@ == b@),
{
    if a.len() != b.len() {
        return false;
    }
    let mut i: usize = 0;
    while i < a.len()
        invariant
            a.len() == b.len(),
            i <= a.len(),
            forall|j: int| 0 <= j < i ==> a@[j] == b@[j],
        decreases a.len() - i,
    {
        if a[i] != b[i] {
            return false;
        }
        i += 1;
    }
    assert(a@ =~= b@);
    true
}

// ---------------------------------------------------------------------------
// Whitespace and trimming
// ---------------------------------------------------------------------------

/// The characters with the Unicode `White_Space` property, which is what
/// `char::is_whitespace` and `str::trim` go by.
pub open spec fn is_white_space(c: char) -> bool {
    let u = c as u32;
    ||| (0x09 <= u && u <= 0x0D)
    ||| u == 0x20
    ||| u == 0x85
    ||| u == 0xA0
    ||| u == 0x1680
    ||| (0x2000 <= u && u <= 0x200A)
    ||| u == 0x2028
    ||| u == 0x2029
    ||| u == 0x202F
    ||| u == 0x205F
    ||| u == 0x3000
}

pub fn is_whitespace(c: char) -> (res: bool)
    ensures
        res == is_white_space(c),
{
    let u = c as u32;
    (0x09 <= u && u <= 0x0D) || u == 0x20 || u == 0x85 || u == 0xA0 || u == 0x1680 || (0x2000
        <= u && u <= 0x200A) || u == 0x2028 || u == 0x2029 || u == 0x202F || u == 0x205F || u
        == 0x3000
}

/// `s` without its leading whitespace.
pub open spec fn trim_start(s: Seq<char>) -> Seq<char>
    decreases s.len(),
{
    if s.len() > 0 && is_white_space(s[0]) {
        trim_start(s.drop_first())
    } else {
        s
    }
}

/// `s` without its trailing whitespace.
pub open spec fn trim_end(s: Seq<char>) -> Seq<char>
    decreases s.len(),
{
    if s.len() > 0 && is_white_space(s.last()) {
        trim_end(s.drop_last())
    } else {
        s
    }
}

/// `s` without leading and trailing whitespace (`str::trim`).
pub open spec fn trim(s: Seq<char>) -> Seq<char> {
    trim_end(trim_start(s))
}

/// The number of leading whitespace characters.
pub fn trim_start_index(s: &[char]) -> (k: usize)
    ensures
        k <= s.len(),
        trim_start(s@) == s@.skip(k as int),
{
    let mut i: usize = 0;
    assert(s@.skip(0) == s@);
    while i < s.len() && is_whitespace(s[i])
        invariant
            i <= s.len(),
            trim_start(s@) == trim_start(s@.skip(i as int)),
        decreases s.len() - i,
    {
        assert(s@.skip(i as int).drop_first() == s@.skip(i as int + 1));
        i += 1;
    }
    i
}

/// The length of `s` without its trailing whitespace.
pub fn trim_end_index(s: &[char]) -> (k: usize)
    ensures
        k <= s.len(),
        trim_end(s@) == s@.take(k as int),
{
    let mut i: usize = s.len();
    assert(s@.take(s.len() as int) == s@);
    while i > 0 && is_whitespace(s[i - 1])
        invariant
            i <= s.len(),
            trim_end(s@) == trim_end(s@.take(i as int)),
        decreases i,
    {
        assert(s@.take(i as int).drop_last() == s@.take(i as int - 1));
        i -= 1;
    }
    i
}

pub proof fn lemma_trim_end_take(s: Seq<char>, k: int)
    requires
        0 <= k <= s.len(),
        trim_end(s) == s.take(k),
    ensures
        k == 0 || !is_white_space(s[k - 1]),
    decreases s.len(),
{
    if s.len() > 0 && is_white_space(s.last()) {
        if k < s.len() {
            assert(s.drop_last().take(k) == s.take(k));
            lemma_trim_end_take(s.drop_last(), k);
        } else {
            assert(s.take(k) == s);
            lemma_trim_end_shorter(s.drop_last());
        }
    } else {
        assert(s.take(k).len() == s.len());
    }
}

pub proof fn lemma_trim_end_shorter(s: Seq<char>)
    ensures
        trim_end(s).len() <= s.len(),
    decreases s.len(),
{
    if s.len() > 0 && is_white_space(s.last()) {
        lemma_trim_end_shorter(s.drop_last());
    }
}

/// The bounds of `trim(s)` inside `s`.
pub fn trim_bounds(s: &[char]) -> (res: (usize, usize))
    ensures
        res.0 <= res.1 <= s.len(),
        trim(s@) == s@.subrange(res.0 as int, res.1 as int),
{
    let a = trim_start_index(s);
    let mut b: usize = s.len();
    assert(s@.skip(a as int).take((b - a) as int) == s@.subrange(a as int, b as int));
    while b > a && is_whitespace(s[b - 1])
        invariant
            a <= b <= s.len(),
            trim_start(s@) == s@.skip(a as int),
            trim_end(s@.skip(a as int)) == trim_end(s@.subrange(a as int, b as int)),
        decreases b,
    {
        assert(s@.subrange(a as int, b as int).drop_last() == s@.subrange(a as int, b as int - 1));
        b -= 1;
    }
    (a, b)
}

/// `str::trim` on a slice of characters.
pub fn trim_chars(s: &[char]) -> (out: Vec<char>)
    ensures
        out@ == trim(s@),
{
    let (a, b) = trim_bounds(s);
    sub_chars(s, a, b)
}

/// `str::trim_start` on a slice of characters.
pub fn trim_start_chars(s: &[char]) -> (out: Vec<char>)
    ensures
        out@ == trim_start(s@),
{
    let a = trim_start_index(s);
    sub_chars(s, a, s.len())
}

/// `str::trim_end` on a slice of characters.
pub fn trim_end_chars(s: &[char]) -> (out: Vec<char>)
    ensures
        out@ == trim_end(s@),
{
    let b = trim_end_index(s);
    sub_chars(s, 0, b)
}

/// `str::trim` on a string slice.
pub fn trim_str(s: &str) -> (out: String)
    ensures
        out@ == trim(s@),
{
    let cs = chars_of(s);
    let t = trim_chars(cs.as_slice());
    string_of(t.as_slice())
}

/// Whether `trim(s)` is empty, that is every character is whitespace.
pub fn is_blank(s: &[char]) -> (res: bool)
    ensures
        res == (trim(s@).len() == 0),
{
    let (a, b) = trim_bounds(s);
    a == b
}

// ---------------------------------------------------------------------------
// Prefixes, suffixes and substrings
// ---------------------------------------------------------------------------

pub open spec fn starts_with<T>(s: Seq<T>, p: Seq<T>) -> bool {
    p.len() <= s.len() && s.take(p.len() as int) == p
}

pub open spec fn ends_with<T>(s: Seq<T>, p: Seq<T>) -> bool {
    p.len() <= s.len() && s.skip(s.len() - p.len()) == p
}

/// `n` occurs in `h` at position `i`.
pub open spec fn occurs_at<T>(h: Seq<T>, n: Seq<T>, i: int) -> bool {
    0 <= i && i + n.len() <= h.len() && h.subrange(i, i + n.len()) == n
}

/// `str::contains` with a string pattern.
pub open spec fn contains<T>(h: Seq<T>, n: Seq<T>) -> bool {
    exists|i: int| occurs_at(h, n, i)
}

/// The first position at or after `i` where `n` occurs in `h`.
pub open spec fn find_from<T>(h: Seq<T>, n: Seq<T>, i: int) -> Option<int>
    decreases h.len() + 1 - i,
{
    if i < 0 || i + n.len() > h.len() {
        None
    } else if h.subrange(i, i + n.len()) == n {
        Some(i)
    } else {
        find_from(h, n, i + 1)
    }
}

/// `str::find` with a string pattern (a character position here).
pub open spec fn find<T>(h: Seq<T>, n: Seq<T>) -> Option<int> {
    find_from(h, n, 0)
}

pub proof fn lemma_find_from<T>(h: Seq<T>, n: Seq<T>, i: int)
    requires
        0 <= i,
    ensures
        find_from(h, n, i) matches Some(k) ==> i <= k && occurs_at(h, n, k) && forall|j: int|
            i <= j < k ==> !occurs_at(h, n, j),
        find_from(h, n, i) is None ==> forall|j: int| i <= j ==> !occurs_at(h, n, j),
    decreases h.len() + 1 - i,
{
    if i + n.len() > h.len() {
    } else if h.subrange(i, i + n.len()) == n {
    } else {
        lemma_find_from(h, n, i + 1);
    }
}

pub proof fn lemma_find_contains<T>(h: Seq<T>, n: Seq<T>)
    ensures
        find(h, n) is Some <==> contains(h, n),
        find(h, n) matches Some(k) ==> occurs_at(h, n, k),
{
    lemma_find_from(h, n, 0);
}

/// `split(sep)` with a nonempty pattern: the pieces between the
/// occurrences of `sep`, found from left to right; always one piece more
/// than occurrences.
pub open spec fn split_on<T>(data: Seq<T>, sep: Seq<T>) -> Seq<Seq<T>>
    decreases data.len(),
{
    proof {
        lemma_find_from(data, sep, 0);
    }
    if sep.len() == 0 {
        seq![data]
    } else {
        match find(data, sep) {
            Some(k) => seq![data.take(k)] + split_on(data.skip(k + sep.len()), sep),
            None => seq![data],
        }
    }
}

pub proof fn lemma_split_on_len<T>(data: Seq<T>, sep: Seq<T>)
    ensures
        split_on(data, sep).len() >= 1,
{
}

pub fn starts_with_chars(s: &[char], p: &[char]) -> (res: bool)
    ensures
        res == starts_with(s@, p@),
{
    if p.len() > s.len() {
        return false;
    }
    let mut i: usize = 0;
    while i < p.len()
        invariant
            p.len() <= s.len(),
            i <= p.len(),
            forall|j: int| 0 <= j < i ==> s@[j] == p@[j],
        decreases p.len() - i,
    {
        if s[i] != p[i] {
            return false;
        }
        i += 1;
    }
    assert(s@.take(p.len() as int) =~= p@);
    true
}

pub fn ends_with_chars(s: &[char], p: &[char]) -> (res: bool)
    ensures
        res == ends_with(s@, p@),
{
    if p.len() > s.len() {
        return false;
    }
    let off = s.len() - p.len();
    let mut i: usize = 0;
    while i < p.len()
        invariant
            p.len() <= s.len(),
            off == s.len() - p.len(),
            i <= p.len(),
            forall|j: int| 0 <= j < i ==> s@[off + j] == p@[j],
        decreases p.len() - i,
    {
        if s[off + i] != p[i] {
            assert(s@.skip(off as int)[i as int] == s@[off + i]);
            return false;
        }
        i += 1;
    }
    assert(s@.skip(off as int) =~= p@);
    true
}

/// Whether `n` occurs in `h` at position `i`.
pub fn occurs_at_exec(h: &[char], n: &[char], i: usize) -> (res: bool)
    ensures
        res == occurs_at(h@, n@, i as int),
{
    if i > h.len() || n.len() > h.len() - i {
        return false;
    }
    let mut j: usize = 0;
    while j < n.len()
        invariant
            i + n.len() <= h.len(),
            j <= n.len(),
            forall|k: int| 0 <= k < j ==> h@[i + k] == n@[k],
        decreases n.len() - j,
    {
        if h[i + j] != n[j] {
            assert(h@.subrange(i as int, i + n.len())[j as int] == h@[i + j]);
            return false;
        }
        j += 1;
    }
    assert(h@.subrange(i as int, i + n.len()) =~= n@);
    true
}

/// The first position at or after `from` where `n` occurs in `h`.
pub fn find_from_exec(h: &[char], n: &[char], from: usize) -> (res: Option<usize>)
    ensures
        match res {
            Some(k) => find_from(h@, n@, from as int) == Some(k as int),
            None => find_from(h@, n@, from as int) is None,
        },
{
    let mut i: usize = from;
    while i <= h.len() && n.len() <= h.len() - i
        invariant
            from <= i,
            find_from(h@, n@, from as int) == find_from(h@, n@, i as int),
        decreases h.len() + 1 - i,
    {
        if occurs_at_exec(h, n, i) {
            return Some(i);
        }
        if i == h.len() {
            proof {
                if n.len() == 0 {
                    assert(h@.subrange(i as int, i as int) =~= n@);
                }
            }
            return None;
        }
        i += 1;
    }
    None
}

pub fn contains_chars(h: &[char], n: &[char]) -> (res: bool)
    ensures
        res == contains(h@, n@),
{
    proof {
        lemma_find_contains(h@, n@);
    }
    find_from_exec(h, n, 0).is_some()
}

pub fn contains_str(h: &[char], n: &str) -> (res: bool)
    ensures
        res == contains(h@, n@),
{
    let nc = chars_of(n);
    contains_chars(h, nc.as_slice())
}

/// `s.split(sep)` for a nonempty pattern, as character vectors.
pub fn split_text(s: &[char], sep: &[char]) -> (out: Vec<Vec<char>>)
    requires
        sep.len() > 0,
    ensures
        views(out@) == split_on(s@, sep@),
{
    let mut out: Vec<Vec<char>> = Vec::new();
    let mut start: usize = 0;
    assert(s@.skip(0) == s@);
    loop
        invariant
            start <= s.len(),
            sep.len() > 0,
            split_on(s@, sep@) == views(out@) + split_on(s@.skip(start as int), sep@),
        decreases s.len() - start,
    {
        let ghost t = s@.skip(start as int);
        let ghost before = out@;
        let rest = sub_chars(s, start, s.len());
        let found = find_from_exec(rest.as_slice(), sep, 0);
        proof {
            lemma_find_from(t, sep@, 0);
        }
        match found {
            None => {
                out.push(rest);
                assert(views(out@) =~= views(before).push(t));
                assert(views(before) + seq![t] == views(before).push(t));
                return out;
            },
            Some(k) => {
                let piece = sub_chars(rest.as_slice(), 0, k);
                out.push(piece);
                assert(views(out@) =~= views(before).push(t.take(k as int)));
                assert(t.skip(k + sep@.len()) =~= s@.skip(start + k + sep@.len()));
                assert(views(before) + (seq![t.take(k as int)] + split_on(
                    t.skip(k + sep@.len()),
                    sep@,
                )) == views(before).push(t.take(k as int)) + split_on(
                    t.skip(k + sep@.len()),
                    sep@,
                ));
                start = start + k + sep.len();
            },
        }
    }
}

pub fn starts_with_str(s: &[char], p: &str) -> (res: bool)
    ensures
        res == starts_with(s@, p@),
{
    let pc = chars_of(p);
    starts_with_chars(s, pc.as_slice())
}

pub fn ends_with_str(s: &[char], p: &str) -> (res: bool)
    ensures
        res == ends_with(s@, p@),
{
    let pc = chars_of(p);
    ends_with_chars(s, pc.as_slice())
}

pub fn eq_str(s: &[char], p: &str) -> (res: bool)
    ensures
        res == (s@ == p@),
{
    let pc = chars_of(p);
    chars_eq(s, pc.as_slice())
}

/// Whether the character `c` occurs in `s`.
pub fn has_char(s: &[char], c: char) -> (res: bool)
    ensures
        res == s@.contains(c),
{
    let mut i: usize = 0;
    while i < s.len()
        invariant
            i <= s.len(),
            forall|j: int| 0 <= j < i ==> s@[j] != c,
        decreases s.len() - i,
    {
        if s[i] == c {
            return true;
        }
        i += 1;
    }
    false
}

// ---------------------------------------------------------------------------
// Non-overlapping occurrences (`str::match_indices`)
// ---------------------------------------------------------------------------

/// The number of non-overlapping occurrences of a non-empty `n` in `h` at or
/// after position `i`, taken greedily from the left as `match_indices` does.
pub open spec fn count_from(h: Seq<char>, n: Seq<char>, i: int) -> nat
    decreases h.len() - i,
{
    if n.len() == 0 || i < 0 || i + n.len() > h.len() {
        0
    } else if h.subrange(i, i + n.len()) == n {
        1 + count_from(h, n, i + n.len())
    } else {
        count_from(h, n, i + 1)
    }
}

/// `str::match_indices(n).count()`.
pub open spec fn count_matches(h: Seq<char>, n: Seq<char>) -> nat {
    count_from(h, n, 0)
}

pub proof fn lemma_count_from_find(h: Seq<char>, n: Seq<char>, i: int)
    requires
        n.len() > 0,
        0 <= i,
    ensures
        find_from(h, n, i) is None ==> count_from(h, n, i) == 0,
        find_from(h, n, i) matches Some(k) ==> count_from(h, n, i) == 1 + count_from(
            h,
            n,
            k + n.len(),
        ),
    decreases h.len() - i,
{
    if i + n.len() > h.len() {
    } else if h.subrange(i, i + n.len()) == n {
    } else {
        lemma_count_from_find(h, n, i + 1);
    }
}

pub proof fn lemma_contains_count(h: Seq<char>, n: Seq<char>)
    requires
        n.len() > 0,
    ensures
        contains(h, n) <==> count_matches(h, n) > 0,
{
    lemma_find_contains(h, n);
    lemma_count_from_find(h, n, 0);
}

/// The number of non-overlapping occurrences of a non-empty `n` in `h`.
pub fn count_matches_exec(h: &[char], n: &[char]) -> (res: usize)
    requires
        n.len() > 0,
    ensures
        res == count_matches(h@, n@),
{
    let mut i: usize = 0;
    let mut count: usize = 0;
    while i <= h.len() && n.len() <= h.len() - i
        invariant
            n.len() > 0,
            count <= i,
            count + count_from(h@, n@, i as int) == count_matches(h@, n@),
        decreases h.len() + 1 - i,
    {
        if occurs_at_exec(h, n, i) {
            count += 1;
            i += n.len();
        } else {
            i += 1;
        }
    }
    count
}

// ---------------------------------------------------------------------------
// Lines (`str::lines`)
// ---------------------------------------------------------------------------

/// The position of the first `'\n'` in `s`, or its length.
pub open spec fn next_newline(s: Seq<char>) -> int
    decreases s.len(),
{
    if s.len() == 0 {
        0
    } else if s[0] == '\n' {
        0
    } else {
        1 + next_newline(s.drop_first())
    }
}

pub proof fn lemma_next_newline(s: Seq<char>)
    ensures
        0 <= next_newline(s) <= s.len(),
        next_newline(s) < s.len() ==> s[next_newline(s)] == '\n',
        forall|j: int| 0 <= j < next_newline(s) ==> s[j] != '\n',
    decreases s.len(),
{
    if s.len() > 0 && s[0] != '\n' {
        lemma_next_newline(s.drop_first());
        assert forall|j: int| 0 <= j < next_newline(s) implies s[j] != '\n' by {
            if j > 0 {
                assert(s[j] == s.drop_first()[j - 1]);
            }
        }
    }
}

pub proof fn lemma_next_newline_at(s: Seq<char>, k: int)
    requires
        0 <= k <= s.len(),
        k < s.len() ==> s[k] == '\n',
        forall|j: int| 0 <= j < k ==> s[j] != '\n',
    ensures
        next_newline(s) == k,
    decreases s.len(),
{
    if s.len() > 0 && s[0] != '\n' {
        lemma_next_newline_at(s.drop_first(), k - 1);
    }
}

/// One line without a trailing `'\r'`.
pub open spec fn strip_cr(t: Seq<char>) -> Seq<char> {
    if t.len() > 0 && t.last() == '\r' {
        t.drop_last()
    } else {
        t
    }
}

/// `str::lines`: split at `'\n'`, a `'\r'` before the `'\n'` removed, and no
/// empty line after a final `'\n'`.
pub open spec fn lines(s: Seq<char>) -> Seq<Seq<char>>
    decreases s.len(),
{
    if s.len() == 0 {
        seq![]
    } else {
        let k = next_newline(s);
        proof {
            lemma_next_newline(s);
        }
        if k >= s.len() {
            seq![s]
        } else {
            seq![strip_cr(s.take(k))] + lines(s.skip(k + 1))
        }
    }
}

/// The views of a sequence of character vectors.
pub open spec fn views(v: Seq<Vec<char>>) -> Seq<Seq<char>> {
    v.map_values(|x: Vec<char>| x@)
}

pub proof fn lemma_views_push(v: Seq<Vec<char>>, x: Vec<char>)
    ensures
        views(v.push(x)) == views(v).push(x@),
{
    assert(views(v.push(x)) =~= views(v).push(x@));
}

fn strip_cr_exec(t: Vec<char>) -> (out: Vec<char>)
    ensures
        out@ == strip_cr(t@),
{
    let mut t = t;
    if t.len() > 0 && t[t.len() - 1] == '\r' {
        t.pop();
    }
    t
}

pub proof fn lemma_lines_step(s: Seq<char>, start: int, i: int)
    requires
        0 <= start <= i < s.len(),
        s[i] == '\n',
        forall|j: int| start <= j < i ==> s[j] != '\n',
    ensures
        lines(s.skip(start)) == seq![strip_cr(s.subrange(start, i))] + lines(s.skip(i + 1)),
{
    let t = s.skip(start);
    lemma_next_newline_at(t, i - start);
    assert(t.take(i - start) == s.subrange(start, i));
    assert(t.skip(i - start + 1) == s.skip(i + 1));
}

pub proof fn lemma_lines_last(s: Seq<char>, start: int)
    requires
        0 <= start <= s.len(),
        forall|j: int| start <= j < s.len() ==> s[j] != '\n',
    ensures
        lines(s.skip(start)) == (if start == s.len() {
            seq![]
        } else {
            seq![s.skip(start)]
        }),
{
    let t = s.skip(start);
    if t.len() > 0 {
        lemma_next_newline_at(t, t.len() as int);
    }
}

/// `str::lines` on a slice of characters.
pub fn lines_of(s: &[char]) -> (out: Vec<Vec<char>>)
    ensures
        views(out@) == lines(s@),
{
    let mut out: Vec<Vec<char>> = Vec::new();
    let mut cur: Vec<char> = Vec::new();
    let mut start: usize = 0;
    let mut i: usize = 0;
    assert(s@.skip(0) == s@);
    while i < s.len()
        invariant
            start <= i <= s.len(),
            cur@ == s@.subrange(start as int, i as int),
            forall|j: int| start <= j < i ==> s@[j] != '\n',
            lines(s@) == views(out@) + lines(s@.skip(start as int)),
        decreases s.len() - i,
    {
        if s[i] == '\n' {
            proof {
                lemma_lines_step(s@, start as int, i as int);
            }
            let line = strip_cr_exec(cur);
            proof {
                lemma_views_push(out@, line);
                assert(views(out@) + lines(s@.skip(start as int)) == views(out@).push(line@)
                    + lines(s@.skip(i + 1)));
            }
            out.push(line);
            cur = Vec::new();
            i += 1;
            start = i;
        } else {
            cur.push(s[i]);
            assert(s@.subrange(start as int, i + 1) == s@.subrange(start as int, i as int).push(
                s@[i as int],
            ));
            i += 1;
        }
    }
    proof {
        lemma_lines_last(s@, start as int);
    }
    if start < s.len() {
        proof {
            lemma_views_push(out@, cur);
            assert(cur@ == s@.skip(start as int));
        }
        out.push(cur);
    } else {
        assert(views(out@) + seq![] == views(out@));
    }
    out
}

// ---------------------------------------------------------------------------
// Line breaks
// ---------------------------------------------------------------------------

/// Line breaks made uniform: `"\r\n"` and a lone `'\r'` both become `'\n'`
/// (`s.replace("\r\n", "\n").replace('\r', "\n")`).
pub open spec fn normalize_newlines(s: Seq<char>) -> Seq<char>
    decreases s.len(),
{
    if s.len() == 0 {
        seq![]
    } else if s[0] == '\r' && s.len() > 1 && s[1] == '\n' {
        seq!['\n'] + normalize_newlines(s.skip(2))
    } else if s[0] == '\r' {
        seq!['\n'] + normalize_newlines(s.drop_first())
    } else {
        seq![s[0]] + normalize_newlines(s.drop_first())
    }
}

pub fn normalize_newlines_exec(s: &[char]) -> (out: Vec<char>)
    ensures
        out@ == normalize_newlines(s@),
{
    let mut out: Vec<char> = Vec::new();
    let mut i: usize = 0;
    assert(s@.skip(0) == s@);
    while i < s.len()
        invariant
            i <= s.len(),
            normalize_newlines(s@) == out@ + normalize_newlines(s@.skip(i as int)),
        decreases s.len() - i,
    {
        let ghost t = s@.skip(i as int);
        if s[i] == '\r' && i + 1 < s.len() && s[i + 1] == '\n' {
            assert(t.skip(2) == s@.skip(i + 2));
            out.push('\n');
            i += 2;
        } else {
            assert(t.drop_first() == s@.skip(i + 1));
            if s[i] == '\r' {
                out.push('\n');
            } else {
                out.push(s[i]);
            }
            i += 1;
        }
    }
    assert(s@.skip(s.len() as int).len() == 0);
    out
}


pub proof fn lemma_normalize_has_no_cr(s: Seq<char>)
    ensures
        !normalize_newlines(s).contains('\r'),
    decreases s.len(),
{
    if s.len() > 0 {
        let rest = if s[0] == '\r' && s.len() > 1 && s[1] == '\n' {
            s.skip(2)
        } else {
            s.drop_first()
        };
        lemma_normalize_has_no_cr(rest);
        let head = if s[0] == '\r' {
            '\n'
        } else {
            s[0]
        };
        assert(normalize_newlines(s) == seq![head] + normalize_newlines(rest));
        assert forall|i: int| 0 <= i < normalize_newlines(s).len() implies normalize_newlines(
            s,
        )[i] != '\r' by {
            if i > 0 {
                assert(normalize_newlines(s)[i] == normalize_newlines(rest)[i - 1]);
            }
        }
    }
}

pub proof fn lemma_normalize_identity(s: Seq<char>)
    requires
        !s.contains('\r'),
    ensures
        normalize_newlines(s) == s,
    decreases s.len(),
{
    if s.len() > 0 {
        assert(s[0] != '\r');
        assert(!s.drop_first().contains('\r')) by {
            if s.drop_first().contains('\r') {
                let i = choose|i: int| 0 <= i < s.drop_first().len() && s.drop_first()[i] == '\r';
                assert(s[i + 1] == '\r');
            }
        }
        lemma_normalize_identity(s.drop_first());
        assert(seq![s[0]] + s.drop_first() == s);
    }
}

/// Text whose line breaks are all CRLF: every `\n` follows a `\r` and
/// every `\r` precedes a `\n`.
pub open spec fn is_crlf_text(t: Seq<char>) -> bool {
    &&& forall|i: int| 0 <= i < t.len() && #[trigger] t[i] == '\n' ==> i > 0 && t[i - 1] == '\r'
    &&& forall|i: int| 0 <= i < t.len() && #[trigger] t[i] == '\r' ==> i + 1 < t.len() && t[i + 1]
        == '\n'
}

pub proof fn lemma_lf_to_crlf_is_crlf(s: Seq<char>)
    requires
        !s.contains('\r'),
    ensures
        is_crlf_text(lf_to_crlf(s)),
    decreases s.len(),
{
    if s.len() > 0 {
        let rest = s.drop_first();
        assert(!rest.contains('\r')) by {
            if rest.contains('\r') {
                let i = choose|i: int| 0 <= i < rest.len() && rest[i] == '\r';
                assert(s[i + 1] == '\r');
            }
        }
        assert(s[0] != '\r');
        lemma_lf_to_crlf_is_crlf(rest);
        let t = lf_to_crlf(s);
        let u = lf_to_crlf(rest);
        if s[0] == '\n' {
            assert(t == seq!['\r', '\n'] + u);
            assert forall|i: int| 0 <= i < t.len() && #[trigger] t[i] == '\n' implies i > 0 && t[i
                - 1] == '\r' by {
                if i >= 2 {
                    assert(t[i] == u[i - 2]);
                    if i - 2 > 0 {
                        assert(t[i - 1] == u[i - 3]);
                    } else {
                        assert(u[0] == '\n');
                        assert(false);
                    }
                }
            }
            assert forall|i: int| 0 <= i < t.len() && #[trigger] t[i] == '\r' implies i + 1 < t.len()
                && t[i + 1] == '\n' by {
                if i >= 2 {
                    assert(t[i] == u[i - 2]);
                    assert(t[i + 1] == u[i - 1]);
                }
            }
        } else {
            assert(t == seq![s[0]] + u);
            assert forall|i: int| 0 <= i < t.len() && #[trigger] t[i] == '\n' implies i > 0 && t[i
                - 1] == '\r' by {
                if i >= 1 {
                    assert(t[i] == u[i - 1]);
                    if i - 1 > 0 {
                        assert(t[i - 1] == u[i - 2]);
                    } else {
                        assert(u[0] == '\n');
                        assert(false);
                    }
                }
            }
            assert forall|i: int| 0 <= i < t.len() && #[trigger] t[i] == '\r' implies i + 1 < t.len()
                && t[i + 1] == '\n' by {
                if i >= 1 {
                    assert(t[i] == u[i - 1]);
                    assert(t[i + 1] == u[i]);
                }
            }
        }
    }
}

/// Every `'\n'` written as `"\r\n"` (`s.replace('\n', "\r\n")`).
pub open spec fn lf_to_crlf(s: Seq<char>) -> Seq<char>
    decreases s.len(),
{
    if s.len() == 0 {
        seq![]
    } else if s[0] == '\n' {
        seq!['\r', '\n'] + lf_to_crlf(s.drop_first())
    } else {
        seq![s[0]] + lf_to_crlf(s.drop_first())
    }
}

pub fn lf_to_crlf_exec(s: &[char]) -> (out: Vec<char>)
    ensures
        out@ == lf_to_crlf(s@),
{
    let mut out: Vec<char> = Vec::new();
    let mut i: usize = 0;
    assert(s@.skip(0) == s@);
    while i < s.len()
        invariant
            i <= s.len(),
            lf_to_crlf(s@) == out@ + lf_to_crlf(s@.skip(i as int)),
        decreases s.len() - i,
    {
        assert(s@.skip(i as int).drop_first() == s@.skip(i + 1));
        if s[i] == '\n' {
            out.push('\r');
            out.push('\n');
        } else {
            out.push(s[i]);
        }
        i += 1;
    }
    assert(s@.skip(s.len() as int).len() == 0);
    out
}

// ---------------------------------------------------------------------------
// Joining
// ---------------------------------------------------------------------------

/// The parts with `sep` between each two of them (`join`).
pub open spec fn join(parts: Seq<Seq<char>>, sep: Seq<char>) -> Seq<char>
    decreases parts.len(),
{
    if parts.len() == 0 {
        seq![]
    } else if parts.len() == 1 {
        parts[0]
    } else {
        join(parts.drop_last(), sep) + sep + parts.last()
    }
}

/// `parts.join(sep)`.
pub fn join_chars(parts: &Vec<Vec<char>>, sep: &[char]) -> (out: Vec<char>)
    ensures
        out@ == join(views(parts@), sep@),
{
    let mut out: Vec<char> = Vec::new();
    let mut i: usize = 0;
    while i < parts.len()
        invariant
            i <= parts.len(),
            out@ == join(views(parts@).take(i as int), sep@),
        decreases parts.len() - i,
    {
        let ghost before = views(parts@).take(i as int);
        assert(views(parts@).take(i as int + 1).drop_last() == before);
        if i > 0 {
            append_chars(&mut out, sep);
        }
        append_chars(&mut out, parts[i].as_slice());
        i += 1;
    }
    assert(views(parts@).take(parts.len() as int) == views(parts@));
    out
}


// ---------------------------------------------------------------------------
// Trimming by a set of characters (`trim_matches` with a char array)
// ---------------------------------------------------------------------------

pub open spec fn strip_start_set(s: Seq<char>, set: Seq<char>) -> Seq<char>
    decreases s.len(),
{
    if s.len() > 0 && set.contains(s[0]) {
        strip_start_set(s.drop_first(), set)
    } else {
        s
    }
}

pub open spec fn strip_end_set(s: Seq<char>, set: Seq<char>) -> Seq<char>
    decreases s.len(),
{
    if s.len() > 0 && set.contains(s.last()) {
        strip_end_set(s.drop_last(), set)
    } else {
        s
    }
}

/// `str::trim_matches` with the characters of `set` as the pattern.
pub open spec fn trim_matches_set(s: Seq<char>, set: Seq<char>) -> Seq<char> {
    strip_end_set(strip_start_set(s, set), set)
}

/// `str::trim_start_matches` with the characters of `set` as the pattern.
pub fn strip_start_set_chars(s: &[char], set: &[char]) -> (out: Vec<char>)
    ensures
        out@ == strip_start_set(s@, set@),
{
    let mut i: usize = 0;
    assert(s@.skip(0) == s@);
    while i < s.len() && has_char(set, s[i])
        invariant
            i <= s.len(),
            strip_start_set(s@, set@) == strip_start_set(s@.skip(i as int), set@),
        decreases s.len() - i,
    {
        assert(s@.skip(i as int).drop_first() == s@.skip(i + 1));
        i += 1;
    }
    sub_chars(s, i, s.len())
}

pub fn strip_end_set_chars(s: &[char], set: &[char]) -> (out: Vec<char>)
    ensures
        out@ == strip_end_set(s@, set@),
{
    let mut i: usize = s.len();
    assert(s@.take(s.len() as int) == s@);
    while i > 0 && has_char(set, s[i - 1])
        invariant
            i <= s.len(),
            strip_end_set(s@, set@) == strip_end_set(s@.take(i as int), set@),
        decreases i,
    {
        assert(s@.take(i as int).drop_last() == s@.take(i as int - 1));
        i -= 1;
    }
    sub_chars(s, 0, i)
}

pub fn trim_matches_set_chars(s: &[char], set: &[char]) -> (out: Vec<char>)
    ensures
        out@ == trim_matches_set(s@, set@),
{
    let a = strip_start_set_chars(s, set);
    strip_end_set_chars(a.as_slice(), set)
}

// ---------------------------------------------------------------------------
// Lists of strings
// ---------------------------------------------------------------------------

/// The views of a sequence of strings.
pub open spec fn str_views(v: Seq<String>) -> Seq<Seq<char>> {
    v.map_values(|x: String| x@)
}

pub fn to_strings(v: &Vec<Vec<char>>) -> (out: Vec<String>)
    ensures
        str_views(out@) == views(v@),
{
    let mut out: Vec<String> = Vec::new();
    let mut i: usize = 0;
    while i < v.len()
        invariant
            i <= v.len(),
            str_views(out@) == views(v@).take(i as int),
        decreases v.len() - i,
    {
        let s = string_of(v[i].as_slice());
        let ghost before = out@;
        out.push(s);
        assert(str_views(out@) =~= str_views(before).push(v@[i as int]@));
        assert(views(v@).take(i + 1) =~= views(v@).take(i as int).push(v@[i as int]@));
        i += 1;
    }
    assert(views(v@).take(v.len() as int) == views(v@));
    out
}

pub fn to_char_vecs(v: &Vec<String>) -> (out: Vec<Vec<char>>)
    ensures
        views(out@) == str_views(v@),
{
    let mut out: Vec<Vec<char>> = Vec::new();
    let mut i: usize = 0;
    while i < v.len()
        invariant
            i <= v.len(),
            views(out@) == str_views(v@).take(i as int),
        decreases v.len() - i,
    {
        let s = chars_of(v[i].as_str());
        let ghost before = out@;
        out.push(s);
        assert(views(out@) =~= views(before).push(v@[i as int]@));
        assert(str_views(v@).take(i + 1) =~= str_views(v@).take(i as int).push(v@[i as int]@));
        i += 1;
    }
    assert(str_views(v@).take(v.len() as int) == str_views(v@));
    out
}

/// Whether `x` is one of `items`.
pub fn contains_item(items: &Vec<Vec<char>>, x: &[char]) -> (res: bool)
    ensures
        res == views(items@).contains(x@),
{
    let mut i: usize = 0;
    while i < items.len()
        invariant
            i <= items.len(),
            forall|j: int| 0 <= j < i ==> views(items@)[j] != x@,
        decreases items.len() - i,
    {
        if chars_eq(items[i].as_slice(), x) {
            assert(views(items@)[i as int] == x@);
            return true;
        }
        i += 1;
    }
    false
}


// ---------------------------------------------------------------------------
// Splitting at a character and replacing a character
// ---------------------------------------------------------------------------

/// The position of the first `c` in `s`, or its length.
pub open spec fn index_of_char(s: Seq<char>, c: char) -> int
    decreases s.len(),
{
    if s.len() == 0 {
        0
    } else if s[0] == c {
        0
    } else {
        1 + index_of_char(s.drop_first(), c)
    }
}

pub proof fn lemma_index_of_char(s: Seq<char>, c: char)
    ensures
        0 <= index_of_char(s, c) <= s.len(),
        index_of_char(s, c) < s.len() ==> s[index_of_char(s, c)] == c,
        forall|j: int| 0 <= j < index_of_char(s, c) ==> s[j] != c,
    decreases s.len(),
{
    if s.len() > 0 && s[0] != c {
        lemma_index_of_char(s.drop_first(), c);
        assert forall|j: int| 0 <= j < index_of_char(s, c) implies s[j] != c by {
            if j > 0 {
                assert(s[j] == s.drop_first()[j - 1]);
            }
        }
    }
}

pub proof fn lemma_index_of_char_at(s: Seq<char>, c: char, k: int)
    requires
        0 <= k <= s.len(),
        k < s.len() ==> s[k] == c,
        forall|j: int| 0 <= j < k ==> s[j] != c,
    ensures
        index_of_char(s, c) == k,
    decreases s.len(),
{
    if s.len() > 0 && s[0] != c {
        lemma_index_of_char_at(s.drop_first(), c, k - 1);
    }
}

/// `str::split(c)`: the pieces between occurrences of `c`; there is always
/// at least one piece.
pub open spec fn split_char(s: Seq<char>, c: char) -> Seq<Seq<char>>
    decreases s.len(),
{
    let k = index_of_char(s, c);
    proof {
        lemma_index_of_char(s, c);
    }
    if k >= s.len() {
        seq![s]
    } else {
        seq![s.take(k)] + split_char(s.skip(k + 1), c)
    }
}

/// The first position at or after `from` where `c` occurs, or `s.len()`.
pub fn index_of_char_from(s: &[char], c: char, from: usize) -> (k: usize)
    requires
        from <= s.len(),
    ensures
        from <= k <= s.len(),
        k - from == index_of_char(s@.skip(from as int), c),
{
    let mut i = from;
    while i < s.len() && s[i] != c
        invariant
            from <= i <= s.len(),
            forall|j: int| from <= j < i ==> s@[j] != c,
        decreases s.len() - i,
    {
        i += 1;
    }
    proof {
        lemma_index_of_char_at(s@.skip(from as int), c, i - from);
    }
    i
}

/// `s.split(c)` as character vectors.
pub fn split_char_exec(s: &[char], c: char) -> (out: Vec<Vec<char>>)
    ensures
        views(out@) == split_char(s@, c),
        out@.len() >= 1,
{
    let mut out: Vec<Vec<char>> = Vec::new();
    let mut start: usize = 0;
    assert(s@.skip(0) == s@);
    loop
        invariant
            start <= s.len(),
            split_char(s@, c) == views(out@) + split_char(s@.skip(start as int), c),
        decreases s.len() - start,
    {
        let k = index_of_char_from(s, c, start);
        let piece = sub_chars(s, start, k);
        let ghost t = s@.skip(start as int);
        let ghost before = out@;
        out.push(piece);
        assert(views(out@) =~= views(before).push(piece@));
        if k == s.len() {
            assert(piece@ == t);
            assert(split_char(t, c) == seq![t]);
            assert(views(before) + seq![t] == views(before).push(t));
            return out;
        }
        assert(piece@ == t.take(k - start));
        assert(t.skip(k - start + 1) == s@.skip(k + 1));
        assert(views(before) + (seq![piece@] + split_char(s@.skip(k + 1), c)) == views(
            before,
        ).push(piece@) + split_char(s@.skip(k + 1), c));
        start = k + 1;
    }
}

/// `s` with every `a` replaced by `b`.
pub open spec fn replace_char(s: Seq<char>, a: char, b: char) -> Seq<char> {
    s.map_values(|x: char| if x == a { b } else { x })
}

pub fn replace_char_exec(s: &[char], a: char, b: char) -> (out: Vec<char>)
    ensures
        out@ == replace_char(s@, a, b),
{
    let mut out: Vec<char> = Vec::new();
    let mut i: usize = 0;
    while i < s.len()
        invariant
            i <= s.len(),
            out@ == replace_char(s@.take(i as int), a, b),
        decreases s.len() - i,
    {
        out.push(if s[i] == a { b } else { s[i] });
        assert(replace_char(s@.take(i + 1), a, b) =~= replace_char(s@.take(i as int), a, b).push(
            if s@[i as int] == a { b } else { s@[i as int] },
        ));
        i += 1;
    }
    assert(s@.take(s.len() as int) == s@);
    out
}


// ---------------------------------------------------------------------------
// Ordering (`Ord` of `str`: by code point, then by length)
// ---------------------------------------------------------------------------

/// `a < b` in the order of Rust strings: the first differing character
/// decides, and a proper prefix comes first.
pub open spec fn text_lt(a: Seq<char>, b: Seq<char>) -> bool
    decreases a.len(),
{
    if b.len() == 0 {
        false
    } else if a.len() == 0 {
        true
    } else if a[0] != b[0] {
        (a[0] as u32) < (b[0] as u32)
    } else {
        text_lt(a.drop_first(), b.drop_first())
    }
}

pub proof fn lemma_text_lt_irreflexive(a: Seq<char>)
    ensures
        !text_lt(a, a),
    decreases a.len(),
{
    if a.len() > 0 {
        lemma_text_lt_irreflexive(a.drop_first());
    }
}

pub proof fn lemma_text_lt_transitive(a: Seq<char>, b: Seq<char>, c: Seq<char>)
    requires
        text_lt(a, b),
        text_lt(b, c),
    ensures
        text_lt(a, c),
    decreases a.len(),
{
    if a.len() > 0 && b.len() > 0 && c.len() > 0 && a[0] == b[0] && b[0] == c[0] {
        lemma_text_lt_transitive(a.drop_first(), b.drop_first(), c.drop_first());
    }
}

pub proof fn lemma_text_lt_total(a: Seq<char>, b: Seq<char>)
    ensures
        a == b || text_lt(a, b) || text_lt(b, a),
    decreases a.len(),
{
    if a.len() > 0 && b.len() > 0 && a[0] == b[0] {
        lemma_text_lt_total(a.drop_first(), b.drop_first());
        if a.drop_first() == b.drop_first() {
            assert(a.drop_first().len() == b.drop_first().len());
            assert(a.len() == b.len());
            assert forall|i: int| 0 <= i < a.len() implies a[i] == b[i] by {
                if i > 0 {
                    assert(a[i] == a.drop_first()[i - 1]);
                    assert(b[i] == b.drop_first()[i - 1]);
                }
            }
            assert(a =~= b);
        }
    } else if a.len() > 0 && b.len() > 0 {
        vstd::utf8::char_u32_cast(a[0], a[0] as u32);
        vstd::utf8::char_u32_cast(b[0], b[0] as u32);
    } else if a.len() == 0 && b.len() == 0 {
        assert(a =~= b);
    }
}

pub proof fn lemma_text_lt_asymmetric(a: Seq<char>, b: Seq<char>)
    requires
        text_lt(a, b),
    ensures
        !text_lt(b, a),
{
    if text_lt(b, a) {
        lemma_text_lt_transitive(a, b, a);
        lemma_text_lt_irreflexive(a);
    }
}

/// Whether `a < b` as strings.
pub fn text_less(a: &[char], b: &[char]) -> (res: bool)
    ensures
        res == text_lt(a@, b@),
{
    let mut i: usize = 0;
    assert(a@.skip(0) == a@ && b@.skip(0) == b@);
    while i < a.len() && i < b.len() && a[i] == b[i]
        invariant
            i <= a.len(),
            i <= b.len(),
            text_lt(a@, b@) == text_lt(a@.skip(i as int), b@.skip(i as int)),
        decreases a.len() - i,
    {
        assert(a@.skip(i as int).drop_first() == a@.skip(i + 1));
        assert(b@.skip(i as int).drop_first() == b@.skip(i + 1));
        i += 1;
    }
    if i == b.len() {
        false
    } else if i == a.len() {
        true
    } else {
        (a[i] as u32) < (b[i] as u32)
    }
}

/// A sort key made of a rank and a text, compared in that order.
pub open spec fn key_lt(ra: nat, sa: Seq<char>, rb: nat, sb: Seq<char>) -> bool {
    ra < rb || (ra == rb && text_lt(sa, sb))
}

pub proof fn lemma_key_lt_transitive(
    ra: nat,
    sa: Seq<char>,
    rb: nat,
    sb: Seq<char>,
    rc: nat,
    sc: Seq<char>,
)
    requires
        key_lt(ra, sa, rb, sb),
        key_lt(rb, sb, rc, sc),
    ensures
        key_lt(ra, sa, rc, sc),
{
    if ra == rb && rb == rc {
        lemma_text_lt_transitive(sa, sb, sc);
    }
}

/// `order` lists each index below `n` exactly once.
pub open spec fn is_permutation(order: Seq<usize>, n: nat) -> bool {
    &&& order.len() == n
    &&& forall|i: int| 0 <= i < order.len() ==> #[trigger] order[i] < n
    &&& forall|i: int, j: int|
        0 <= i < j < order.len() ==> #[trigger] order[i] != #[trigger] order[j]
}

/// Every index below `n` has a place in a permutation of them.
pub proof fn lemma_permutation_onto(order: Seq<usize>, n: nat, x: int)
    requires
        is_permutation(order, n),
        0 <= x < n,
    ensures
        exists|p: int| 0 <= p < order.len() && order[p] as int == x,
{
    broadcast use vstd::seq_lib::seq_to_set_is_finite;

    let oi = order.map_values(|v: usize| v as int);
    assert(oi.no_duplicates()) by {
        assert forall|i: int, j: int|
            0 <= i < oi.len() && 0 <= j < oi.len() && i != j implies oi[i] != oi[j] by {
            if i < j {
                assert(order[i] != order[j]);
            } else {
                assert(order[j] != order[i]);
            }
        }
    }
    oi.unique_seq_to_set();
    let r = vstd::set_lib::set_int_range(0, n as int);
    vstd::set_lib::lemma_int_range(0, n as int);
    assert(oi.to_set().subset_of(r)) by {
        assert forall|v: int| oi.to_set().contains(v) implies r.contains(v) by {
            assert(oi.contains(v));
            let i = choose|i: int| 0 <= i < oi.len() && oi[i] == v;
            assert(order[i] < n);
        }
    }
    vstd::set_lib::lemma_subset_equality(oi.to_set(), r);
    assert(r.contains(x));
    assert(oi.to_set().contains(x));
    assert(oi.contains(x));
    let p = choose|p: int| 0 <= p < oi.len() && oi[p] == x;
    assert(order[p] as int == x);
}


/// The order that sorts items by (rank, text) keys, ties kept in their
/// order (an insertion sort).
pub fn sort_order(ranks: &Vec<usize>, rels: &Vec<Vec<char>>) -> (order: Vec<usize>)
    requires
        ranks@.len() == rels@.len(),
    ensures
        is_permutation(order@, ranks@.len()),
        forall|a: int, b: int|
            0 <= a < b < order@.len() ==> !key_lt(
                ranks@[order@[b] as int] as nat,
                rels@[order@[b] as int]@,
                ranks@[order@[a] as int] as nat,
                rels@[order@[a] as int]@,
            ),
        forall|a: int, b: int|
            0 <= a < b < order@.len() && ranks@[order@[a] as int] == ranks@[order@[b] as int]
                && rels@[order@[a] as int]@ == rels@[order@[b] as int]@ ==> order@[a] < order@[b],
{
    let n = ranks.len();
    let mut order: Vec<usize> = Vec::new();
    let mut i: usize = 0;
    while i < n
        invariant
            i <= n,
            ranks@.len() == n,
            rels@.len() == n,
            is_permutation(order@, i as nat),
            forall|a: int, b: int|
                0 <= a < b < order@.len() ==> !key_lt(
                    ranks@[order@[b] as int] as nat,
                    rels@[order@[b] as int]@,
                    ranks@[order@[a] as int] as nat,
                    rels@[order@[a] as int]@,
                ),
            forall|a: int, b: int|
                0 <= a < b < order@.len() && ranks@[order@[a] as int] == ranks@[order@[b] as int]
                    && rels@[order@[a] as int]@ == rels@[order@[b] as int]@ ==> order@[a]
                    < order@[b],
        decreases n - i,
    {
        let mut p: usize = 0;
        while p < order.len() && !(ranks[i] < ranks[order[p]] || (ranks[i] == ranks[order[p]]
            && text_less(rels[i].as_slice(), rels[order[p]].as_slice())))
            invariant
                p <= order@.len(),
                i < n,
                ranks@.len() == n,
                rels@.len() == n,
                is_permutation(order@, i as nat),
                forall|a: int, b: int|
                    0 <= a < b < order@.len() ==> !key_lt(
                        ranks@[order@[b] as int] as nat,
                        rels@[order@[b] as int]@,
                        ranks@[order@[a] as int] as nat,
                        rels@[order@[a] as int]@,
                    ),
                forall|a: int, b: int|
                    0 <= a < b < order@.len() && ranks@[order@[a] as int] == ranks@[order@[b] as int]
                        && rels@[order@[a] as int]@ == rels@[order@[b] as int]@ ==> order@[a]
                        < order@[b],
                forall|q: int|
                    0 <= q < p ==> !key_lt(
                        ranks@[i as int] as nat,
                        rels@[i as int]@,
                        ranks@[#[trigger] order@[q] as int] as nat,
                        rels@[order@[q] as int]@,
                    ),
            decreases order@.len() - p,
        {
            p += 1;
        }
        let ghost before = order@;
        order.insert(p, i);
        proof {
            assert(order@ =~= before.insert(p as int, i));
            assert forall|a: int, b: int|
                0 <= a < b < order@.len() implies #[trigger] order@[a] != #[trigger] order@[b] by {
                if a < p && b > p {
                    assert(order@[b] == before[b - 1]);
                } else if a > p {
                    assert(order@[a] == before[a - 1] && order@[b] == before[b - 1]);
                }
            }
            assert forall|a: int, b: int|
                0 <= a < b < order@.len() implies !key_lt(
                    ranks@[order@[b] as int] as nat,
                    rels@[order@[b] as int]@,
                    ranks@[order@[a] as int] as nat,
                    rels@[order@[a] as int]@,
                ) by {
                let ki = (ranks@[i as int] as nat, rels@[i as int]@);
                if b < p {
                } else if b == p {
                } else if a == p {
                    let ob = before[b - 1];
                    let op = before[p as int];
                    assert(order@[b] == ob);
                    assert(order@[a] == i);
                    lemma_text_lt_irreflexive(rels@[op as int]@);
                    if key_lt(ranks@[ob as int] as nat, rels@[ob as int]@, ki.0, ki.1) {
                        lemma_key_lt_transitive(
                            ranks@[ob as int] as nat,
                            rels@[ob as int]@,
                            ki.0,
                            ki.1,
                            ranks@[op as int] as nat,
                            rels@[op as int]@,
                        );
                    }
                } else if a < p {
                    assert(order@[a] == before[a] && order@[b] == before[b - 1]);
                } else {
                    assert(order@[a] == before[a - 1] && order@[b] == before[b - 1]);
                }
            }
            assert forall|a: int, b: int|
                0 <= a < b < order@.len() && ranks@[order@[a] as int] == ranks@[order@[b] as int]
                    && rels@[order@[a] as int]@ == rels@[order@[b] as int]@ implies order@[a]
                < order@[b] by {
                if b < p {
                    assert(order@[a] == before[a] && order@[b] == before[b]);
                } else if b == p {
                    assert(order@[a] == before[a]);
                    assert(before[a] < i);
                } else if a == p {
                    let ob = before[b - 1];
                    let op = before[p as int];
                    assert(order@[b] == ob);
                    assert(order@[a] == i);
                    if p + 1 < b {
                        assert(!key_lt(
                            ranks@[ob as int] as nat,
                            rels@[ob as int]@,
                            ranks@[op as int] as nat,
                            rels@[op as int]@,
                        ));
                    }
                    lemma_text_lt_irreflexive(rels@[op as int]@);
                } else if a < p {
                    assert(order@[a] == before[a] && order@[b] == before[b - 1]);
                } else {
                    assert(order@[a] == before[a - 1] && order@[b] == before[b - 1]);
                }
            }
        }
        i += 1;
    }
    order
}

/// The order that sorts texts (a stable sort).
pub fn order_by_text(texts: &Vec<String>) -> (order: Vec<usize>)
    ensures
        is_permutation(order@, texts@.len()),
        forall|a: int, b: int|
            0 <= a < b < order@.len() ==> !text_lt(
                texts@[order@[b] as int]@,
                texts@[order@[a] as int]@,
            ),
        forall|a: int, b: int|
            0 <= a < b < order@.len() && texts@[order@[a] as int]@ == texts@[order@[b] as int]@
                ==> order@[a] < order@[b],
{
    let ranks: Vec<usize> = Vec::new();
    let mut ranks = ranks;
    let rels = to_char_vecs(texts);
    assert(views(rels@).len() == str_views(texts@).len());
    assert(rels@.len() == texts@.len());
    let mut k: usize = 0;
    while k < texts.len()
        invariant
            k <= texts@.len(),
            ranks@.len() == k,
            rels@.len() == texts@.len(),
            views(rels@) == str_views(texts@),
            forall|m: int| 0 <= m < k ==> #[trigger] ranks@[m] == 0,
        decreases texts@.len() - k,
    {
        ranks.push(0);
        k += 1;
    }
    let order = sort_order(&ranks, &rels);
    proof {
        assert forall|a: int, b: int| 0 <= a < b < order@.len() implies !text_lt(
            texts@[order@[b] as int]@,
            texts@[order@[a] as int]@,
        ) by {
            assert(order@[a] < texts@.len() && order@[b] < texts@.len());
            assert(ranks@[order@[a] as int] == 0 && ranks@[order@[b] as int] == 0);
            assert(!key_lt(
                ranks@[order@[b] as int] as nat,
                rels@[order@[b] as int]@,
                ranks@[order@[a] as int] as nat,
                rels@[order@[a] as int]@,
            ));
            assert(views(rels@)[order@[a] as int] == rels@[order@[a] as int]@);
            assert(views(rels@)[order@[b] as int] == rels@[order@[b] as int]@);
            assert(str_views(texts@)[order@[a] as int] == texts@[order@[a] as int]@);
            assert(str_views(texts@)[order@[b] as int] == texts@[order@[b] as int]@);
        }
        assert forall|a: int, b: int|
            0 <= a < b < order@.len() && texts@[order@[a] as int]@ == texts@[order@[b] as int]@
                implies order@[a] < order@[b] by {
            assert(order@[a] < texts@.len() && order@[b] < texts@.len());
            assert(ranks@[order@[a] as int] == 0 && ranks@[order@[b] as int] == 0);
            assert(views(rels@)[order@[a] as int] == rels@[order@[a] as int]@);
            assert(views(rels@)[order@[b] as int] == rels@[order@[b] as int]@);
            assert(str_views(texts@)[order@[a] as int] == texts@[order@[a] as int]@);
            assert(str_views(texts@)[order@[b] as int] == texts@[order@[b] as int]@);
        }
    }
    order
}


// ---------------------------------------------------------------------------
// UTF-8 length
// ---------------------------------------------------------------------------

/// The number of UTF-8 bytes of the characters (`str::len`), clamped at
/// `usize::MAX`.
pub fn utf8_len_clamped(s: &[char]) -> (n: usize)
    ensures
        n == (if vstd::utf8::encode_utf8(s@).len() > usize::MAX {
            usize::MAX as nat
        } else {
            vstd::utf8::encode_utf8(s@).len()
        }),
{
    let mut i: usize = s.len();
    let mut acc: usize = 0;
    assert(s@.skip(s.len() as int).len() == 0);
    while i > 0
        invariant
            i <= s.len(),
            acc == (if vstd::utf8::encode_utf8(s@.skip(i as int)).len() > usize::MAX {
                usize::MAX as nat
            } else {
                vstd::utf8::encode_utf8(s@.skip(i as int)).len()
            }),
        decreases i,
    {
        let c = s[i - 1];
        let u = c as u32;
        let w: usize = if u <= 0x7F {
            1
        } else if u <= 0x7FF {
            2
        } else if u <= 0xFFFF {
            3
        } else {
            4
        };
        proof {
            vstd::utf8::char_is_scalar(c);
            assert(s@.skip(i as int - 1).drop_first() == s@.skip(i as int));
            assert(s@.skip(i as int - 1)[0] == c);
            assert(vstd::utf8::encode_scalar(c as u32).len() == w);
        }
        acc = acc.saturating_add(w);
        i -= 1;
    }
    assert(s@.skip(0) == s@);
    acc
}

// ---------------------------------------------------------------------------
// Case mapping and decimal numbers
// ---------------------------------------------------------------------------

pub open spec fn ascii_lower(c: char) -> char {
    if 'A' <= c && c <= 'Z' {
        ((c as u32) + 32) as char
    } else {
        c
    }
}

/// `str::to_ascii_lowercase`.
pub open spec fn to_ascii_lowercase(s: Seq<char>) -> Seq<char> {
    s.map_values(|c: char| ascii_lower(c))
}

pub fn ascii_lower_exec(c: char) -> (res: char)
    ensures
        res == ascii_lower(c),
{
    if 'A' <= c && c <= 'Z' {
        let u = (c as u32) + 32;
        char_from_ascii_code(u)
    } else {
        c
    }
}

/// The ASCII character with a code below 128.
fn char_from_ascii_code(u: u32) -> (c: char)
    requires
        u < 128,
    ensures
        c == u as char,
{
    let b = u as u8;
    b as char
}

pub fn to_ascii_lowercase_chars(s: &[char]) -> (out: Vec<char>)
    ensures
        out@ == to_ascii_lowercase(s@),
{
    let mut out: Vec<char> = Vec::new();
    let mut i: usize = 0;
    while i < s.len()
        invariant
            i <= s.len(),
            out@ == to_ascii_lowercase(s@.take(i as int)),
        decreases s.len() - i,
    {
        out.push(ascii_lower_exec(s[i]));
        assert(to_ascii_lowercase(s@.take(i as int + 1)) =~= to_ascii_lowercase(
            s@.take(i as int),
        ).push(ascii_lower(s@[i as int])));
        i += 1;
    }
    assert(s@.take(s.len() as int) == s@);
    out
}

/// The decimal digit for `d < 10`.
pub open spec fn digit_char(d: nat) -> char {
    (('0' as u32) + d) as char
}

/// The decimal representation of `n`, as `format!("{}", n)` writes it.
pub open spec fn decimal(n: nat) -> Seq<char>
    decreases n,
{
    if n < 10 {
        seq![digit_char(n)]
    } else {
        decimal(n / 10).push(digit_char(n % 10))
    }
}

fn digit_exec(d: usize) -> (c: char)
    requires
        d < 10,
    ensures
        c == digit_char(d as nat),
{
    let b = (d as u8) + 48;
    b as char
}

/// `format!("{}", n)` for an unsigned number.
pub fn usize_to_decimal(n: usize) -> (out: Vec<char>)
    ensures
        out@ == decimal(n as nat),
    decreases n,
{
    if n < 10 {
        let mut v = Vec::new();
        v.push(digit_exec(n));
        v
    } else {
        let mut v = usize_to_decimal(n / 10);
        v.push(digit_exec(n % 10));
        v
    }
}

fn digit_exec_u64(d: u64) -> (c: char)
    requires
        d < 10,
    ensures
        c == digit_char(d as nat),
{
    let b = (d as u8) + 48;
    b as char
}

/// `format!("{}", n)` for a 64-bit number.
pub fn u64_to_decimal(n: u64) -> (out: Vec<char>)
    ensures
        out@ == decimal(n as nat),
    decreases n,
{
    if n < 10 {
        let mut v = Vec::new();
        v.push(digit_exec_u64(n));
        v
    } else {
        let mut v = u64_to_decimal(n / 10);
        v.push(digit_exec_u64(n % 10));
        v
    }
}

/// Appends the decimal representation of `n`.
pub fn append_decimal(a: &mut Vec<char>, n: usize)
    ensures
        final(a)@ == old(a)@ + decimal(n as nat),
{
    let d = usize_to_decimal(n);
    append_chars(a, d.as_slice());
}

pub proof fn lemma_decimal_no_newline(n: nat)
    ensures
        !decimal(n).contains('\n'),
        decimal(n).len() > 0,
    decreases n,
{
    if n >= 10 {
        lemma_decimal_no_newline(n / 10);
        assert forall|i: int| 0 <= i < decimal(n).len() implies decimal(n)[i] != '\n' by {
            if i < decimal(n / 10).len() {
                assert(decimal(n)[i] == decimal(n / 10)[i]);
            }
        }
    }
}

} // verus!
