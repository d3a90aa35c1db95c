//! What the ranking of 精易 module search results decides, in integers and
//! flags: how a token matches a field, the structural role of an item and
//! of a route, the facts that an item's score is made of, the grouping of
//! items into families, the routes built from them, the diversified choice
//! of routes and the deduplicated choice of matches. The weights that turn
//! these facts into floating-point scores stay outside.
use vstd::prelude::*;
use crate::encoding::{to_lowercase, unicode_lowercase};
use crate::jingyi_search::{
    family_for, family_spec, is_helper_builder, is_helper_builder_item, is_main_http,
    is_main_http_item, is_main_thread, is_main_thread_item, item_text, item_text_spec,
    param_pairs, JingyiItem, JingyiParam,
};
use vstd::math::min;
use crate::text::{
    chars_eq, chars_of, string_of, contains, contains_chars, eq_str, starts_with, starts_with_chars, str_views,
};

verus! {

// ---------------------------------------------------------------------------
// Matching a token against a field
// ---------------------------------------------------------------------------

/// How a needle is found in a text.
#[derive(Debug)]
pub enum TokenMatch {
    /// The text is the needle.
    Exact,
    /// The text starts with the needle.
    Prefix,
    /// The needle occurs in the text.
    Inside,
    /// The needle is not in the text.
    Absent,
}

/// How `needle` is found in `hay`, the strongest way first.
pub open spec fn match_of(needle: Seq<char>, hay: Seq<char>) -> TokenMatch {
    if hay == needle {
        TokenMatch::Exact
    } else if starts_with(hay, needle) {
        TokenMatch::Prefix
    } else if contains(hay, needle) {
        TokenMatch::Inside
    } else {
        TokenMatch::Absent
    }
}

/// How a query token matches a field; an empty token or field matches
/// nothing.
pub open spec fn token_match_of(token: Seq<char>, field: Seq<char>) -> TokenMatch {
    if token.len() == 0 || field.len() == 0 {
        TokenMatch::Absent
    } else {
        match_of(token, field)
    }
}

pub fn text_match(needle: &[char], hay: &[char]) -> (m: TokenMatch)
    ensures
        m == match_of(needle@, hay@),
{
    if chars_eq(hay, needle) {
        TokenMatch::Exact
    } else if starts_with_chars(hay, needle) {
        TokenMatch::Prefix
    } else if contains_chars(hay, needle) {
        TokenMatch::Inside
    } else {
        TokenMatch::Absent
    }
}

/// How a query token matches a field of an item.
pub fn token_match(token: &str, field: &str) -> (m: TokenMatch)
    ensures
        m == token_match_of(token@, field@),
{
    let t = chars_of(token);
    let f = chars_of(field);
    if t.len() == 0 || f.len() == 0 {
        return TokenMatch::Absent;
    }
    text_match(t.as_slice(), f.as_slice())
}

// ---------------------------------------------------------------------------
// Structural roles
// ---------------------------------------------------------------------------

/// The part an item plays in a calling pattern.
#[derive(Debug)]
pub enum ItemRole {
    /// It sends an HTTP request itself.
    MainHttp,
    /// It starts a thread.
    MainThread,
    /// It only builds POST data or headers for a request.
    HelperBuilder,
    Ordinary,
}

pub open spec fn role_of(item: JingyiItem) -> ItemRole {
    if is_main_http(item) {
        ItemRole::MainHttp
    } else if is_main_thread(item) {
        ItemRole::MainThread
    } else if is_helper_builder(item) {
        ItemRole::HelperBuilder
    } else {
        ItemRole::Ordinary
    }
}

pub fn item_role(item: &JingyiItem) -> (r: ItemRole)
    ensures
        r == role_of(*item),
{
    if is_main_http_item(item) {
        ItemRole::MainHttp
    } else if is_main_thread_item(item) {
        ItemRole::MainThread
    } else if is_helper_builder_item(item) {
        ItemRole::HelperBuilder
    } else {
        ItemRole::Ordinary
    }
}

/// The role of a route by its options: an HTTP request among them counts
/// first, then a thread starter, then a helper.
pub open spec fn route_role_of(options: Seq<JingyiItem>) -> ItemRole {
    if exists|i: int| 0 <= i < options.len() && is_main_http(#[trigger] options[i]) {
        ItemRole::MainHttp
    } else if exists|i: int| 0 <= i < options.len() && is_main_thread(#[trigger] options[i]) {
        ItemRole::MainThread
    } else if exists|i: int| 0 <= i < options.len() && is_helper_builder(#[trigger] options[i]) {
        ItemRole::HelperBuilder
    } else {
        ItemRole::Ordinary
    }
}

pub fn route_role(options: &Vec<JingyiItem>) -> (r: ItemRole)
    ensures
        r == route_role_of(options@),
{
    let mut i: usize = 0;
    while i < options.len()
        invariant
            i <= options@.len(),
            forall|j: int| 0 <= j < i ==> !is_main_http(#[trigger] options@[j]),
        decreases options.len() - i,
    {
        if is_main_http_item(&options[i]) {
            return ItemRole::MainHttp;
        }
        i += 1;
    }
    i = 0;
    while i < options.len()
        invariant
            i <= options@.len(),
            forall|j: int| 0 <= j < options@.len() ==> !is_main_http(#[trigger] options@[j]),
            forall|j: int| 0 <= j < i ==> !is_main_thread(#[trigger] options@[j]),
        decreases options.len() - i,
    {
        if is_main_thread_item(&options[i]) {
            return ItemRole::MainThread;
        }
        i += 1;
    }
    i = 0;
    while i < options.len()
        invariant
            i <= options@.len(),
            forall|j: int| 0 <= j < options@.len() ==> !is_main_http(#[trigger] options@[j]),
            forall|j: int| 0 <= j < options@.len() ==> !is_main_thread(#[trigger] options@[j]),
            forall|j: int| 0 <= j < i ==> !is_helper_builder(#[trigger] options@[j]),
        decreases options.len() - i,
    {
        if is_helper_builder_item(&options[i]) {
            return ItemRole::HelperBuilder;
        }
        i += 1;
    }
    ItemRole::Ordinary
}

/// The number of results a search returns: 8 when not given, and between
/// 1 and 20.
pub open spec fn safe_limit_of(limit: Option<usize>) -> usize {
    let l = match limit {
        Some(n) => n,
        None => 8,
    };
    if l < 1 {
        1
    } else if l > 20 {
        20
    } else {
        l
    }
}

pub fn safe_limit(limit: Option<usize>) -> (out: usize)
    ensures
        out == safe_limit_of(limit),
        1 <= out <= 20,
{
    let l = match limit {
        Some(n) => n,
        None => 8,
    };
    if l < 1 {
        1
    } else if l > 20 {
        20
    } else {
        l
    }
}

// ---------------------------------------------------------------------------
// What an item's score is made of
// ---------------------------------------------------------------------------

/// The number of tokens that occur in `text`.
pub open spec fn tokens_in(tokens: Seq<Seq<char>>, text: Seq<char>) -> nat
    decreases tokens.len(),
{
    if tokens.len() == 0 {
        0
    } else {
        tokens_in(tokens.drop_last(), text) + if contains(text, tokens.last()) {
            1nat
        } else {
            0nat
        }
    }
}

/// Whether a token occurs in the lowercased name of some parameter.
pub open spec fn in_some_param(params: Seq<JingyiParam>, token: Seq<char>) -> bool {
    exists|i: int|
        0 <= i < params.len() && contains(unicode_lowercase(#[trigger] params[i].name@), token)
}

/// The number of tokens that occur in some parameter name.
pub open spec fn tokens_in_params(tokens: Seq<Seq<char>>, params: Seq<JingyiParam>) -> nat
    decreases tokens.len(),
{
    if tokens.len() == 0 {
        0
    } else {
        tokens_in_params(tokens.drop_last(), params) + if in_some_param(params, tokens.last()) {
            1nat
        } else {
            0nat
        }
    }
}

/// The facts that the score of an item for a query is made of.
#[derive(Debug)]
pub struct ScoreFacts {
    /// How the trimmed, lowercased query matches the lowercased name.
    pub name_match: TokenMatch,
    /// How it matches the lowercased class (`Absent` without a class).
    pub class_match: TokenMatch,
    /// For each token, how it matches each searchable field of the item.
    pub field_matches: Vec<Vec<TokenMatch>>,
    /// The number of tokens found in the item's whole text.
    pub matched_tokens: usize,
    /// The number of tokens found in a parameter name.
    pub matched_param_tokens: usize,
    /// The item is a subprogram (`子程序`).
    pub is_subprogram: bool,
    /// The item is a global variable or a constant.
    pub is_variable_or_constant: bool,
    pub role: ItemRole,
}

/// The lowercased, trimmed query.
pub open spec fn query_key(query: Seq<char>) -> Seq<char> {
    unicode_lowercase(crate::text::trim(query))
}

fn token_matches_for(token: &String, fields: &Vec<(String, String)>) -> (out: Vec<TokenMatch>)
    ensures
        out@.len() == fields@.len(),
        forall|f: int|
            0 <= f < fields@.len() ==> #[trigger] out@[f] == token_match_of(token@, fields@[f].1@),
{
    let mut out: Vec<TokenMatch> = Vec::new();
    let mut f: usize = 0;
    while f < fields.len()
        invariant
            f <= fields@.len(),
            out@.len() == f,
            forall|g: int|
                0 <= g < f ==> #[trigger] out@[g] == token_match_of(token@, fields@[g].1@),
        decreases fields.len() - f,
    {
        out.push(token_match(token.as_str(), fields[f].1.as_str()));
        f += 1;
    }
    out
}

/// The score facts of an item for a query and its (expanded) tokens.
pub fn score_facts(item: &JingyiItem, query: &str, tokens: &Vec<String>) -> (out: ScoreFacts)
    ensures
        out.name_match == match_of(query_key(query@), unicode_lowercase(item.name@)),
        out.class_match == (if item.class_name@.len() == 0 {
            TokenMatch::Absent
        } else {
            match_of(query_key(query@), unicode_lowercase(item.class_name@))
        }),
        out.field_matches@.len() == tokens@.len(),
        forall|t: int|
            0 <= t < tokens@.len() ==> (#[trigger] out.field_matches@[t])@.len() == 8,
        forall|t: int, f: int|
            0 <= t < tokens@.len() && 0 <= f < 8 ==> #[trigger] out.field_matches@[t]@[f]
                == token_match_of(tokens@[t]@, crate::jingyi_search::field_texts(*item)[f].1),
        out.matched_tokens == tokens_in(str_views(tokens@), item_text_spec(*item)),
        out.matched_param_tokens == tokens_in_params(str_views(tokens@), item.params@),
        out.is_subprogram == (item.category@ == "子程序"@),
        out.is_variable_or_constant == (item.category@ == "全局变量"@ || item.category@
            == "常量"@),
        out.role == role_of(*item),
{
    let q = chars_of(to_lowercase(crate::text::trim_str(query).as_str()).as_str());
    let name = chars_of(to_lowercase(item.name.as_str()).as_str());
    let name_match = text_match(q.as_slice(), name.as_slice());
    let class_match = if item.class_name.as_str().is_empty() {
        TokenMatch::Absent
    } else {
        let class = chars_of(to_lowercase(item.class_name.as_str()).as_str());
        text_match(q.as_slice(), class.as_slice())
    };
    let fields = crate::jingyi_search::item_field_texts(item);
    let ghost fv = fields@.map_values(|p: (String, String)| (p.0@, p.1@));
    assert(fv.len() == 8);
    let full = chars_of(item_text(item).as_str());
    let mut field_matches: Vec<Vec<TokenMatch>> = Vec::new();
    let mut matched: usize = 0;
    let mut matched_params: usize = 0;
    let mut t: usize = 0;
    while t < tokens.len()
        invariant
            t <= tokens@.len(),
            fv == fields@.map_values(|p: (String, String)| (p.0@, p.1@)),
            fv == crate::jingyi_search::field_texts(*item),
            fields@.len() == 8,
            full@ == item_text_spec(*item),
            field_matches@.len() == t,
            forall|u: int| 0 <= u < t ==> (#[trigger] field_matches@[u])@.len() == 8,
            forall|u: int, f: int|
                0 <= u < t && 0 <= f < 8 ==> #[trigger] field_matches@[u]@[f] == token_match_of(
                    tokens@[u]@,
                    crate::jingyi_search::field_texts(*item)[f].1,
                ),
            matched == tokens_in(str_views(tokens@).take(t as int), item_text_spec(*item)),
            matched_params == tokens_in_params(str_views(tokens@).take(t as int), item.params@),
            matched <= t,
            matched_params <= t,
        decreases tokens.len() - t,
    {
        let row = token_matches_for(&tokens[t], &fields);
        assert forall|f: int| 0 <= f < 8 implies row@[f] == token_match_of(
            tokens@[t as int]@,
            crate::jingyi_search::field_texts(*item)[f].1,
        ) by {
            assert(fv[f] == (fields@[f].0@, fields@[f].1@));
        }
        field_matches.push(row);
        let tc = chars_of(tokens[t].as_str());
        assert(str_views(tokens@).take(t + 1).drop_last() == str_views(tokens@).take(
            t as int,
        ));
        assert(str_views(tokens@).take(t + 1).last() == tokens@[t as int]@);
        if contains_chars(full.as_slice(), tc.as_slice()) {
            matched += 1;
        }
        if param_has_token(&item.params, tc.as_slice()) {
            matched_params += 1;
        }
        t += 1;
    }
    assert(str_views(tokens@).take(tokens@.len() as int) == str_views(tokens@));
    let cat = chars_of(item.category.as_str());
    let is_subprogram = eq_str(cat.as_slice(), "子程序");
    let is_variable_or_constant = eq_str(cat.as_slice(), "全局变量") || eq_str(
        cat.as_slice(),
        "常量",
    );
    ScoreFacts {
        name_match,
        class_match,
        field_matches,
        matched_tokens: matched,
        matched_param_tokens: matched_params,
        is_subprogram,
        is_variable_or_constant,
        role: item_role(item),
    }
}

fn param_has_token(params: &Vec<JingyiParam>, token: &[char]) -> (res: bool)
    ensures
        res == in_some_param(params@, token@),
{
    let mut i: usize = 0;
    while i < params.len()
        invariant
            i <= params@.len(),
            forall|j: int|
                0 <= j < i ==> !contains(unicode_lowercase(#[trigger] params@[j].name@), token@),
        decreases params.len() - i,
    {
        let l = chars_of(to_lowercase(params[i].name.as_str()).as_str());
        if contains_chars(l.as_slice(), token) {
            return true;
        }
        i += 1;
    }
    false
}

/// The number of an item's parameter-name tokens that are among the query
/// tokens: how strongly the item votes for its other tokens as query
/// expansions.
pub open spec fn shared_tokens(item_tokens: Seq<Seq<char>>, tokens: Seq<Seq<char>>) -> nat
    decreases item_tokens.len(),
{
    if item_tokens.len() == 0 {
        0
    } else {
        shared_tokens(item_tokens.drop_last(), tokens) + if tokens.contains(item_tokens.last()) {
            1nat
        } else {
            0nat
        }
    }
}

pub fn shared_token_count(item_tokens: &Vec<String>, tokens: &Vec<String>) -> (n: usize)
    ensures
        n == shared_tokens(str_views(item_tokens@), str_views(tokens@)),
{
    let tv = crate::text::to_char_vecs(tokens);
    let mut n: usize = 0;
    let mut i: usize = 0;
    while i < item_tokens.len()
        invariant
            i <= item_tokens@.len(),
            crate::text::views(tv@) == str_views(tokens@),
            n == shared_tokens(str_views(item_tokens@).take(i as int), str_views(tokens@)),
            n <= i,
        decreases item_tokens.len() - i,
    {
        let c = chars_of(item_tokens[i].as_str());
        assert(str_views(item_tokens@).take(i + 1).drop_last() == str_views(item_tokens@).take(
            i as int,
        ));
        assert(str_views(item_tokens@).take(i + 1).last() == item_tokens@[i as int]@);
        if crate::text::contains_item(&tv, c.as_slice()) {
            n += 1;
        }
        i += 1;
    }
    assert(str_views(item_tokens@).take(item_tokens@.len() as int) == str_views(item_tokens@));
    n
}

// ---------------------------------------------------------------------------
// Families and routes
// ---------------------------------------------------------------------------

/// The families of some items in the order they first appear, each once.
pub open spec fn family_keys(items: Seq<JingyiItem>) -> Seq<Seq<char>>
    decreases items.len(),
{
    if items.len() == 0 {
        seq![]
    } else {
        let rest = family_keys(items.drop_last());
        match family_spec(items.last()) {
            Some(f) => if rest.contains(f) {
                rest
            } else {
                rest.push(f)
            },
            None => rest,
        }
    }
}

/// The positions of the items of family `f`, in order.
pub open spec fn family_positions(items: Seq<JingyiItem>, f: Seq<char>) -> Seq<usize>
    decreases items.len(),
{
    if items.len() == 0 {
        seq![]
    } else {
        let rest = family_positions(items.drop_last(), f);
        if family_spec(items.last()) == Some(f) {
            rest.push((items.len() - 1) as usize)
        } else {
            rest
        }
    }
}

/// The items grouped by family: each family once, in the order in which
/// it first appears, with the positions of its items in order. Items
/// without a family are left out.
pub fn group_by_family(items: &Vec<JingyiItem>) -> (out: Vec<(String, Vec<usize>)>)
    ensures
        out@.len() == family_keys(items@).len(),
        forall|g: int|
            0 <= g < out@.len() ==> (#[trigger] out@[g]).0@ == family_keys(items@)[g]
                && out@[g].1@ == family_positions(items@, family_keys(items@)[g]),
{
    let mut fams: Vec<Option<Vec<char>>> = Vec::new();
    let mut keys: Vec<Vec<char>> = Vec::new();
    let mut i: usize = 0;
    while i < items.len()
        invariant
            i <= items@.len(),
            fams@.len() == i,
            forall|j: int|
                0 <= j < i ==> match #[trigger] fams@[j] {
                    Some(f) => family_spec(items@[j]) == Some(f@),
                    None => family_spec(items@[j]) is None,
                },
            crate::text::views(keys@) == family_keys(items@.take(i as int)),
        decreases items.len() - i,
    {
        let f = family_for(&items[i]);
        assert(items@.take(i + 1).drop_last() == items@.take(i as int));
        assert(items@.take(i + 1).last() == items@[i as int]);
        match f {
            Some(name) => {
                let c = chars_of(name.as_str());
                if !crate::text::contains_item(&keys, c.as_slice()) {
                    let ghost before = keys@;
                    keys.push(c.clone());
                    assert(crate::text::views(keys@) =~= crate::text::views(before).push(c@));
                }
                fams.push(Some(c));
            },
            None => {
                fams.push(None);
            },
        }
        i += 1;
    }
    assert(items@.take(items@.len() as int) == items@);
    let mut out: Vec<(String, Vec<usize>)> = Vec::new();
    let mut k: usize = 0;
    while k < keys.len()
        invariant
            k <= keys@.len(),
            fams@.len() == items@.len(),
            forall|j: int|
                0 <= j < items@.len() ==> match #[trigger] fams@[j] {
                    Some(f) => family_spec(items@[j]) == Some(f@),
                    None => family_spec(items@[j]) is None,
                },
            crate::text::views(keys@) == family_keys(items@),
            out@.len() == k,
            forall|g: int|
                0 <= g < k ==> (#[trigger] out@[g]).0@ == family_keys(items@)[g] && out@[g].1@
                    == family_positions(items@, family_keys(items@)[g]),
        decreases keys.len() - k,
    {
        let key = &keys[k];
        assert(crate::text::views(keys@)[k as int] == key@);
        let mut positions: Vec<usize> = Vec::new();
        let mut j: usize = 0;
        while j < items.len()
            invariant
                j <= items@.len(),
                fams@.len() == items@.len(),
                forall|m: int|
                    0 <= m < items@.len() ==> match #[trigger] fams@[m] {
                        Some(f) => family_spec(items@[m]) == Some(f@),
                        None => family_spec(items@[m]) is None,
                    },
                positions@ == family_positions(items@.take(j as int), key@),
            decreases items.len() - j,
        {
            assert(items@.take(j + 1).drop_last() == items@.take(j as int));
            assert(items@.take(j + 1).last() == items@[j as int]);
            let same = match &fams[j] {
                Some(f) => chars_eq(f.as_slice(), key.as_slice()),
                None => false,
            };
            if same {
                positions.push(j);
            }
            j += 1;
        }
        assert(items@.take(items@.len() as int) == items@);
        out.push((string_of(key.as_slice()), positions));
        k += 1;
    }
    out
}

/// An item as plain values.
pub struct ItemModel {
    pub name: Seq<char>,
    pub category: Seq<char>,
    pub class_name: Seq<char>,
    pub return_type: Seq<char>,
    pub signature: Seq<char>,
    pub description: Seq<char>,
    pub params: Seq<(Seq<char>, Seq<char>)>,
}

pub open spec fn item_model(it: JingyiItem) -> ItemModel {
    ItemModel {
        name: it.name@,
        category: it.category@,
        class_name: it.class_name@,
        return_type: it.return_type@,
        signature: it.signature@,
        description: it.description@,
        params: param_pairs(it.params@),
    }
}

pub open spec fn item_models(v: Seq<JingyiItem>) -> Seq<ItemModel> {
    v.map_values(|it: JingyiItem| item_model(it))
}

/// A copy of an item.
pub fn copy_item(it: &JingyiItem) -> (out: JingyiItem)
    ensures
        item_model(out) == item_model(*it),
{
    let mut params: Vec<JingyiParam> = Vec::new();
    let mut i: usize = 0;
    while i < it.params.len()
        invariant
            i <= it.params@.len(),
            param_pairs(params@) == param_pairs(it.params@.take(i as int)),
        decreases it.params.len() - i,
    {
        let p = &it.params[i];
        let ghost before = params@;
        params.push(JingyiParam { name: p.name.clone(), param_type: p.param_type.clone() });
        assert(param_pairs(params@) =~= param_pairs(before).push((p.name@, p.param_type@)));
        assert(param_pairs(it.params@.take(i + 1)) =~= param_pairs(it.params@.take(i as int)).push(
            (p.name@, p.param_type@),
        ));
        i += 1;
    }
    assert(it.params@.take(it.params@.len() as int) == it.params@);
    JingyiItem {
        name: it.name.clone(),
        category: it.category.clone(),
        class_name: it.class_name.clone(),
        return_type: it.return_type.clone(),
        signature: it.signature.clone(),
        description: it.description.clone(),
        params,
    }
}

/// Copies of the items at some positions, in order.
pub fn items_at(items: &Vec<JingyiItem>, order: &Vec<usize>, from: usize, count: usize) -> (out: Vec<
    JingyiItem,
>)
    requires
        forall|k: int| 0 <= k < order@.len() ==> #[trigger] order@[k] < items@.len(),
        from <= order@.len(),
    ensures
        item_models(out@) == order@.skip(from as int).take(
            min(count as int, order@.len() - from),
        ).map_values(|i: usize| item_model(items@[i as int])),
{
    let n = if count < order.len() - from {
        count
    } else {
        order.len() - from
    };
    let mut out: Vec<JingyiItem> = Vec::new();
    let mut k: usize = 0;
    while k < n
        invariant
            k <= n,
            from + n <= order.len(),
            forall|m: int| 0 <= m < order@.len() ==> #[trigger] order@[m] < items@.len(),
            item_models(out@) == order@.skip(from as int).take(k as int).map_values(
                |i: usize| item_model(items@[i as int]),
            ),
        decreases n - k,
    {
        let c = copy_item(&items[order[from + k]]);
        let ghost before = out@;
        out.push(c);
        assert(item_models(out@) =~= item_models(before).push(item_model(c)));
        assert(order@.skip(from as int).take(k + 1).map_values(|i: usize| item_model(items@[i as int]))
            =~= order@.skip(from as int).take(k as int).map_values(
            |i: usize| item_model(items@[i as int]),
        ).push(item_model(items@[order@[from + k] as int])));
        k += 1;
    }
    out
}

/// The items at some positions, as plain values.
pub open spec fn members_of(items: Seq<JingyiItem>, order: Seq<usize>) -> Seq<ItemModel> {
    order.map_values(|i: usize| item_model(items[i as int]))
}

/// A family is an object workflow when it names a class: it starts with
/// `类_`, or it is the class of one of its items.
pub open spec fn object_family(family: Seq<char>, members: Seq<ItemModel>) -> bool {
    starts_with(family, "类_"@) || exists|i: int|
        0 <= i < members.len() && #[trigger] members[i].class_name == family
}

pub open spec fn route_kind(family: Seq<char>, members: Seq<ItemModel>) -> Seq<char> {
    if object_family(family, members) {
        "object_workflow"@
    } else {
        "function_family"@
    }
}

/// How many of a route's options are primary: four for an object
/// workflow, three otherwise, at most all of them.
pub open spec fn primary_count(family: Seq<char>, members: Seq<ItemModel>) -> int {
    min(if object_family(family, members) { 4 } else { 3 }, members.len() as int)
}

pub open spec fn route_summary(family: Seq<char>, members: Seq<ItemModel>) -> Seq<char> {
    if object_family(family, members) {
        "对象/类调用链："@ + family
    } else {
        "同族函数方案："@ + family
    }
}

pub open spec fn route_evidence(family: Seq<char>, members: Seq<ItemModel>) -> Seq<Seq<char>> {
    seq![
        "route_type="@ + route_kind(family, members),
        "primary="@ + crate::text::join(
            members.take(primary_count(family, members)).map_values(|m: ItemModel| m.name),
            " / "@,
        ),
    ]
}

/// The route of a family from its items in ranked order (`order` gives
/// their positions in `items`): its kind, summary and evidence, the
/// primary options, up to eight supporting options after them, and up to
/// twenty options in all.
pub fn make_route(family: &str, items: &Vec<JingyiItem>, order: &Vec<usize>) -> (out:
    crate::jingyi_search::JingyiRoute)
    requires
        forall|k: int| 0 <= k < order@.len() ==> #[trigger] order@[k] < items@.len(),
    ensures
        out.family@ == family@,
        out.route_type@ == route_kind(family@, members_of(items@, order@)),
        out.summary@ == route_summary(family@, members_of(items@, order@)),
        str_views(out.evidence@) == route_evidence(family@, members_of(items@, order@)),
        out.count == order@.len(),
        item_models(out.primary_options@) == members_of(items@, order@).take(
            primary_count(family@, members_of(items@, order@)),
        ),
        item_models(out.supporting_options@) == members_of(items@, order@).skip(
            primary_count(family@, members_of(items@, order@)),
        ).take(
            min(
                8,
                order@.len() - primary_count(family@, members_of(items@, order@)),
            ),
        ),
        item_models(out.options@) == members_of(items@, order@).take(
            min(20, order@.len() as int),
        ),
{
    let ghost ms = members_of(items@, order@);
    assert(order@.skip(0) == order@);
    let members = items_at(items, order, 0, order.len());
    assert(order@.take(order@.len() as int) == order@);
    assert(item_models(members@) == ms);
    let kind = crate::jingyi_search::route_type(family, &members);
    assert(crate::jingyi_search::is_object_family(family@, members@) == object_family(
        family@,
        ms,
    )) by {
        if exists|i: int| 0 <= i < members@.len() && #[trigger] members@[i].class_name@ == family@ {
            let i = choose|i: int| 0 <= i < members@.len() && #[trigger] members@[i].class_name@
                == family@;
            assert(ms[i].class_name == family@);
        }
        if exists|i: int| 0 <= i < ms.len() && #[trigger] ms[i].class_name == family@ {
            let i = choose|i: int| 0 <= i < ms.len() && #[trigger] ms[i].class_name == family@;
            assert(item_models(members@)[i].class_name == members@[i].class_name@);
        }
    }
    proof {
        reveal_strlit("object_workflow");
        reveal_strlit("function_family");
    }
    assert("function_family"@[0] != "object_workflow"@[0]);
    let object = eq_str(chars_of(kind.as_str()).as_slice(), "object_workflow");
    assert(object == object_family(family@, ms));
    let wanted: usize = if object {
        4
    } else {
        3
    };
    let primary = items_at(items, order, 0, wanted);
    let np = primary.len();
    assert(item_models(primary@).len() == primary@.len());
    assert(np == primary_count(family@, ms));
    assert(ms.take(primary_count(family@, ms)) =~= order@.take(np as int).map_values(
        |i: usize| item_model(items@[i as int]),
    ));
    let supporting = items_at(items, order, np, 8);
    assert(ms.skip(np as int).take(min(8, order@.len() - np)) =~= order@.skip(np as int).take(
        min(8, order@.len() - np),
    ).map_values(|i: usize| item_model(items@[i as int])));
    let options = items_at(items, order, 0, 20);
    assert(ms.take(min(20, order@.len() as int)) =~= order@.take(
        min(20, order@.len() as int),
    ).map_values(|i: usize| item_model(items@[i as int])));
    let mut names: Vec<Vec<char>> = Vec::new();
    let mut k: usize = 0;
    while k < np
        invariant
            k <= np,
            np == primary@.len(),
            item_models(primary@) == ms.take(np as int),
            crate::text::views(names@) == ms.take(np as int).take(k as int).map_values(
                |m: ItemModel| m.name,
            ),
        decreases np - k,
    {
        let ghost before = names@;
        names.push(chars_of(primary[k].name.as_str()));
        assert(item_models(primary@)[k as int].name == primary@[k as int].name@);
        assert(crate::text::views(names@) =~= crate::text::views(before).push(
            primary@[k as int].name@,
        ));
        assert(ms.take(np as int).take(k + 1).map_values(|m: ItemModel| m.name) =~= ms.take(
            np as int,
        ).take(k as int).map_values(|m: ItemModel| m.name).push(ms.take(np as int)[k as int].name));
        k += 1;
    }
    assert(ms.take(np as int).take(np as int) == ms.take(np as int));
    let sep = chars_of(" / ");
    let joined = crate::text::join_chars(&names, sep.as_slice());
    let mut e1: Vec<char> = Vec::new();
    crate::text::append_str(&mut e1, "route_type=");
    crate::text::append_str(&mut e1, kind.as_str());
    let mut e2: Vec<char> = Vec::new();
    crate::text::append_str(&mut e2, "primary=");
    crate::text::append_chars(&mut e2, joined.as_slice());
    let mut evidence: Vec<String> = Vec::new();
    evidence.push(string_of(e1.as_slice()));
    evidence.push(string_of(e2.as_slice()));
    assert(str_views(evidence@) =~= route_evidence(family@, ms));
    let mut summary: Vec<char> = Vec::new();
    if object {
        crate::text::append_str(&mut summary, "对象/类调用链：");
    } else {
        crate::text::append_str(&mut summary, "同族函数方案：");
    }
    crate::text::append_str(&mut summary, family);
    crate::jingyi_search::JingyiRoute {
        family: family.to_owned(),
        route_type: kind,
        summary: string_of(summary.as_slice()),
        evidence,
        count: order.len(),
        primary_options: primary,
        supporting_options: supporting,
        options,
    }
}

// ---------------------------------------------------------------------------
// Choosing routes and matches
// ---------------------------------------------------------------------------

/// Where the diversified choice of routes stands after some routes: the
/// chosen ones, the capabilities they stand for, the passed-over ones, and
/// whether the choice is full.
pub struct PickState {
    pub selected: Seq<usize>,
    pub used: Seq<Seq<char>>,
    pub rest: Seq<usize>,
    pub done: bool,
}

/// The choice over the first `n` routes (in ranked order): a route is
/// chosen when its score reaches the diversity floor and its capability is
/// not yet taken; the choice is full at `limit`.
pub open spec fn pick_run(keys: Seq<Seq<char>>, above: Seq<bool>, limit: int, n: int) -> PickState
    decreases n,
{
    if n <= 0 {
        PickState { selected: seq![], used: seq![], rest: seq![], done: false }
    } else {
        let st = pick_run(keys, above, limit, n - 1);
        if st.done {
            st
        } else if above[n - 1] && !st.used.contains(keys[n - 1]) {
            PickState {
                selected: st.selected.push((n - 1) as usize),
                used: st.used.push(keys[n - 1]),
                rest: st.rest,
                done: st.selected.len() + 1 >= limit,
            }
        } else {
            PickState { selected: st.selected, used: st.used, rest: st.rest.push((n - 1) as usize), done: false }
        }
    }
}

/// The routes chosen, as positions in ranked order: the diverse ones, then
/// passed-over ones in order until `limit`.
pub open spec fn diversified(keys: Seq<Seq<char>>, above: Seq<bool>, limit: int) -> Seq<usize> {
    let st = pick_run(keys, above, limit, keys.len() as int);
    if st.selected.len() < limit {
        st.selected + st.rest.take(min(limit - st.selected.len(), st.rest.len() as int))
    } else {
        st.selected
    }
}

/// The routes to show, given each route's capability key and whether its
/// score reaches the diversity floor, in ranked order.
pub fn diversify_routes(keys: &Vec<String>, above_floor: &Vec<bool>, limit: usize) -> (out: Vec<usize>)
    requires
        keys@.len() == above_floor@.len(),
    ensures
        out@ == diversified(str_views(keys@), above_floor@, limit as int),
{
    let ghost kv = str_views(keys@);
    let mut selected: Vec<usize> = Vec::new();
    let mut used: Vec<Vec<char>> = Vec::new();
    let mut rest: Vec<usize> = Vec::new();
    let mut i: usize = 0;
    let mut done = false;
    while i < keys.len() && !done
        invariant
            i <= keys@.len(),
            keys@.len() == above_floor@.len(),
            kv == str_views(keys@),
            ({
                let st = pick_run(kv, above_floor@, limit as int, i as int);
                &&& st.selected == selected@
                &&& st.used == crate::text::views(used@)
                &&& st.rest == rest@
                &&& st.done == done
            }),
            done ==> pick_run(kv, above_floor@, limit as int, keys@.len() as int) == pick_run(
                kv,
                above_floor@,
                limit as int,
                i as int,
            ),
            selected@.len() <= i,
            rest@.len() <= i,
        decreases keys.len() - i,
    {
        let k = chars_of(keys[i].as_str());
        assert(kv[i as int] == k@);
        if above_floor[i] && !crate::text::contains_item(&used, k.as_slice()) {
            let ghost before = used@;
            used.push(k);
            assert(crate::text::views(used@) =~= crate::text::views(before).push(kv[i as int]));
            selected.push(i);
            if selected.len() >= limit {
                done = true;
            }
        } else {
            rest.push(i);
        }
        i += 1;
        proof {
            if done {
                lemma_pick_done(kv, above_floor@, limit as int, i as int, keys@.len() as int);
            }
        }
    }
    proof {
        if !done {
            assert(i == keys.len());
        }
    }
    if selected.len() < limit {
        let need = limit - selected.len();
        let mut j: usize = 0;
        let ghost base = selected@;
        while j < need && j < rest.len()
            invariant
                j <= need,
                j <= rest@.len(),
                selected@ == base + rest@.take(j as int),
            decreases need - j,
        {
            selected.push(rest[j]);
            assert(rest@.take(j + 1) == rest@.take(j as int).push(rest@[j as int]));
            j += 1;
        }
        assert(rest@.take(min(need as int, rest@.len() as int)) == rest@.take(j as int));
    }
    selected
}

proof fn lemma_pick_done(keys: Seq<Seq<char>>, above: Seq<bool>, limit: int, i: int, n: int)
    requires
        0 <= i <= n,
        pick_run(keys, above, limit, i).done,
    ensures
        pick_run(keys, above, limit, n) == pick_run(keys, above, limit, i),
    decreases n - i,
{
    if i < n {
        lemma_pick_done(keys, above, limit, i, n - 1);
    }
}

/// Where the choice of matches stands: the positions chosen and whether
/// there are enough.
pub open spec fn match_run(keys: Seq<Seq<char>>, cap: int, n: int) -> (Seq<usize>, bool)
    decreases n,
{
    if n <= 0 {
        (seq![], false)
    } else {
        let (chosen, done) = match_run(keys, cap, n - 1);
        if done {
            (chosen, done)
        } else if chosen.map_values(|i: usize| keys[i as int]).contains(keys[n - 1]) {
            (chosen, false)
        } else {
            (chosen.push((n - 1) as usize), chosen.len() + 1 >= cap)
        }
    }
}

/// The matches of a search, as positions in ranked order: each item key
/// once (the first, best-ranked item with it), until there are ten times
/// the limit. The first `limit` of them are also the lexical hits.
pub fn select_matches(keys: &Vec<String>, limit: usize) -> (out: Vec<usize>)
    requires
        limit <= 20,
    ensures
        out@ == match_run(str_views(keys@), limit * 10, keys@.len() as int).0,
{
    let ghost kv = str_views(keys@);
    let cap = limit * 10;
    let mut chosen: Vec<usize> = Vec::new();
    let mut seen: Vec<Vec<char>> = Vec::new();
    let mut i: usize = 0;
    let mut done = false;
    while i < keys.len() && !done
        invariant
            i <= keys@.len(),
            cap == limit * 10,
            kv == str_views(keys@),
            match_run(kv, cap as int, i as int) == (chosen@, done),
            crate::text::views(seen@) == chosen@.map_values(|j: usize| kv[j as int]),
            forall|m: int| 0 <= m < chosen@.len() ==> #[trigger] chosen@[m] < i,
            done ==> match_run(kv, cap as int, keys@.len() as int) == match_run(
                kv,
                cap as int,
                i as int,
            ),
            chosen@.len() <= i,
        decreases keys.len() - i,
    {
        let k = chars_of(keys[i].as_str());
        assert(kv[i as int] == k@);
        if !crate::text::contains_item(&seen, k.as_slice()) {
            let ghost before = chosen@;
            seen.push(k);
            chosen.push(i);
            assert(chosen@.map_values(|j: usize| kv[j as int]) =~= before.map_values(
                |j: usize| kv[j as int],
            ).push(kv[i as int]));
            if chosen.len() >= cap {
                done = true;
            }
        }
        i += 1;
        proof {
            if done {
                lemma_match_done(kv, cap as int, i as int, keys@.len() as int);
            }
        }
    }
    chosen
}

proof fn lemma_match_done(keys: Seq<Seq<char>>, cap: int, i: int, n: int)
    requires
        0 <= i <= n,
        match_run(keys, cap, i).1,
    ensures
        match_run(keys, cap, n) == match_run(keys, cap, i),
    decreases n - i,
{
    if i < n {
        lemma_match_done(keys, cap, i, n - 1);
    }
}

proof fn lemma_pick_run_shape(keys: Seq<Seq<char>>, above: Seq<bool>, limit: int, n: int)
    requires
        limit >= 1,
        0 <= n <= usize::MAX,
    ensures
        ({
            let st = pick_run(keys, above, limit, n);
            &&& forall|a: int, b: int|
                0 <= a < b < st.selected.len() ==> st.selected[a] < st.selected[b]
            &&& forall|a: int, b: int| 0 <= a < b < st.rest.len() ==> st.rest[a] < st.rest[b]
            &&& forall|a: int| 0 <= a < st.selected.len() ==> st.selected[a] < n
            &&& forall|a: int| 0 <= a < st.rest.len() ==> st.rest[a] < n
            &&& forall|a: int, b: int|
                0 <= a < st.selected.len() && 0 <= b < st.rest.len() ==> st.selected[a]
                    != st.rest[b]
            &&& st.selected.len() <= limit
            &&& !st.done ==> st.selected.len() < limit
        }),
    decreases n,
{
    if n > 0 {
        lemma_pick_run_shape(keys, above, limit, n - 1);
        let prev = pick_run(keys, above, limit, n - 1);
        let st = pick_run(keys, above, limit, n);
        let last = (n - 1) as usize;
        assert(last == n - 1);
        if prev.done {
        } else if above[n - 1] && !prev.used.contains(keys[n - 1]) {
            assert(st.selected == prev.selected.push(last));
            assert(st.rest == prev.rest);
            assert forall|a: int, b: int| 0 <= a < b < st.selected.len() implies st.selected[a]
                < st.selected[b] by {
                if b == prev.selected.len() {
                    assert(st.selected[a] == prev.selected[a]);
                }
            }
            assert forall|a: int, b: int|
                0 <= a < st.selected.len() && 0 <= b < st.rest.len() implies st.selected[a]
                != st.rest[b] by {
                if a < prev.selected.len() {
                    assert(st.selected[a] == prev.selected[a]);
                }
            }
            assert forall|a: int| 0 <= a < st.selected.len() implies st.selected[a] < n by {
                if a < prev.selected.len() {
                    assert(st.selected[a] == prev.selected[a]);
                }
            }
        } else {
            assert(st.rest == prev.rest.push(last));
            assert(st.selected == prev.selected);
            assert forall|a: int, b: int| 0 <= a < b < st.rest.len() implies st.rest[a]
                < st.rest[b] by {
                if b == prev.rest.len() {
                    assert(st.rest[a] == prev.rest[a]);
                }
            }
            assert forall|a: int, b: int|
                0 <= a < st.selected.len() && 0 <= b < st.rest.len() implies st.selected[a]
                != st.rest[b] by {
                if b < prev.rest.len() {
                    assert(st.rest[b] == prev.rest[b]);
                }
            }
            assert forall|a: int| 0 <= a < st.rest.len() implies st.rest[a] < n by {
                if a < prev.rest.len() {
                    assert(st.rest[a] == prev.rest[a]);
                }
            }
        }
    }
}

/// The routes shown are distinct routes that exist, and there are at most
/// `limit` of them (for a limit of at least one).
pub proof fn law_diversified_routes_are_distinct(
    keys: Seq<Seq<char>>,
    above: Seq<bool>,
    limit: int,
)
    requires
        keys.len() == above.len(),
        keys.len() <= usize::MAX,
        limit >= 1,
    ensures
        diversified(keys, above, limit).len() <= limit,
        forall|i: int|
            0 <= i < diversified(keys, above, limit).len() ==> #[trigger] diversified(
                keys,
                above,
                limit,
            )[i] < keys.len(),
        forall|i: int, j: int|
            0 <= i < j < diversified(keys, above, limit).len() ==> diversified(
                keys,
                above,
                limit,
            )[i] != diversified(keys, above, limit)[j],
{
    let n = keys.len() as int;
    lemma_pick_run_shape(keys, above, limit, n);
    let st = pick_run(keys, above, limit, n);
    let out = diversified(keys, above, limit);
    if st.selected.len() < limit {
        let m = min(limit - st.selected.len(), st.rest.len() as int);
        let tail = st.rest.take(m);
        assert(out == st.selected + tail);
        assert forall|i: int, j: int| 0 <= i < j < out.len() implies out[i] != out[j] by {
            if j < st.selected.len() {
            } else if i >= st.selected.len() {
                assert(out[i] == st.rest[i - st.selected.len()]);
                assert(out[j] == st.rest[j - st.selected.len()]);
            } else {
                assert(out[j] == st.rest[j - st.selected.len()]);
            }
        }
        assert forall|i: int| 0 <= i < out.len() implies #[trigger] out[i] < keys.len() by {
            if i >= st.selected.len() {
                assert(out[i] == st.rest[i - st.selected.len()]);
            }
        }
    }
}

proof fn lemma_match_run_shape(keys: Seq<Seq<char>>, cap: int, n: int)
    requires
        cap >= 1,
        0 <= n <= usize::MAX,
    ensures
        ({
            let (chosen, done) = match_run(keys, cap, n);
            &&& forall|a: int, b: int| 0 <= a < b < chosen.len() ==> chosen[a] < chosen[b]
            &&& forall|a: int| 0 <= a < chosen.len() ==> chosen[a] < n
            &&& forall|a: int, b: int|
                0 <= a < b < chosen.len() ==> keys[chosen[a] as int] != keys[chosen[b] as int]
            &&& chosen.len() <= cap
            &&& !done ==> chosen.len() < cap
        }),
    decreases n,
{
    if n > 0 {
        lemma_match_run_shape(keys, cap, n - 1);
        let (chosen, done) = match_run(keys, cap, n - 1);
        let last = (n - 1) as usize;
        assert(last == n - 1);
        if !done && !chosen.map_values(|i: usize| keys[i as int]).contains(keys[n - 1]) {
            let now = chosen.push(last);
            assert(match_run(keys, cap, n).0 == now);
            assert forall|a: int| 0 <= a < chosen.len() implies keys[chosen[a] as int] != keys[n
                - 1] by {
                assert(chosen.map_values(|i: usize| keys[i as int])[a] == keys[chosen[a] as int]);
            }
            assert forall|a: int, b: int| 0 <= a < b < now.len() implies now[a] < now[b]
                && keys[now[a] as int] != keys[now[b] as int] by {
                assert(now[a] == chosen[a]);
                if b < chosen.len() {
                    assert(now[b] == chosen[b]);
                }
            }
            assert forall|a: int| 0 <= a < now.len() implies now[a] < n by {
                if a < chosen.len() {
                    assert(now[a] == chosen[a]);
                }
            }
        }
    }
}

/// The matches of a search have distinct item keys, come in ranked order,
/// and number at most ten times the limit.
pub proof fn law_matches_are_unique(keys: Seq<Seq<char>>, limit: int)
    requires
        keys.len() <= usize::MAX,
        limit >= 1,
    ensures
        match_run(keys, limit * 10, keys.len() as int).0.len() <= limit * 10,
        forall|a: int, b: int|
            0 <= a < b < match_run(keys, limit * 10, keys.len() as int).0.len() ==> {
                &&& #[trigger] match_run(keys, limit * 10, keys.len() as int).0[a]
                    < #[trigger] match_run(keys, limit * 10, keys.len() as int).0[b]
                &&& keys[match_run(keys, limit * 10, keys.len() as int).0[a] as int]
                    != keys[match_run(keys, limit * 10, keys.len() as int).0[b] as int]
            },
{
    lemma_match_run_shape(keys, limit * 10, keys.len() as int);
}

} // verus!
