use eaicoding_mcp::jingyi_rank::{
    diversify_routes, group_by_family, make_route, safe_limit, score_facts, select_matches,
    shared_token_count, token_match, ItemRole, TokenMatch,
};
use eaicoding_mcp::jingyi_search::{
    family_for, flatten_items, item_key, namespace, public_params, route_capability_key,
    route_type, signature, tokenize, JingyiItem, JingyiParam, RawItem, RawParam,
};

fn param(name: &str, t: &str) -> JingyiParam {
    JingyiParam { name: name.to_string(), param_type: t.to_string() }
}

fn item(name: &str, class: &str, params: Vec<JingyiParam>) -> JingyiItem {
    JingyiItem {
        name: name.to_string(),
        category: "子程序".to_string(),
        class_name: class.to_string(),
        return_type: "文本型".to_string(),
        signature: String::new(),
        description: String::new(),
        params,
    }
}

#[test]
fn tokenizes_cjk_runs_and_ascii_words() {
    assert_eq!(tokenize("多线程POST"), vec!["多线程", "多线", "线程", "post"]);
    assert_eq!(tokenize("a b_c"), vec!["b_c"]);
    assert_eq!(tokenize("取"), Vec::<String>::new());
}

#[test]
fn keeps_public_parameters_and_writes_signatures() {
    let raw = vec![
        RawParam { name: " 网址 ".to_string(), param_type: "文本型".to_string() },
        RawParam { name: "访问方式".to_string(), param_type: String::new() },
        RawParam { name: "局_临时".to_string(), param_type: "整数型".to_string() },
        RawParam { name: "后面".to_string(), param_type: "整数型".to_string() },
    ];
    let params = public_params(&raw);
    assert_eq!(params.len(), 2);
    assert_eq!(params[0].name, "网址");
    let r = RawItem {
        name: " 网页_访问 ".to_string(),
        category: String::new(),
        class_name: String::new(),
        return_type: String::new(),
        params: raw,
        description: " 访问网页 ".to_string(),
    };
    assert_eq!(signature(&r, &params), "无返回值 网页_访问（网址: 文本型，访问方式）");
    let items = flatten_items(&vec![("子程序".to_string(), vec![r.clone()])]);
    assert_eq!(items.len(), 1);
    assert_eq!(items[0].name, "网页_访问");
    assert_eq!(items[0].category, "子程序");
    assert_eq!(items[0].return_type, "无返回值");
    assert_eq!(items[0].description, "访问网页");
    assert_eq!(item_key(&items[0]), "子程序::网页_访问:无返回值 网页_访问（网址: 文本型，访问方式）");
}

#[test]
fn families_of_items() {
    assert_eq!(family_for(&item("网页_访问_对象", "", vec![])), Some("网页_访问".to_string()));
    assert_eq!(family_for(&item("线程_启动", "", vec![])), Some("线程_*".to_string()));
    assert_eq!(family_for(&item("文本_取左边", "", vec![])), Some("文本_取左边".to_string()));
    assert_eq!(family_for(&item("取文本", "", vec![])), None);
    assert_eq!(family_for(&item("打开", "类_文件", vec![])), Some("类_文件".to_string()));
    assert_eq!(namespace(&item("编码 _转换", "", vec![])), Some("编码".to_string()));
    assert_eq!(route_type("类_文件", &vec![]), "object_workflow");
    assert_eq!(route_type("文本_取", &vec![item("x", "文本_取", vec![])]), "object_workflow");
    assert_eq!(route_type("文本_取", &vec![item("x", "", vec![])]), "function_family");
}

#[test]
fn groups_items_by_family_in_first_seen_order() {
    let items = vec![
        item("网页_访问_对象", "", vec![]),
        item("线程_启动", "", vec![]),
        item("取文本", "", vec![]),
        item("网页_访问S", "", vec![]),
    ];
    let groups = group_by_family(&items);
    assert_eq!(groups.len(), 2);
    assert_eq!(groups[0], ("网页_访问".to_string(), vec![0, 3]));
    assert_eq!(groups[1], ("线程_*".to_string(), vec![1]));
}

#[test]
fn builds_a_route_from_ranked_items() {
    let items: Vec<JingyiItem> = (0..12).map(|i| item(&format!("文本_取{}", i), "", vec![])).collect();
    let order: Vec<usize> = (0..12).rev().collect();
    let route = make_route("文本_取", &items, &order);
    assert_eq!(route.route_type, "function_family");
    assert_eq!(route.summary, "同族函数方案：文本_取");
    assert_eq!(route.count, 12);
    assert_eq!(route.primary_options.len(), 3);
    assert_eq!(route.primary_options[0].name, "文本_取11");
    assert_eq!(route.supporting_options.len(), 8);
    assert_eq!(route.supporting_options[0].name, "文本_取8");
    assert_eq!(route.options.len(), 12);
    assert_eq!(
        route.evidence,
        vec![
            "route_type=function_family".to_string(),
            "primary=文本_取11 / 文本_取10 / 文本_取9".to_string()
        ]
    );
    let object = make_route("类_X", &items, &vec![0, 1]);
    assert_eq!(object.route_type, "object_workflow");
    assert_eq!(object.primary_options.len(), 2);
    assert_eq!(object.supporting_options.len(), 0);
}

#[test]
fn route_capability_follows_aliases_and_family() {
    let http = item("网页_访问", "", vec![param("网址", "文本型"), param("访问方式", "整数型")]);
    let route = make_route("网页_访问", &vec![http], &vec![0]);
    assert_eq!(route_capability_key(&route), "http");
    let other = make_route("编码_转换", &vec![item("编码_转换", "", vec![])], &vec![0]);
    assert_eq!(route_capability_key(&other), "编码");
}

#[test]
fn diversifies_routes_by_capability() {
    let keys: Vec<String> = ["http", "http", "thread", "json"].iter().map(|s| s.to_string()).collect();
    assert_eq!(diversify_routes(&keys, &vec![true, true, true, false], 8), vec![0, 2, 1, 3]);
    assert_eq!(diversify_routes(&keys, &vec![true, true, true, true], 2), vec![0, 2]);
    assert_eq!(diversify_routes(&keys, &vec![false, false, false, false], 3), vec![0, 1, 2]);
}

#[test]
fn selects_unique_matches_up_to_ten_times_the_limit() {
    let keys: Vec<String> = ["a", "b", "a", "c"].iter().map(|s| s.to_string()).collect();
    assert_eq!(select_matches(&keys, 1), vec![0, 1, 3]);
    let many: Vec<String> = (0..30).map(|i| i.to_string()).collect();
    assert_eq!(select_matches(&many, 1).len(), 10);
    assert_eq!(safe_limit(None), 8);
    assert_eq!(safe_limit(Some(0)), 1);
    assert_eq!(safe_limit(Some(99)), 20);
    assert_eq!(safe_limit(Some(5)), 5);
}

#[test]
fn token_matches_and_score_facts() {
    assert!(matches!(token_match("post", "post"), TokenMatch::Exact));
    assert!(matches!(token_match("po", "post"), TokenMatch::Prefix));
    assert!(matches!(token_match("os", "post"), TokenMatch::Inside));
    assert!(matches!(token_match("", "post"), TokenMatch::Absent));
    assert!(matches!(token_match("x", ""), TokenMatch::Absent));
    let http = item("网页_访问", "", vec![param("网址", "文本型"), param("访问方式", "整数型")]);
    let tokens = vec!["网页".to_string(), "网址".to_string(), "zzz".to_string()];
    let facts = score_facts(&http, " 网页_访问 ", &tokens);
    assert!(matches!(facts.name_match, TokenMatch::Exact));
    assert!(matches!(facts.class_match, TokenMatch::Absent));
    assert_eq!(facts.field_matches.len(), 3);
    assert!(matches!(facts.field_matches[0][0], TokenMatch::Prefix));
    assert_eq!(facts.matched_tokens, 2);
    assert_eq!(facts.matched_param_tokens, 1);
    assert!(facts.is_subprogram);
    assert!(!facts.is_variable_or_constant);
    assert!(matches!(facts.role, ItemRole::MainHttp));
    assert_eq!(
        shared_token_count(&vec!["网址".to_string(), "协议头".to_string()], &tokens),
        1
    );
}
