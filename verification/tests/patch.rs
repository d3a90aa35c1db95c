use eaicoding_mcp::patch::{apply_patches, parse_patches, patch_success_message, prepare_patches};

fn block(search: &str, replace: &str) -> String {
    format!("<<<<<<< SEARCH\n{}\n=======\n{}\n>>>>>>> REPLACE\n", search, replace)
}

#[test]
fn parses_search_replace_blocks() {
    let text = format!(
        "说明\n{}{}",
        block("信息框 (“原始内容”, 0, , )", "信息框 (“修改后的新内容”, 0, , )"),
        block("a\nb", "c")
    );
    let blocks = parse_patches(&text);
    assert_eq!(blocks.len(), 2);
    assert_eq!(blocks[0].search, "信息框 (“原始内容”, 0, , )");
    assert_eq!(blocks[0].replace, "信息框 (“修改后的新内容”, 0, , )");
    assert_eq!(blocks[1].search, "a\nb");
    assert_eq!(blocks[1].replace, "c");
}

#[test]
fn unique_match_is_replaced() {
    let blocks = parse_patches(&block("旧", "新"));
    let out = apply_patches("前\r\n旧\r\n后", &blocks).unwrap();
    assert_eq!(out, "前\n新\n后");
}

#[test]
fn ambiguous_match_is_refused() {
    let blocks = parse_patches(&block("x", "y"));
    let err = apply_patches("x x", &blocks).unwrap_err();
    assert_eq!(
        err,
        "第 1 个 Patch 块在文件中找到多个重复的匹配项（共 2 处），替换不唯一，拒绝应用。请提供更多上下文行。"
    );
}

#[test]
fn missing_search_is_reported() {
    let blocks = parse_patches(&block("不存在", "y"));
    let err = apply_patches("abc", &blocks).unwrap_err();
    assert!(err.starts_with("第 1 个 Patch 块在文件中找不到指定的 SEARCH 代码片段。原 SEARCH 段：\n不存在"));
}

#[test]
fn blank_search_is_refused() {
    let blocks = parse_patches(&block("   ", "y"));
    let err = apply_patches("abc", &blocks).unwrap_err();
    assert_eq!(err, "第 1 个 Patch 的 SEARCH 块为空，无法进行替换");
}

#[test]
fn trimmed_search_matches_once() {
    let blocks = parse_patches(&block("  abc  ", "  xyz  "));
    let out = apply_patches("1 abc 2", &blocks).unwrap();
    assert_eq!(out, "1 xyz 2");
}

#[test]
fn a_failing_block_stops_all() {
    let text = format!("{}{}", block("a", "b"), block("zzz", "q"));
    let blocks = parse_patches(&text);
    let err = apply_patches("a", &blocks).unwrap_err();
    assert!(err.starts_with("第 2 个 Patch 块"));
}

#[test]
fn patch_without_blocks_is_refused() {
    let err = prepare_patches("no blocks here").unwrap_err();
    assert_eq!(
        err,
        "未在输入的 patch 中解析到有效的 <<<<<<< SEARCH ... ======= ... >>>>>>> REPLACE 块"
    );
    assert_eq!(patch_success_message(3), "成功应用 3 个 Patch 块修改。");
}
