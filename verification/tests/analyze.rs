use eaicoding_mcp::analyze::{analyze_project_scans, normalize_subprogram_body, scan_source_file};
use eaicoding_mcp::ecode_parser::summarize_ecode_source_file;

#[test]
fn finds_plain_http_address_and_counts_it() {
    let content = ".版本 2\n.程序集 程序集1\n.子程序 取数据\n网页_访问 (“http://example.com/api”)\n";
    let file = summarize_ecode_source_file(
        "/p/代码/程序集1.static.e.txt".to_string(),
        "代码/程序集1.static.e.txt".to_string(),
        "static".to_string(),
        content,
    );
    let scan = scan_source_file(&file, content);
    let url = scan
        .findings
        .iter()
        .find(|f| f.kind == "hardcoded_url")
        .expect("url finding");
    assert_eq!(url.severity, "risk");
    assert_eq!(url.title, "明文 HTTP 地址硬编码");
    assert_eq!(url.line, 4);
    assert_eq!(url.evidence, "网页_访问 (“http://example.com/api”)");
    let result = analyze_project_scans("/p".to_string(), &vec![file], &vec![scan]);
    assert!(result.success);
    assert_eq!(result.metrics.hardcoded_url_count, 1);
    assert_eq!(result.metrics.insecure_http_url_count, 1);
    assert_eq!(result.metrics.analyzed_file_count, 1);
    assert!(result.summary.starts_with("已分析 1/1 个主工程源码文件："));
}

#[test]
fn empty_project_has_nothing_to_report() {
    let result = analyze_project_scans("/p".to_string(), &Vec::new(), &Vec::new());
    assert_eq!(result.findings.len(), 0);
    assert_eq!(result.duplicate_groups.len(), 0);
    assert_eq!(result.metrics.skipped_module_file_count, 0);
    assert_eq!(result.metrics.source_file_count, 0);
    assert_eq!(
        result.summary,
        "已分析 0/0 个主工程源码文件：发现 0 组重复逻辑、0 个硬编码 URL（0 个不安全的明文 HTTP 链接）、0 个选择器和 0 处网络调用，0 处涉及个人隐私信息的敏感字段。"
    );
}

#[test]
fn skeletons_ignore_spacing_numbers_and_comments() {
    let a = normalize_subprogram_body("信息框 (“甲”, 1, , )\n");
    let b = normalize_subprogram_body("' 整行注释\n信息框(“甲”,22,,)  ' 行尾注释\n");
    assert_eq!(a, "信息框(甲,,,)");
    assert_eq!(a, b);
}
