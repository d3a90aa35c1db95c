use eaicoding_mcp::ecode_parser::{
    declaration_findings, declaration_line_has_initializer, e2txt_args, e2txt_base_args,
    ecl_args, escape_json_string, exported_ecode_dir_name, generated_run_dir_name,
    is_line_ending_file_name, module_display_name, module_ref_desc, normalize_e_code_for_template,
    normalized_text_file_bytes, parse_outcome, split_e_signature_name,
    validate_ecode_project_before_generate, wait_step, WaitStep,
};
use eaicoding_mcp::encoding::decode_tool_output_with_preference;

#[test]
fn detects_initializer_in_variable_declaration_line() {
    assert!(declaration_line_has_initializer(
        ".全局变量 URL_主站, 文本型, , , \"http://example.com\""
    ));
    assert!(declaration_line_has_initializer(
        ".局部变量 默认值, 文本型, , , “abc”"
    ));
    assert!(!declaration_line_has_initializer(
        ".全局变量 URL_主站, 文本型"
    ));
    assert!(!declaration_line_has_initializer(
        ".程序集变量 浏览器, 队长chrome类"
    ));
    assert!(!declaration_line_has_initializer(
        ".程序集变量 NameList, 文本型, , \"0\", 文件名称列表"
    ));
    assert!(!declaration_line_has_initializer(
        ".程序集变量 Lists, 超级列表框, , \"1\", 所有列表组"
    ));
}

#[test]
fn precheck_reports_declaration_initializer_with_file_and_line() {
    let findings = declaration_findings(
        "全局变量.e.txt",
        ".版本 2\r\n.全局变量 URL_主站, 文本型, , , \"http://example.com\"\r\n",
    );
    let err = validate_ecode_project_before_generate(&findings).unwrap_err();
    assert!(err.contains("全局变量.e.txt:2"));
    assert!(err.contains("声明行包含默认值"));
}

#[test]
fn precheck_passes_without_findings() {
    let findings = declaration_findings("a.e.txt", ".版本 2\n.全局变量 URL, 文本型\n");
    assert!(findings.is_empty());
    assert_eq!(validate_ecode_project_before_generate(&findings), Ok(()));
}

#[test]
fn precheck_finding_text_is_exact() {
    let findings = declaration_findings("x.e.txt", "\u{feff}.局部变量 a, 文本型, , , “v”  ");
    assert_eq!(findings, vec!["x.e.txt:1 声明行包含默认值：.局部变量 a, 文本型, , , “v”".to_string()]);
}

#[test]
fn normalizes_ecode_text_files_to_crlf() {
    assert!(is_line_ending_file_name("窗口程序集_启动窗口.form.e.txt"));
    let bytes = normalized_text_file_bytes(".版本 2\n.程序集 窗口程序集_启动窗口\n".as_bytes())
        .expect("normalize");
    assert!(bytes.windows(2).any(|item| item == b"\r\n"));
    assert!(!bytes
        .windows(2)
        .any(|item| item[0] != b'\r' && item[1] == b'\n'));
}

#[test]
fn decodes_gbk_ecl_output_when_requested() {
    let (encoded, _, _) = encoding_rs::GBK.encode("错误(10031): 变量指定格式错误");
    let decoded = decode_tool_output_with_preference(&encoded, true);
    assert!(decoded.contains("错误(10031)"));
    assert!(decoded.contains("变量指定格式错误"));
}

#[test]
fn decodes_utf16le_ecl_output_before_gbk_fallback() {
    let mut encoded = vec![0xff, 0xfe];
    for unit in "写出可执行文件成功".encode_utf16() {
        encoded.extend_from_slice(&unit.to_le_bytes());
    }

    let decoded = decode_tool_output_with_preference(&encoded, true);
    assert!(decoded.contains("写出可执行文件成功"));
}

#[test]
fn signature_name_is_text_before_first_comma() {
    assert_eq!(split_e_signature_name(" 子程序1, 整数型, , 备注"), "子程序1");
    assert_eq!(split_e_signature_name("名称"), "名称");
}

#[test]
fn template_wraps_bare_code() {
    let out = normalize_e_code_for_template("  信息框 (“你好”, 0, , )\n\n");
    assert_eq!(
        out,
        ".版本 2\n\n.程序集 程序集1\n\n.子程序 _启动子程序, 整数型, , 本子程序在程序启动后最先执行\n\n    信息框 (“你好”, 0, , )\n\n    返回 (0)"
    );
    let whole = ".版本 2\n.程序集 程序集1\n";
    assert_eq!(normalize_e_code_for_template(whole), ".版本 2\n.程序集 程序集1");
}

#[test]
fn e2txt_arguments_follow_base_arguments() {
    let base = e2txt_base_args();
    let args = e2txt_args("a.e".to_string(), "out".to_string(), "e2t".to_string());
    assert_eq!(&args[..base.len()], &base[..]);
    assert_eq!(
        &args[base.len()..],
        &["-src", "a.e", "-dst", "out", "-mode", "e2t"].map(|s| s.to_string())[..]
    );
}

#[test]
fn ecl_arguments_default_to_static_linking() {
    let args = ecl_args("a.e".into(), "a.exe".into(), "e.exe".into(), None);
    assert_eq!(&args[..5], &["make", "a.e", "a.exe", "-epath", "e.exe"].map(|s| s.to_string())[..]);
    let dynamic = ecl_args("a.e".into(), "a.exe".into(), "e.exe".into(), Some(false));
    assert_ne!(args, dynamic);
}

#[test]
fn module_names_and_references() {
    assert_eq!(module_display_name(Some("精易模块5.0".to_string())), "精易模块");
    assert_eq!(module_display_name(Some("网络".to_string())), "网络");
    assert_eq!(module_display_name(None), "模块");
    assert_eq!(escape_json_string("C:\\e\\ecom\\a.ec"), "C:\\\\e\\\\ecom\\\\a.ec");
    assert_eq!(escape_json_string("tab\there\u{1}"), "tab\\there\\u0001");
    assert_eq!(
        module_ref_desc("D:\\m.ec"),
        "{\n    \"Source\": \"D:\\\\m.ec\"\n}\n"
    );
}

#[test]
fn default_directory_names() {
    assert_eq!(exported_ecode_dir_name(Some("demo"), 1700000000123), "demo-1700000000123");
    assert_eq!(exported_ecode_dir_name(None, 5), "project-5");
    assert_eq!(generated_run_dir_name(42), "run-42");
}

#[test]
fn parser_results() {
    let failed = parse_outcome(false, b"out", b"bad", None, None);
    assert!(!failed.success);
    assert_eq!(failed.output, "out");
    assert_eq!(failed.error.as_deref(), Some("bad"));
    let ok = parse_outcome(true, b"out", b"", Some("文件内容".as_bytes().to_vec()), None);
    assert!(ok.success);
    assert_eq!(ok.output, "文件内容");
    assert_eq!(ok.error, None);
    let (gbk, _, _) = encoding_rs::GBK.encode("中文");
    let ok_gbk = parse_outcome(true, b"", b"warn", Some(gbk.into_owned()), None);
    assert_eq!(ok_gbk.output, "中文");
    assert_eq!(ok_gbk.error.as_deref(), Some("warn"));
}

#[test]
fn wait_for_path_handles_delayed_file_creation() {
    let mut elapsed: u64 = 0;
    let mut observed = false;
    loop {
        match wait_step(elapsed >= 200, elapsed, 2000, 25) {
            WaitStep::Found => {
                observed = true;
                break;
            }
            WaitStep::TimedOut => break,
            WaitStep::Sleep(ms) => elapsed += ms,
        }
    }
    assert!(observed, "wait_for_path should observe the delayed file");
    assert_eq!(elapsed, 200);
}

#[test]
fn wait_gives_up_at_the_timeout() {
    assert!(matches!(wait_step(false, 95, 100, 25), WaitStep::Sleep(5)));
    assert!(matches!(wait_step(false, 100, 100, 25), WaitStep::TimedOut));
    assert!(matches!(wait_step(true, 500, 100, 25), WaitStep::Found));
}
