use eaicoding_mcp::ecode_parser::{declaration_findings_in_bytes, eparser_args, plan_project_files};
use eaicoding_mcp::encoding::decode_utf16ish_tool_output;
use eaicoding_mcp::http::{checked_upload_name, extract_multipart_file, sanitize_upload_name};
use eaicoding_mcp::local_files::encode_text_for_write;
use eaicoding_mcp::mcp::{mcp_tools, plan_tool_call, rpc_reply, ArgValue, RpcReply};
use eaicoding_mcp::patch::parse_patches;

fn text(k: &str, v: &str) -> (String, ArgValue) {
    (k.to_string(), ArgValue::Text(v.to_string()))
}

#[test]
fn upload_keeps_its_own_name() {
    assert_eq!(sanitize_upload_name("a.e"), Ok("a.e".to_string()));
    assert_eq!(sanitize_upload_name("dir/a.e"), Ok("a.e".to_string()));
    assert_eq!(checked_upload_name("dir/a.e"), Ok("a.e".to_string()));
    assert_eq!(checked_upload_name("/tmp/up/工程.E"), Ok("工程.E".to_string()));
    assert_eq!(checked_upload_name("dir/a.txt"), Err("只允许上传 .e 文件".to_string()));
}

#[test]
fn missing_required_argument_is_named() {
    for tool in mcp_tools() {
        let required: Vec<String> = tool
            .params
            .iter()
            .filter(|p| p.required && p.name != "file_name")
            .map(|p| p.name.clone())
            .collect();
        for missing in &required {
            let args: Vec<(String, ArgValue)> = required
                .iter()
                .filter(|k| *k != missing)
                .map(|k| text(k, "x"))
                .collect();
            assert_eq!(
                plan_tool_call(&tool.name, &args).unwrap_err(),
                format!("参数缺失: {}", missing)
            );
        }
    }
}

#[test]
fn utf16_output_with_bom_reads_back() {
    let s = "编译成功 OK 😀";
    let mut le = vec![0xff, 0xfe];
    let mut be = vec![0xfe, 0xff];
    for unit in s.encode_utf16() {
        le.extend_from_slice(&unit.to_le_bytes());
        be.extend_from_slice(&unit.to_be_bytes());
    }
    assert_eq!(decode_utf16ish_tool_output(&le), Some(s.to_string()));
    assert_eq!(decode_utf16ish_tool_output(&be), Some(s.to_string()));
}

#[test]
fn multipart_body_gives_back_file() {
    let data: &[u8] = b"\x00\x01binary-data\xff";
    let mut body = b"--B\r\nContent-Disposition: form-data; name=\"file\"; filename=\"a.e\"\r\n\r\n".to_vec();
    body.extend_from_slice(data);
    body.extend_from_slice(b"\r\n--B--\r\n");
    let (name, bytes) = extract_multipart_file("multipart/form-data; boundary=B", &body).unwrap();
    assert_eq!(name, "a.e");
    assert_eq!(bytes, data);
}

#[test]
fn written_block_text_reads_back() {
    let search = "第一行\n  第二行";
    let replace = "新的内容\n";
    let text = format!("<<<<<<< SEARCH\n{}\n=======\n{}\n>>>>>>> REPLACE", search, replace);
    let blocks = parse_patches(&text);
    assert_eq!(blocks.len(), 1);
    assert_eq!(blocks[0].search, search);
    assert_eq!(blocks[0].replace, replace);
}

#[test]
fn precheck_reads_gbk_sources() {
    let (bytes, _, _) = encoding_rs::GBK.encode(".版本 2\r\n.全局变量 地址, 文本型, , , \"http://a\"\r\n");
    let findings = declaration_findings_in_bytes("全局变量.e.txt", &bytes);
    assert_eq!(findings.len(), 1);
    assert!(findings[0].starts_with("全局变量.e.txt:2 声明行包含默认值："));
    let (clean, _, _) = encoding_rs::GBK.encode(".版本 2\r\n.全局变量 地址, 文本型\r\n");
    assert!(declaration_findings_in_bytes("全局变量.e.txt", &clean).is_empty());
}

#[test]
fn eparser_arguments_in_order() {
    assert_eq!(
        eparser_args("p.dll".into(), "C:\\e".into(), "a.e".into(), "a.parse_output.txt".into()),
        vec!["p.dll", "C:\\e", "a.e", "a.parse_output.txt"]
    );
}

#[test]
fn ascii_text_is_written_as_its_bytes_in_gbk() {
    let bytes = encode_text_for_write("x.txt", "abc\n".to_string(), &Some("gbk".to_string()));
    assert_eq!(bytes, b"abc\n".to_vec());
}

#[test]
fn project_map_chooses_files_within_the_limit() {
    let relatives: Vec<String> = vec![
        "代码/b.static.e.txt".to_string(),
        "模块/m.static.e.txt".to_string(),
        "代码/a.static.e.txt".to_string(),
        "窗口/w.form.e.txt".to_string(),
    ];
    let in_module = vec![false, true, false, false];
    let plan = plan_project_files(&relatives, &in_module, None, Some(2));
    assert_eq!(plan.source_file_count, 3);
    assert_eq!(plan.skipped_module_file_count, 1);
    assert_eq!(plan.chosen.len(), 2);
    assert!(plan.chosen.iter().all(|&i| !in_module[i]));
    let all = plan_project_files(&relatives, &in_module, Some(true), None);
    assert_eq!(all.source_file_count, 4);
    assert_eq!(all.skipped_module_file_count, 0);
    assert_eq!(all.chosen.len(), 4);
    let one = plan_project_files(&relatives, &in_module, Some(true), Some(0));
    assert_eq!(one.chosen.len(), 1);
}

#[test]
fn failed_calls_are_internal_errors() {
    assert!(matches!(rpc_reply::<u8>(Ok(7)), RpcReply::Result(7)));
    match rpc_reply::<u8>(Err("坏了".to_string())) {
        RpcReply::Error { code, message } => {
            assert_eq!(code, -32603);
            assert_eq!(message, "坏了");
        }
        RpcReply::Result(_) => panic!("expected an error"),
    }
}

#[test]
fn multipart_with_non_ascii_boundary() {
    let data: &[u8] = b"payload";
    let mut body = "--边界\r\nContent-Disposition: form-data; name=\"file\"; filename=\"b.e\"\r\n\r\n".as_bytes().to_vec();
    body.extend_from_slice(data);
    body.extend_from_slice("\r\n--边界--\r\n".as_bytes());
    let (name, bytes) = extract_multipart_file("multipart/form-data; boundary=边界", &body).unwrap();
    assert_eq!(name, "b.e");
    assert_eq!(bytes, data);
}
