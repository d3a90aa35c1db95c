use eaicoding_mcp::http::parse_query_param;
use eaicoding_mcp::mcp::{
    endpoint_event, json_upload_fields, mcp_tools, message_action, plan_mcp_call,
    plan_tool_call, setup_already_done, setup_outcome, sse_data, ArgValue, McpMethod, MessageAction, ParamKind, ToolRequest,
};

fn text(k: &str, v: &str) -> (String, ArgValue) {
    (k.to_string(), ArgValue::Text(v.to_string()))
}

#[test]
fn catalogue_lists_thirteen_tools() {
    let tools = mcp_tools();
    let names: Vec<&str> = tools.iter().map(|t| t.name.as_str()).collect();
    assert_eq!(
        names,
        vec![
            "upload_efile", "inspect_env", "setup_env", "parse_efile", "export_ecode",
            "generate_efile", "patch_file", "compile_efile", "search_jingyi_module",
            "analyze_project", "read_ecode_file", "write_ecode_file", "scan_env"
        ]
    );
    let compile = &tools[7];
    assert_eq!(compile.params.len(), 4);
    assert!(matches!(compile.params[3].kind, ParamKind::TextList));
    assert!(compile.params[0].required);
    assert!(!compile.params[2].required);
}

#[test]
fn every_listed_tool_accepts_its_required_arguments() {
    for tool in mcp_tools() {
        let args: Vec<(String, ArgValue)> = tool
            .params
            .iter()
            .filter(|p| p.required)
            .map(|p| text(&p.name, "v"))
            .collect();
        assert!(plan_tool_call(&tool.name, &args).is_ok(), "{}", tool.name);
    }
}

#[test]
fn plans_tool_calls() {
    let args = vec![text("file_path", "a.e.txt"), text("patch", "p")];
    match plan_tool_call("patch_file", &args).unwrap() {
        ToolRequest::PatchFile { file_path, patch } => {
            assert_eq!(file_path, "a.e.txt");
            assert_eq!(patch, "p");
        }
        _ => panic!("wrong request"),
    }
    let missing = plan_tool_call("patch_file", &vec![text("file_path", "a")]).unwrap_err();
    assert_eq!(missing, "参数缺失: patch");
    assert_eq!(plan_tool_call("nope", &Vec::new()).unwrap_err(), "未支持的 MCP Tool: nope");
    let wrong_type = vec![("file_path".to_string(), ArgValue::Integer(3))];
    assert_eq!(plan_tool_call("parse_efile", &wrong_type).unwrap_err(), "参数缺失: file_path");
}

#[test]
fn tool_defaults_are_applied() {
    match plan_tool_call("upload_efile", &vec![text("base64", "AA==")]).unwrap() {
        ToolRequest::UploadEfile { file_name, content_base64 } => {
            assert_eq!(file_name, "upload.e");
            assert_eq!(content_base64, "AA==");
        }
        _ => panic!("wrong request"),
    }
    match plan_tool_call("generate_efile", &vec![text("ecode_dir", "d")]).unwrap() {
        ToolRequest::GenerateEfile { ecode_dir, output_path } => {
            assert_eq!(ecode_dir, "d");
            assert_eq!(output_path, "");
        }
        _ => panic!("wrong request"),
    }
    match plan_tool_call("write_ecode_file", &vec![text("file_path", "f"), text("content", "c")]).unwrap() {
        ToolRequest::WriteEcodeFile { encoding, .. } => assert_eq!(encoding, "gbk"),
        _ => panic!("wrong request"),
    }
    let compile_args = vec![
        text("source_path", "a.e"),
        ("static_link".to_string(), ArgValue::Boolean(false)),
        (
            "module_paths".to_string(),
            ArgValue::List(vec![Some("m1.ec".to_string()), None, Some("m2.ec".to_string())]),
        ),
    ];
    match plan_tool_call("compile_efile", &compile_args).unwrap() {
        ToolRequest::CompileEfile { source_path, output_path, static_link, module_paths } => {
            assert_eq!(source_path, "a.e");
            assert_eq!(output_path, None);
            assert_eq!(static_link, Some(false));
            assert_eq!(module_paths, Some(vec!["m1.ec".to_string(), "m2.ec".to_string()]));
        }
        _ => panic!("wrong request"),
    }
    match plan_tool_call("search_jingyi_module", &vec![text("query", "q"), ("limit".to_string(), ArgValue::Integer(3))]).unwrap() {
        ToolRequest::SearchJingyi { query, limit } => {
            assert_eq!(query, "q");
            assert_eq!(limit, Some(3));
        }
        _ => panic!("wrong request"),
    }
}

#[test]
fn plans_json_rpc_methods() {
    assert!(matches!(plan_mcp_call("initialize", false, None), Ok(McpMethod::Initialize)));
    assert!(matches!(plan_mcp_call("tools/list", false, None), Ok(McpMethod::ListTools)));
    match plan_mcp_call("tools/call", true, Some("scan_env")) {
        Ok(McpMethod::CallTool(name)) => assert_eq!(name, "scan_env"),
        _ => panic!("wrong plan"),
    }
    assert_eq!(plan_mcp_call("tools/call", false, None).err(), Some("缺少 params 参数".to_string()));
    assert_eq!(
        plan_mcp_call("tools/call", true, None).err(),
        Some("缺少 tool 的 name 字段".to_string())
    );
    assert_eq!(plan_mcp_call("x/y", true, None).err(), Some("未知的 JSON-RPC 方法: x/y".to_string()));
}

#[test]
fn decides_what_a_message_gets() {
    assert!(matches!(message_action("/message", Some(("2.0", true))), MessageAction::MissingConnectionId));
    assert!(matches!(message_action("/message?connectionId=c", None), MessageAction::ParseError));
    assert!(matches!(message_action("/message?connectionId=c", Some(("1.0", true))), MessageAction::InvalidVersion));
    assert!(matches!(message_action("/message?connectionId=c", Some(("2.0", false))), MessageAction::Notification));
    match message_action("/message?connectionId=c", Some(("2.0", true))) {
        MessageAction::Dispatch(id) => assert_eq!(id, "c"),
        _ => panic!("wrong action"),
    }
}

#[test]
fn announced_endpoint_leads_back_to_the_connection() {
    let event = endpoint_event("conn_17_42");
    assert_eq!(event, "event: endpoint\ndata: /message?connectionId=conn_17_42\n\n");
    let path = event.trim_end().trim_start_matches("event: endpoint\ndata: ");
    assert_eq!(parse_query_param(path, "connectionId"), Some("conn_17_42".to_string()));
    assert_eq!(sse_data("{}"), "data: {}\n\n");
}

#[test]
fn json_upload_needs_content() {
    assert_eq!(
        json_upload_fields(&vec![text("filename", "x.e"), text("content_base64", "QQ==")]),
        Ok(("x.e".to_string(), "QQ==".to_string()))
    );
    assert_eq!(json_upload_fields(&Vec::new()), Err("缺少 content_base64".to_string()));
}

#[test]
fn setup_answers() {
    assert_eq!(setup_already_done(), "环境已配置完毕。易语言运行环境已存在于本地目录。");
    assert_eq!(
        setup_outcome(true, "C:\\eroot"),
        Ok("易语言依赖环境一键安装成功！已解压至 C:\\eroot".to_string())
    );
    assert_eq!(
        setup_outcome(false, "C:\\eroot"),
        Err("下载解压已完成，但未在目标位置检测到 e.exe，请检查下载包是否完整。".to_string())
    );
}
