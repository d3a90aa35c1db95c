use eaicoding_mcp::encoding::{decode_text_bytes, decode_tool_output, decode_utf16ish_tool_output};
use eaicoding_mcp::text::{normalize_newlines_exec, trim_str};

#[test]
fn tool_output_prefers_utf8_then_gbk() {
    assert_eq!(decode_tool_output("成功".as_bytes()), "成功");
    let (gbk, _, _) = encoding_rs::GBK.encode("失败");
    assert_eq!(decode_tool_output(&gbk), "失败");
    assert_eq!(decode_tool_output(b""), "");
}

#[test]
fn utf16_output_without_bom_is_recognised() {
    let mut bytes = Vec::new();
    for unit in "OK: 完成".encode_utf16() {
        bytes.extend_from_slice(&unit.to_le_bytes());
    }
    assert_eq!(decode_utf16ish_tool_output(&bytes), Some("OK: 完成".to_string()));
    assert_eq!(decode_utf16ish_tool_output(b"plain"), None);
}

#[test]
fn text_files_are_utf8_or_gbk() {
    let (t, utf8) = decode_text_bytes("中文".as_bytes());
    assert_eq!(t, "中文");
    assert!(utf8);
    let (gbk, _, _) = encoding_rs::GBK.encode("中文");
    let (g, utf8) = decode_text_bytes(&gbk);
    assert_eq!(g, "中文");
    assert!(!utf8);
}

#[test]
fn line_breaks_and_trimming() {
    let n: String = normalize_newlines_exec(&"a\r\nb\rc\n".chars().collect::<Vec<char>>())
        .into_iter()
        .collect();
    assert_eq!(n, "a\nb\nc\n");
    assert_eq!(trim_str("\u{3000} x \t"), "x");
}
