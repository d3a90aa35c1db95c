use eaicoding_mcp::local_files::{
    encode_text_for_write, encoding_is_gbk, normalize_line_endings_for_path,
    read_result_from_bytes, should_use_crlf, write_result,
};

#[test]
fn sources_get_crlf_line_endings() {
    assert!(should_use_crlf("C:/p/程序集1.static.E.TXT"));
    assert!(should_use_crlf("a.epl"));
    assert!(!should_use_crlf("a.txt"));
    assert_eq!(
        normalize_line_endings_for_path("a.e.txt", "a\nb\r\nc\rd".to_string()),
        "a\r\nb\r\nc\r\nd"
    );
    assert_eq!(normalize_line_endings_for_path("a.md", "a\nb".to_string()), "a\nb");
}

#[test]
fn writes_gbk_when_asked() {
    assert!(encoding_is_gbk(&Some(" GBK ".to_string())));
    assert!(encoding_is_gbk(&Some("gb18030".to_string())));
    assert!(!encoding_is_gbk(&Some("utf-8".to_string())));
    assert!(!encoding_is_gbk(&None));
    let bytes = encode_text_for_write("a.e.txt", "中\n".to_string(), &Some("gbk".to_string()));
    let (expected, _, _) = encoding_rs::GBK.encode("中\r\n");
    assert_eq!(bytes, expected.into_owned());
    assert_eq!(encode_text_for_write("a.txt", "中".to_string(), &None), "中".as_bytes().to_vec());
    let r = write_result("a.txt".to_string(), 3);
    assert_eq!(r.path, "a.txt");
    assert_eq!(r.bytes, 3);
}

#[test]
fn reads_utf8_then_gbk_and_truncates() {
    let r = read_result_from_bytes("f".to_string(), "你好世界".as_bytes().to_vec(), Some(2));
    assert_eq!(r.encoding, "UTF-8");
    assert!(r.truncated);
    assert_eq!(r.bytes, 12);
    assert_eq!(r.content, "你好\n\n... [已截断，原始文件 12 字节] ...");
    let (gbk, _, _) = encoding_rs::GBK.encode("中文");
    let g = read_result_from_bytes("g".to_string(), gbk.into_owned(), None);
    assert_eq!(g.encoding, "GBK");
    assert_eq!(g.content, "中文");
    assert!(!g.truncated);
}

#[test]
fn utf8_write_reads_back_unchanged() {
    let text = "第一行\n第二行";
    let written = encode_text_for_write("x.e.txt", text.to_string(), &None);
    let back = read_result_from_bytes("x.e.txt".to_string(), written, None);
    assert_eq!(back.content, "第一行\r\n第二行");
}

#[test]
fn normalizing_line_breaks_twice_changes_nothing_more() {
    let once = normalize_line_endings_for_path("a.epl", "x\r\r\ny\n\rz".to_string());
    assert_eq!(once, "x\r\n\r\ny\r\n\r\nz");
    let twice = normalize_line_endings_for_path("a.epl", once.clone());
    assert_eq!(once, twice);
    let bytes = once.as_bytes();
    assert!(!bytes.windows(2).any(|w| w[0] != b'\r' && w[1] == b'\n'));
}
