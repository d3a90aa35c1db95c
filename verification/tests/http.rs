use eaicoding_mcp::http::{
    checked_upload_name, decode_upload_content, extract_multipart_file, find_header_end,
    header_value, http_empty, http_response, is_e_file_name, parse_query_param,
    parse_request_head, parse_usize, route_request, sanitize_base_name, sanitize_upload_name,
    split_bytes, upload_kind, Route, UploadKind,
};

#[test]
fn finds_end_of_request_head() {
    assert_eq!(find_header_end(b"GET / HTTP/1.1\r\nHost: x\r\n\r\nbody"), Some(23));
    assert_eq!(find_header_end(b"GET / HTTP/1.1\r\n"), None);
    assert_eq!(find_header_end(b"\r\n\r"), None);
}

#[test]
fn splits_bytes_at_separator() {
    let parts = split_bytes(b"a--b--", b"--");
    assert_eq!(parts, vec![b"a".to_vec(), b"b".to_vec(), Vec::new()]);
    assert_eq!(split_bytes(b"abc", b"x"), vec![b"abc".to_vec()]);
}

#[test]
fn reads_query_parameters() {
    assert_eq!(
        parse_query_param("/message?connectionId=conn_1_2&x=1", "connectionId"),
        Some("conn_1_2".to_string())
    );
    assert_eq!(parse_query_param("/message?a&b=2", "b"), Some("2".to_string()));
    assert_eq!(parse_query_param("/message?a=1", "b"), None);
    assert_eq!(parse_query_param("/message", "a"), None);
    assert_eq!(parse_query_param("/p?k=v=w", "k"), Some("v=w".to_string()));
}

#[test]
fn routes_requests() {
    assert!(matches!(route_request("OPTIONS", "/anything"), Route::Preflight));
    assert!(matches!(route_request("GET", "/sse?x=1"), Route::EventStream));
    assert!(matches!(route_request("GET", "/health"), Route::Health));
    assert!(matches!(route_request("POST", "/message?connectionId=1"), Route::Message));
    assert!(matches!(route_request("POST", "/upload"), Route::Upload));
    assert!(matches!(route_request("GET", "/upload"), Route::NotFound));
}

#[test]
fn writes_responses() {
    let r = http_response(404, "text/plain", "无".as_bytes());
    assert_eq!(
        r,
        "HTTP/1.1 404 Not Found\r\nContent-Type: text/plain\r\nContent-Length: 3\r\nAccess-Control-Allow-Origin: *\r\nAccess-Control-Allow-Methods: GET, POST, OPTIONS\r\nAccess-Control-Allow-Headers: Content-Type, X-File-Name\r\nConnection: close\r\n\r\n无"
    );
    assert!(http_empty(202).starts_with("HTTP/1.1 202 OK\r\nContent-Type: application/json; charset=utf-8\r\nContent-Length: 0\r\n"));
    assert!(http_response(400, "x", b"\xff").ends_with("\u{fffd}"));
}

#[test]
fn parses_request_heads() {
    let head = parse_request_head(
        b"POST /upload?x=1 HTTP/1.1\r\nContent-Type: text/plain\r\nX-File-Name:  a.e \r\nbad line\r\nContent-Length: 12\r\ncontent-length: 5",
    );
    assert_eq!(head.method, "POST");
    assert_eq!(head.path, "/upload?x=1");
    assert_eq!(head.headers.len(), 4);
    assert_eq!(head.headers[0], ("content-type".to_string(), "text/plain".to_string()));
    assert_eq!(head.content_length, 5);
    assert_eq!(header_value(&head.headers, "x-file-name"), Some("a.e".to_string()));
    assert_eq!(header_value(&head.headers, "content-length"), Some("5".to_string()));
    assert_eq!(header_value(&head.headers, "missing"), None);
    let empty = parse_request_head(b"");
    assert_eq!(empty.method, "");
    assert_eq!(empty.path, "");
    assert_eq!(empty.content_length, 0);
}

#[test]
fn parses_decimal_lengths() {
    let p = |s: &str| parse_usize(&s.chars().collect::<Vec<char>>());
    assert_eq!(p("42"), Some(42));
    assert_eq!(p("+7"), Some(7));
    assert_eq!(p("+"), None);
    assert_eq!(p(""), None);
    assert_eq!(p("-1"), None);
    assert_eq!(p("1a"), None);
    assert_eq!(p("99999999999999999999999"), None);
}

#[test]
fn picks_upload_kind() {
    assert!(matches!(upload_kind("multipart/form-data; boundary=x"), UploadKind::Multipart));
    assert!(matches!(upload_kind("application/json"), UploadKind::Json));
    assert!(matches!(upload_kind(""), UploadKind::Raw));
}

#[test]
fn extracts_multipart_file() {
    let body = b"--XYZ\r\nContent-Disposition: form-data; name=\"file\"; filename=\"demo.e\"\r\n\r\nDATA\r\n--XYZ--\r\n";
    let (name, bytes) = extract_multipart_file("multipart/form-data; boundary=\"XYZ\"", body).unwrap();
    assert_eq!(name, "demo.e");
    assert_eq!(bytes, b"DATA".to_vec());
    assert_eq!(
        extract_multipart_file("multipart/form-data", body).unwrap_err(),
        "multipart 缺少 boundary"
    );
    assert_eq!(
        extract_multipart_file("multipart/form-data; boundary=XYZ", b"--XYZ\r\nno head").unwrap_err(),
        "multipart 中没有找到文件字段"
    );
    let (unnamed, _) = extract_multipart_file(
        "multipart/form-data; boundary=B",
        b"--B\r\nContent-Disposition: form-data\r\n\r\nX",
    )
    .unwrap();
    assert_eq!(unnamed, "upload.e");
}

#[test]
fn decodes_base64_uploads() {
    assert_eq!(decode_upload_content("aGVsbG8=").unwrap(), b"hello".to_vec());
    assert!(decode_upload_content("@@").unwrap_err().starts_with("Base64 解码失败: "));
}

#[test]
fn sanitizes_upload_names() {
    assert_eq!(sanitize_base_name(Some("a<b>.e")), Ok("a_b_.e".to_string()));
    assert_eq!(sanitize_base_name(Some("a\u{7}.e")), Ok("a_.e".to_string()));
    assert_eq!(sanitize_base_name(None), Ok("upload.e".to_string()));
    assert_eq!(sanitize_base_name(Some("   ")), Err("文件名不能为空".to_string()));
    assert_eq!(sanitize_upload_name("dir/sub/x?.e"), Ok("x_.e".to_string()));
    assert_eq!(sanitize_upload_name(""), Ok("upload.e".to_string()));
}

#[test]
fn only_e_files_are_accepted() {
    assert!(is_e_file_name("a.e"));
    assert!(is_e_file_name("a.b.E"));
    assert!(!is_e_file_name(".e"));
    assert!(!is_e_file_name("a.ec"));
    assert!(!is_e_file_name("a"));
    assert_eq!(checked_upload_name("x/y/demo.e"), Ok("demo.e".to_string()));
    assert_eq!(checked_upload_name("demo.txt"), Err("只允许上传 .e 文件".to_string()));
}
