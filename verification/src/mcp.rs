//! The MCP side of the service: the catalogue of tools that `tools/list`
//! announces, which JSON-RPC methods are answered, how a `tools/call` is
//! read into a request for one tool (with the argument checks), and the
//! text of the event stream.
use vstd::prelude::*;
use crate::http::{parse_query_param, query_param};
use crate::text::{split_char, append_str, chars_of, eq_str, str_views, string_of};

verus! {

// ---------------------------------------------------------------------------
// Arguments
// ---------------------------------------------------------------------------

/// A JSON argument value, as far as the tools read it.
#[derive(Debug)]
pub enum ArgValue {
    Text(String),
    /// A non-negative integer that fits in `u64`.
    Integer(u64),
    Boolean(bool),
    /// An array: each element's text when it is a string.
    List(Vec<Option<String>>),
    /// Anything else (null, objects, negative or fractional numbers).
    Other,
}

/// The position of the first argument named `key`, or the number of
/// arguments.
pub open spec fn arg_index(args: Seq<(String, ArgValue)>, key: Seq<char>) -> int
    decreases args.len(),
{
    if args.len() == 0 {
        0
    } else if args[0].0@ == key {
        0
    } else {
        1 + arg_index(args.drop_first(), key)
    }
}

pub proof fn lemma_arg_index(args: Seq<(String, ArgValue)>, key: Seq<char>)
    ensures
        0 <= arg_index(args, key) <= args.len(),
        arg_index(args, key) < args.len() ==> args[arg_index(args, key)].0@ == key,
        forall|j: int| 0 <= j < arg_index(args, key) ==> (#[trigger] args[j]).0@ != key,
    decreases args.len(),
{
    if args.len() > 0 && args[0].0@ != key {
        lemma_arg_index(args.drop_first(), key);
        assert forall|j: int| 0 <= j < arg_index(args, key) implies (#[trigger] args[j]).0@
            != key by {
            if j > 0 {
                assert(args[j] == args.drop_first()[j - 1]);
            }
        }
    }
}

/// The argument named `key` (`args.get(key)`).
pub open spec fn arg_value(args: Seq<(String, ArgValue)>, key: Seq<char>) -> Option<ArgValue> {
    let i = arg_index(args, key);
    if 0 <= i < args.len() {
        Some(args[i].1)
    } else {
        None
    }
}

/// The argument named `key` when it is a string (`.and_then(as_str)`).
pub open spec fn text_of(v: Option<ArgValue>) -> Option<Seq<char>> {
    match v {
        Some(ArgValue::Text(s)) => Some(s@),
        _ => None,
    }
}

pub open spec fn arg_text(args: Seq<(String, ArgValue)>, key: Seq<char>) -> Option<Seq<char>> {
    text_of(arg_value(args, key))
}

/// The argument named `first`, else the one named `second`
/// (`get(first).or_else(|| get(second))`).
pub open spec fn either_arg(args: Seq<(String, ArgValue)>, first: Seq<char>, second: Seq<char>) -> Option<
    ArgValue,
> {
    match arg_value(args, first) {
        Some(v) => Some(v),
        None => arg_value(args, second),
    }
}

pub open spec fn arg_integer(args: Seq<(String, ArgValue)>, key: Seq<char>) -> Option<u64> {
    match arg_value(args, key) {
        Some(ArgValue::Integer(n)) => Some(n),
        _ => None,
    }
}

pub open spec fn arg_bool(args: Seq<(String, ArgValue)>, key: Seq<char>) -> Option<bool> {
    match arg_value(args, key) {
        Some(ArgValue::Boolean(b)) => Some(b),
        _ => None,
    }
}

/// The string elements of an array, in order.
pub open spec fn list_texts(items: Seq<Option<String>>) -> Seq<Seq<char>>
    decreases items.len(),
{
    if items.len() == 0 {
        seq![]
    } else {
        let rest = list_texts(items.drop_last());
        match items.last() {
            Some(s) => rest.push(s@),
            None => rest,
        }
    }
}

pub open spec fn arg_list(args: Seq<(String, ArgValue)>, key: Seq<char>) -> Option<Seq<Seq<char>>> {
    match arg_value(args, key) {
        Some(ArgValue::List(items)) => Some(list_texts(items@)),
        _ => None,
    }
}

fn find_arg(args: &Vec<(String, ArgValue)>, key: &str) -> (res: Option<usize>)
    ensures
        match res {
            Some(i) => i == arg_index(args@, key@) && i < args@.len(),
            None => arg_index(args@, key@) == args@.len(),
        },
{
    proof {
        lemma_arg_index(args@, key@);
    }
    let k = chars_of(key);
    let mut i: usize = 0;
    while i < args.len()
        invariant
            i <= args@.len(),
            k@ == key@,
            forall|j: int| 0 <= j < i ==> (#[trigger] args@[j]).0@ != key@,
        decreases args.len() - i,
    {
        let name = chars_of(args[i].0.as_str());
        if crate::text::chars_eq(name.as_slice(), k.as_slice()) {
            proof {
                lemma_arg_index(args@, key@);
            }
            return Some(i);
        }
        i += 1;
    }
    None
}

fn text_value(v: &ArgValue) -> (res: Option<String>)
    ensures
        match res {
            Some(s) => text_of(Some(*v)) == Some(s@),
            None => text_of(Some(*v)) is None,
        },
{
    match v {
        ArgValue::Text(s) => Some(s.clone()),
        _ => None,
    }
}

/// The argument `key` as text.
pub fn text_arg(args: &Vec<(String, ArgValue)>, key: &str) -> (res: Option<String>)
    ensures
        match res {
            Some(s) => arg_text(args@, key@) == Some(s@),
            None => arg_text(args@, key@) is None,
        },
{
    match find_arg(args, key) {
        Some(i) => text_value(&args[i].1),
        None => None,
    }
}

/// The argument `first`, else `second`, as text.
pub fn either_text_arg(args: &Vec<(String, ArgValue)>, first: &str, second: &str) -> (res: Option<
    String,
>)
    ensures
        match res {
            Some(s) => text_of(either_arg(args@, first@, second@)) == Some(s@),
            None => text_of(either_arg(args@, first@, second@)) is None,
        },
{
    match find_arg(args, first) {
        Some(i) => text_value(&args[i].1),
        None => match find_arg(args, second) {
            Some(j) => text_value(&args[j].1),
            None => None,
        },
    }
}

pub fn integer_arg(args: &Vec<(String, ArgValue)>, key: &str) -> (res: Option<u64>)
    ensures
        res == arg_integer(args@, key@),
{
    match find_arg(args, key) {
        Some(i) => match &args[i].1 {
            ArgValue::Integer(n) => Some(*n),
            _ => None,
        },
        None => None,
    }
}

pub fn bool_arg(args: &Vec<(String, ArgValue)>, key: &str) -> (res: Option<bool>)
    ensures
        res == arg_bool(args@, key@),
{
    match find_arg(args, key) {
        Some(i) => match &args[i].1 {
            ArgValue::Boolean(b) => Some(*b),
            _ => None,
        },
        None => None,
    }
}

pub fn list_arg(args: &Vec<(String, ArgValue)>, key: &str) -> (res: Option<Vec<String>>)
    ensures
        match res {
            Some(v) => arg_list(args@, key@) == Some(str_views(v@)),
            None => arg_list(args@, key@) is None,
        },
{
    match find_arg(args, key) {
        Some(i) => match &args[i].1 {
            ArgValue::List(items) => {
                let mut out: Vec<String> = Vec::new();
                let mut j: usize = 0;
                while j < items.len()
                    invariant
                        j <= items@.len(),
                        str_views(out@) == list_texts(items@.take(j as int)),
                    decreases items.len() - j,
                {
                    assert(items@.take(j + 1).drop_last() == items@.take(j as int));
                    let ghost before = out@;
                    match &items[j] {
                        Some(s) => {
                            out.push(s.clone());
                            assert(str_views(out@) =~= str_views(before).push(s@));
                        },
                        None => {},
                    }
                    j += 1;
                }
                assert(items@.take(items@.len() as int) == items@);
                Some(out)
            },
            _ => None,
        },
        None => None,
    }
}

// ---------------------------------------------------------------------------
// Tool calls
// ---------------------------------------------------------------------------

/// What a `tools/call` asks of one tool, with its arguments read.
#[derive(Debug)]
pub enum ToolRequest {
    UploadEfile { file_name: String, content_base64: String },
    InspectEnv,
    SetupEnv,
    ParseEfile { file_path: String },
    ExportEcode { source_path: String, output_dir: Option<String> },
    GenerateEfile { ecode_dir: String, output_path: String },
    PatchFile { file_path: String, patch: String },
    CompileEfile {
        source_path: String,
        output_path: Option<String>,
        static_link: Option<bool>,
        module_paths: Option<Vec<String>>,
    },
    SearchJingyi { query: String, limit: Option<u64> },
    AnalyzeProject { ecode_dir: String },
    ReadEcodeFile { file_path: String, max_chars: Option<u64> },
    /// Text written by this tool is encoded as named here (GBK).
    WriteEcodeFile { file_path: String, content: String, encoding: String },
    ScanEnv { root_path: Option<String> },
}

pub open spec fn opt_view(o: Option<String>) -> Option<Seq<char>> {
    match o {
        Some(s) => Some(s@),
        None => None,
    }
}

/// The names of the tools that calls are accepted for.
pub open spec fn tool_names() -> Seq<Seq<char>> {
    seq![
        "upload_efile"@,
        "inspect_env"@,
        "setup_env"@,
        "parse_efile"@,
        "export_ecode"@,
        "generate_efile"@,
        "patch_file"@,
        "compile_efile"@,
        "search_jingyi_module"@,
        "analyze_project"@,
        "read_ecode_file"@,
        "write_ecode_file"@,
        "scan_env"@,
    ]
}

/// The arguments a tool cannot do without, in the order they are checked.
pub open spec fn required_args(name: Seq<char>) -> Seq<Seq<char>> {
    if name == "upload_efile"@ {
        seq!["content_base64"@]
    } else if name == "parse_efile"@ {
        seq!["file_path"@]
    } else if name == "export_ecode"@ {
        seq!["source_path"@]
    } else if name == "generate_efile"@ {
        seq!["ecode_dir"@]
    } else if name == "patch_file"@ {
        seq!["file_path"@, "patch"@]
    } else if name == "compile_efile"@ {
        seq!["source_path"@]
    } else if name == "search_jingyi_module"@ {
        seq!["query"@]
    } else if name == "analyze_project"@ {
        seq!["ecode_dir"@]
    } else if name == "read_ecode_file"@ {
        seq!["file_path"@]
    } else if name == "write_ecode_file"@ {
        seq!["file_path"@, "content"@]
    } else {
        seq![]
    }
}

/// Whether a call of tool `name` has the required argument `arg` as text;
/// `upload_efile` takes its content from `content_base64` or `base64`.
pub open spec fn has_required(name: Seq<char>, args: Seq<(String, ArgValue)>, arg: Seq<char>) -> bool {
    if name == "upload_efile"@ {
        text_of(either_arg(args, "content_base64"@, "base64"@)) is Some
    } else {
        arg_text(args, arg) is Some
    }
}

/// The first required argument of tool `name` that a call lacks (no tool
/// requires more than two).
pub open spec fn first_missing(name: Seq<char>, args: Seq<(String, ArgValue)>) -> Option<Seq<char>> {
    let req = required_args(name);
    if req.len() >= 1 && !has_required(name, args, req[0]) {
        Some(req[0])
    } else if req.len() >= 2 && !has_required(name, args, req[1]) {
        Some(req[1])
    } else {
        None
    }
}

/// Why a call of tool `name` with `args` is refused, if it is.
pub open spec fn tool_refusal(name: Seq<char>, args: Seq<(String, ArgValue)>) -> Option<Seq<char>> {
    if !tool_names().contains(name) {
        Some("未支持的 MCP Tool: "@ + name)
    } else {
        match first_missing(name, args) {
            Some(a) => Some("参数缺失: "@ + a),
            None => None,
        }
    }
}

/// Whether `r` is the request that a call of tool `name` with `args` reads
/// as: every field is the argument of that name, with the defaults of the
/// tool where it is absent.
pub open spec fn request_for(name: Seq<char>, args: Seq<(String, ArgValue)>, r: ToolRequest) -> bool {
    match r {
        ToolRequest::UploadEfile { file_name, content_base64 } => {
            &&& name == "upload_efile"@
            &&& file_name@ == (match text_of(either_arg(args, "file_name"@, "filename"@)) {
                Some(n) => n,
                None => "upload.e"@,
            })
            &&& text_of(either_arg(args, "content_base64"@, "base64"@)) == Some(content_base64@)
        },
        ToolRequest::InspectEnv => name == "inspect_env"@,
        ToolRequest::SetupEnv => name == "setup_env"@,
        ToolRequest::ParseEfile { file_path } => name == "parse_efile"@ && arg_text(
            args,
            "file_path"@,
        ) == Some(file_path@),
        ToolRequest::ExportEcode { source_path, output_dir } => {
            &&& name == "export_ecode"@
            &&& arg_text(args, "source_path"@) == Some(source_path@)
            &&& opt_view(output_dir) == arg_text(args, "output_dir"@)
        },
        ToolRequest::GenerateEfile { ecode_dir, output_path } => {
            &&& name == "generate_efile"@
            &&& arg_text(args, "ecode_dir"@) == Some(ecode_dir@)
            &&& output_path@ == (match arg_text(args, "output_path"@) {
                Some(p) => p,
                None => Seq::empty(),
            })
        },
        ToolRequest::PatchFile { file_path, patch } => {
            &&& name == "patch_file"@
            &&& arg_text(args, "file_path"@) == Some(file_path@)
            &&& arg_text(args, "patch"@) == Some(patch@)
        },
        ToolRequest::CompileEfile { source_path, output_path, static_link, module_paths } => {
            &&& name == "compile_efile"@
            &&& arg_text(args, "source_path"@) == Some(source_path@)
            &&& opt_view(output_path) == arg_text(args, "output_path"@)
            &&& static_link == arg_bool(args, "static_link"@)
            &&& (match module_paths {
                Some(v) => arg_list(args, "module_paths"@) == Some(str_views(v@)),
                None => arg_list(args, "module_paths"@) is None,
            })
        },
        ToolRequest::SearchJingyi { query, limit } => {
            &&& name == "search_jingyi_module"@
            &&& arg_text(args, "query"@) == Some(query@)
            &&& limit == arg_integer(args, "limit"@)
        },
        ToolRequest::AnalyzeProject { ecode_dir } => name == "analyze_project"@ && arg_text(
            args,
            "ecode_dir"@,
        ) == Some(ecode_dir@),
        ToolRequest::ReadEcodeFile { file_path, max_chars } => {
            &&& name == "read_ecode_file"@
            &&& arg_text(args, "file_path"@) == Some(file_path@)
            &&& max_chars == arg_integer(args, "max_chars"@)
        },
        ToolRequest::WriteEcodeFile { file_path, content, encoding } => {
            &&& name == "write_ecode_file"@
            &&& arg_text(args, "file_path"@) == Some(file_path@)
            &&& arg_text(args, "content"@) == Some(content@)
            &&& encoding@ == "gbk"@
        },
        ToolRequest::ScanEnv { root_path } => name == "scan_env"@ && opt_view(root_path)
            == arg_text(args, "root_path"@),
    }
}

fn missing_message(arg: &str) -> (out: String)
    ensures
        out@ == "参数缺失: "@ + arg@,
{
    let mut v: Vec<char> = Vec::new();
    append_str(&mut v, "参数缺失: ");
    append_str(&mut v, arg);
    string_of(v.as_slice())
}

/// Reads a call of tool `name` into a request. It is refused, with the
/// message that `tool_refusal` gives, for a tool that is not in the
/// catalogue or a call without a required argument.
pub fn plan_tool_call(name: &str, args: &Vec<(String, ArgValue)>) -> (res: Result<
    ToolRequest,
    String,
>)
    ensures
        match res {
            Ok(r) => tool_refusal(name@, args@) is None && request_for(name@, args@, r),
            Err(e) => tool_refusal(name@, args@) == Some(e@),
        },
{
    proof {
        reveal_strlit("upload_efile");
        reveal_strlit("inspect_env");
        reveal_strlit("setup_env");
        reveal_strlit("parse_efile");
        reveal_strlit("export_ecode");
        reveal_strlit("generate_efile");
        reveal_strlit("patch_file");
        reveal_strlit("compile_efile");
        reveal_strlit("search_jingyi_module");
        reveal_strlit("analyze_project");
        reveal_strlit("read_ecode_file");
        reveal_strlit("write_ecode_file");
        reveal_strlit("scan_env");
        assert("export_ecode"@[0] != "upload_efile"@[0]);
        assert("parse_efile"@[0] != "inspect_env"@[0]);
        assert("read_ecode_file"@[0] != "analyze_project"@[0]);
        assert forall|i: int| 0 <= i < 13 implies tool_names().contains(
            #[trigger] tool_names()[i],
        ) by {}
    }
    let n = chars_of(name);
    let ns = n.as_slice();
    if eq_str(ns, "upload_efile") {
        let content = match either_text_arg(args, "content_base64", "base64") {
            Some(c) => c,
            None => {
                return Err(missing_message("content_base64"));
            },
        };
        let file_name = match either_text_arg(args, "file_name", "filename") {
            Some(f) => f,
            None => "upload.e".to_owned(),
        };
        assert(tool_refusal(name@, args@) is None);
        Ok(ToolRequest::UploadEfile { file_name, content_base64: content })
    } else if eq_str(ns, "inspect_env") {
        assert(tool_refusal(name@, args@) is None);
        Ok(ToolRequest::InspectEnv)
    } else if eq_str(ns, "setup_env") {
        assert(tool_names()[2] == name@);
        assert(tool_names().contains(name@));
        assert(required_args(name@).len() == 0);
        assert(tool_refusal(name@, args@) is None);
        Ok(ToolRequest::SetupEnv)
    } else if eq_str(ns, "parse_efile") {
        match text_arg(args, "file_path") {
            Some(file_path) => {
                assert(tool_refusal(name@, args@) is None);
                Ok(ToolRequest::ParseEfile { file_path })
            },
            None => Err(missing_message("file_path")),
        }
    } else if eq_str(ns, "export_ecode") {
        match text_arg(args, "source_path") {
            Some(source_path) => Ok(
                ToolRequest::ExportEcode { source_path, output_dir: text_arg(args, "output_dir") },
            ),
            None => Err(missing_message("source_path")),
        }
    } else if eq_str(ns, "generate_efile") {
        match text_arg(args, "ecode_dir") {
            Some(ecode_dir) => {
                let output_path = match text_arg(args, "output_path") {
                    Some(p) => p,
                    None => String::new(),
                };
                assert(tool_refusal(name@, args@) is None);
                Ok(ToolRequest::GenerateEfile { ecode_dir, output_path })
            },
            None => Err(missing_message("ecode_dir")),
        }
    } else if eq_str(ns, "patch_file") {
        let file_path = match text_arg(args, "file_path") {
            Some(f) => f,
            None => {
                return Err(missing_message("file_path"));
            },
        };
        match text_arg(args, "patch") {
            Some(patch) => {
                assert(tool_refusal(name@, args@) is None);
                Ok(ToolRequest::PatchFile { file_path, patch })
            },
            None => Err(missing_message("patch")),
        }
    } else if eq_str(ns, "compile_efile") {
        match text_arg(args, "source_path") {
            Some(source_path) => Ok(
                ToolRequest::CompileEfile {
                    source_path,
                    output_path: text_arg(args, "output_path"),
                    static_link: bool_arg(args, "static_link"),
                    module_paths: list_arg(args, "module_paths"),
                },
            ),
            None => Err(missing_message("source_path")),
        }
    } else if eq_str(ns, "search_jingyi_module") {
        match text_arg(args, "query") {
            Some(query) => Ok(
                ToolRequest::SearchJingyi { query, limit: integer_arg(args, "limit") },
            ),
            None => Err(missing_message("query")),
        }
    } else if eq_str(ns, "analyze_project") {
        match text_arg(args, "ecode_dir") {
            Some(ecode_dir) => Ok(ToolRequest::AnalyzeProject { ecode_dir }),
            None => Err(missing_message("ecode_dir")),
        }
    } else if eq_str(ns, "read_ecode_file") {
        match text_arg(args, "file_path") {
            Some(file_path) => Ok(
                ToolRequest::ReadEcodeFile { file_path, max_chars: integer_arg(args, "max_chars") },
            ),
            None => Err(missing_message("file_path")),
        }
    } else if eq_str(ns, "write_ecode_file") {
        let file_path = match text_arg(args, "file_path") {
            Some(f) => f,
            None => {
                return Err(missing_message("file_path"));
            },
        };
        match text_arg(args, "content") {
            Some(content) => { assert(tool_refusal(name@, args@) is None); Ok(
                ToolRequest::WriteEcodeFile { file_path, content, encoding: "gbk".to_owned() },
            ) },
            None => Err(missing_message("content")),
        }
    } else if eq_str(ns, "scan_env") {
        assert(tool_refusal(name@, args@) is None);
        Ok(ToolRequest::ScanEnv { root_path: text_arg(args, "root_path") })
    } else {
        proof {
            assert(!tool_names().contains(name@)) by {
                if tool_names().contains(name@) {
                    let i = choose|i: int| 0 <= i < 13 && tool_names()[i] == name@;
                    assert(0 <= i < 13);
                }
            }
        }
        let mut v: Vec<char> = Vec::new();
        append_str(&mut v, "未支持的 MCP Tool: ");
        append_str(&mut v, name);
        Err(string_of(v.as_slice()))
    }
}

/// The file name and Base64 content of an upload sent as JSON: the name
/// from `file_name` or `filename` (`upload.e` without one), the content
/// from `content_base64` or `base64`, which it cannot do without.
pub fn json_upload_fields(fields: &Vec<(String, ArgValue)>) -> (res: Result<(String, String), String>)
    ensures
        match res {
            Ok((n, c)) => {
                &&& text_of(either_arg(fields@, "content_base64"@, "base64"@)) == Some(c@)
                &&& n@ == (match text_of(either_arg(fields@, "file_name"@, "filename"@)) {
                    Some(v) => v,
                    None => "upload.e"@,
                })
            },
            Err(e) => text_of(either_arg(fields@, "content_base64"@, "base64"@)) is None && e@
                == "缺少 content_base64"@,
        },
{
    let content = match either_text_arg(fields, "content_base64", "base64") {
        Some(c) => c,
        None => {
            return Err("缺少 content_base64".to_owned());
        },
    };
    let name = match either_text_arg(fields, "file_name", "filename") {
        Some(n) => n,
        None => "upload.e".to_owned(),
    };
    Ok((name, content))
}

// ---------------------------------------------------------------------------
// JSON-RPC methods and the event stream
// ---------------------------------------------------------------------------

/// The JSON-RPC methods that are answered.
#[derive(Debug)]
pub enum McpMethod {
    Initialize,
    ListTools,
    /// `tools/call` of the named tool.
    CallTool(String),
}

/// How a JSON-RPC method is answered: `initialize`, `tools/list`, and
/// `tools/call` with parameters that name a tool; anything else is an
/// error with the message given here.
pub open spec fn method_plan(method: Seq<char>, has_params: bool, tool: Option<Seq<char>>) -> Result<
    Option<Seq<char>>,
    Seq<char>,
> {
    if method == "initialize"@ {
        Ok(None)
    } else if method == "tools/list"@ {
        Ok(None)
    } else if method == "tools/call"@ {
        if !has_params {
            Err("缺少 params 参数"@)
        } else {
            match tool {
                Some(t) => Ok(Some(t)),
                None => Err("缺少 tool 的 name 字段"@),
            }
        }
    } else {
        Err("未知的 JSON-RPC 方法: "@ + method)
    }
}

pub fn plan_mcp_call(method: &str, has_params: bool, tool_name: Option<&str>) -> (res: Result<
    McpMethod,
    String,
>)
    ensures
        match res {
            Ok(McpMethod::Initialize) => method@ == "initialize"@,
            Ok(McpMethod::ListTools) => method@ == "tools/list"@,
            Ok(McpMethod::CallTool(t)) => method_plan(
                method@,
                has_params,
                match tool_name {
                    Some(n) => Some(n@),
                    None => None,
                },
            ) == Ok::<Option<Seq<char>>, Seq<char>>(Some(t@)),
            Err(e) => method_plan(
                method@,
                has_params,
                match tool_name {
                    Some(n) => Some(n@),
                    None => None,
                },
            ) == Err::<Option<Seq<char>>, Seq<char>>(e@),
        },
{
    let m = chars_of(method);
    if eq_str(m.as_slice(), "initialize") {
        Ok(McpMethod::Initialize)
    } else if eq_str(m.as_slice(), "tools/list") {
        Ok(McpMethod::ListTools)
    } else if eq_str(m.as_slice(), "tools/call") {
        if !has_params {
            return Err("缺少 params 参数".to_owned());
        }
        match tool_name {
            Some(t) => Ok(McpMethod::CallTool(t.to_owned())),
            None => Err("缺少 tool 的 name 字段".to_owned()),
        }
    } else {
        let mut v: Vec<char> = Vec::new();
        append_str(&mut v, "未知的 JSON-RPC 方法: ");
        append_str(&mut v, method);
        Err(string_of(v.as_slice()))
    }
}

/// The reply to a dispatched JSON-RPC request: its result, or an error
/// with a code and a message.
#[derive(Debug)]
pub enum RpcReply<T> {
    Result(T),
    Error { code: i32, message: String },
}

/// The JSON-RPC error code for a failed call (internal error).
pub open spec fn internal_error_code() -> int {
    -32603
}

/// The reply to a dispatched request from what the call gave: a result is
/// answered as `result`, a failure as an internal error (`-32603`) whose
/// message is the failure's text.
pub fn rpc_reply<T>(outcome: Result<T, String>) -> (reply: RpcReply<T>)
    ensures
        match outcome {
            Ok(v) => reply == RpcReply::Result(v),
            Err(e) => reply matches RpcReply::Error { code, message } && code
                == internal_error_code() && message@ == e@,
        },
{
    match outcome {
        Ok(v) => RpcReply::Result(v),
        Err(e) => RpcReply::Error { code: -32603, message: e },
    }
}

/// What is done with a message posted for an event stream.
#[derive(Debug)]
pub enum MessageAction {
    /// No `connectionId` in the query: `400`.
    MissingConnectionId,
    /// The body is not a JSON-RPC request: `400`.
    ParseError,
    /// `jsonrpc` is not `2.0`: `400`.
    InvalidVersion,
    /// A request without `id` is a notification: `202` and nothing more.
    Notification,
    /// A request to answer on the stream of this connection: `202` now,
    /// the response later on the stream.
    Dispatch(String),
}

pub fn message_action(path: &str, request: Option<(&str, bool)>) -> (a: MessageAction)
    ensures
        match a {
            MessageAction::MissingConnectionId => query_param(path@, "connectionId"@) is None,
            MessageAction::ParseError => query_param(path@, "connectionId"@) is Some
                && request is None,
            MessageAction::InvalidVersion => {
                &&& query_param(path@, "connectionId"@) is Some
                &&& request matches Some((v, _)) && v@ != "2.0"@
            },
            MessageAction::Notification => {
                &&& query_param(path@, "connectionId"@) is Some
                &&& request matches Some((v, has_id)) && v@ == "2.0"@ && !has_id
            },
            MessageAction::Dispatch(id) => {
                &&& query_param(path@, "connectionId"@) == Some(id@)
                &&& request matches Some((v, has_id)) && v@ == "2.0"@ && has_id
            },
        },
{
    let id = match parse_query_param(path, "connectionId") {
        Some(id) => id,
        None => {
            return MessageAction::MissingConnectionId;
        },
    };
    match request {
        None => MessageAction::ParseError,
        Some((version, has_id)) => {
            let v = chars_of(version);
            if !eq_str(v.as_slice(), "2.0") {
                MessageAction::InvalidVersion
            } else if !has_id {
                MessageAction::Notification
            } else {
                MessageAction::Dispatch(id)
            }
        },
    }
}

/// The path that an event stream announces for posting messages.
pub open spec fn message_path(connection_id: Seq<char>) -> Seq<char> {
    "/message?connectionId="@ + connection_id
}

/// The `endpoint` event that opens an event stream.
pub open spec fn endpoint_event_text(connection_id: Seq<char>) -> Seq<char> {
    "event: endpoint\ndata: "@ + message_path(connection_id) + "\n\n"@
}

pub fn endpoint_event(connection_id: &str) -> (out: String)
    ensures
        out@ == endpoint_event_text(connection_id@),
{
    let mut v: Vec<char> = Vec::new();
    append_str(&mut v, "event: endpoint\ndata: ");
    append_str(&mut v, "/message?connectionId=");
    append_str(&mut v, connection_id);
    append_str(&mut v, "\n\n");
    assert(v@ =~= endpoint_event_text(connection_id@));
    string_of(v.as_slice())
}

/// A message sent on an event stream.
pub fn sse_data(message: &str) -> (out: String)
    ensures
        out@ == "data: "@ + message@ + "\n\n"@,
{
    let mut v: Vec<char> = Vec::new();
    append_str(&mut v, "data: ");
    append_str(&mut v, message);
    append_str(&mut v, "\n\n");
    string_of(v.as_slice())
}

// ---------------------------------------------------------------------------
// The catalogue of tools
// ---------------------------------------------------------------------------

/// The JSON type of a tool parameter.
#[derive(Debug)]
pub enum ParamKind {
    Text,
    Integer,
    Boolean,
    /// An array of strings.
    TextList,
}

/// A parameter of a tool as `tools/list` describes it.
#[derive(Debug)]
pub struct ToolParam {
    pub name: String,
    pub kind: ParamKind,
    pub description: String,
    pub required: bool,
}

/// A tool as `tools/list` describes it.
#[derive(Debug)]
pub struct ToolSpec {
    pub name: String,
    pub description: String,
    pub params: Vec<ToolParam>,
}

/// The interface of a tool: its name, and the name, type and whether it is
/// required of each parameter.
pub open spec fn tool_shape(t: ToolSpec) -> (Seq<char>, Seq<(Seq<char>, ParamKind, bool)>) {
    (t.name@, t.params@.map_values(|p: ToolParam| (p.name@, p.kind, p.required)))
}

/// The tools that `tools/list` announces, in order.
pub open spec fn tool_shapes() -> Seq<(Seq<char>, Seq<(Seq<char>, ParamKind, bool)>)> {
    seq![
        ("upload_efile"@, seq![("file_name"@, ParamKind::Text, true), ("content_base64"@, ParamKind::Text, true)]),
        ("inspect_env"@, seq![]),
        ("setup_env"@, seq![]),
        ("parse_efile"@, seq![("file_path"@, ParamKind::Text, true)]),
        ("export_ecode"@, seq![("source_path"@, ParamKind::Text, true), ("output_dir"@, ParamKind::Text, false)]),
        ("generate_efile"@, seq![("ecode_dir"@, ParamKind::Text, true), ("output_path"@, ParamKind::Text, false)]),
        ("patch_file"@, seq![("file_path"@, ParamKind::Text, true), ("patch"@, ParamKind::Text, true)]),
        ("compile_efile"@, seq![("source_path"@, ParamKind::Text, true), ("output_path"@, ParamKind::Text, false), ("static_link"@, ParamKind::Boolean, false), ("module_paths"@, ParamKind::TextList, false)]),
        ("search_jingyi_module"@, seq![("query"@, ParamKind::Text, true), ("limit"@, ParamKind::Integer, false)]),
        ("analyze_project"@, seq![("ecode_dir"@, ParamKind::Text, true)]),
        ("read_ecode_file"@, seq![("file_path"@, ParamKind::Text, true), ("max_chars"@, ParamKind::Integer, false)]),
        ("write_ecode_file"@, seq![("file_path"@, ParamKind::Text, true), ("content"@, ParamKind::Text, true)]),
        ("scan_env"@, seq![("root_path"@, ParamKind::Text, false)]),
    ]
}

fn param(name: &str, kind: ParamKind, description: &str, required: bool) -> (p: ToolParam)
    ensures
        p.name@ == name@,
        p.kind == kind,
        p.required == required,
{
    ToolParam { name: name.to_owned(), kind, description: description.to_owned(), required }
}

fn tool(name: &str, description: &str, params: Vec<ToolParam>) -> (t: ToolSpec)
    ensures
        t.name@ == name@,
        t.params@ == params@,
{
    ToolSpec { name: name.to_owned(), description: description.to_owned(), params }
}

/// The catalogue of tools that `tools/list` answers with. The descriptions
/// are text for the client and are not stated here.
pub fn mcp_tools() -> (out: Vec<ToolSpec>)
    ensures
        out@.map_values(|t: ToolSpec| tool_shape(t)) == tool_shapes(),
{
    let mut out: Vec<ToolSpec> = Vec::new();
    let ps0: Vec<ToolParam> = vec![
        param("file_name", ParamKind::Text, "上传文件名，必须以 .e 结尾", true),
        param("content_base64", ParamKind::Text, ".e 文件的 Base64 内容", true),
    ];
    assert(ps0@.map_values(|p: ToolParam| (p.name@, p.kind, p.required)) =~= tool_shapes()[0].1);
    out.push(tool("upload_efile", "上传 .e 文件到 MCP 服务端，返回可用于 parse_efile/export_ecode/compile_efile 的服务端本地路径", ps0));
    assert(tool_shape(out@[0]) == tool_shapes()[0]);
    let ps1: Vec<ToolParam> = Vec::new();
    assert(ps1@.map_values(|p: ToolParam| (p.name@, p.kind, p.required)) =~= tool_shapes()[1].1);
    out.push(tool("inspect_env", "检查本地是否配置了易语言命令行编译器与运行环境", ps1));
    assert(tool_shape(out@[1]) == tool_shapes()[1]);
    let ps2: Vec<ToolParam> = Vec::new();
    assert(ps2@.map_values(|p: ToolParam| (p.name@, p.kind, p.required)) =~= tool_shapes()[2].1);
    out.push(tool("setup_env", "一键自动初始化环境。流式下载并解压易语言核心编译组件 e.zip，免除手动下载痛点", ps2));
    assert(tool_shape(out@[2]) == tool_shapes()[2]);
    let ps3: Vec<ToolParam> = vec![
        param("file_path", ParamKind::Text, "本地易语言二进制文件的绝对路径", true),
    ];
    assert(ps3@.map_values(|p: ToolParam| (p.name@, p.kind, p.required)) =~= tool_shapes()[3].1);
    out.push(tool("parse_efile", "解析二进制易语言 .e / .ec 模块文件结构，提取其内公开的子程序、程序集及全局变量索引", ps3));
    assert(tool_shape(out@[3]) == tool_shapes()[3]);
    let ps4: Vec<ToolParam> = vec![
        param("source_path", ParamKind::Text, "本地二进制源文件路径", true),
        param("output_dir", ParamKind::Text, "可选。导出的文本工程目录路径。不传则默认生成在 .eaicoding/ecode 目录下", false),
    ];
    assert(ps4@.map_values(|p: ToolParam| (p.name@, p.kind, p.required)) =~= tool_shapes()[4].1);
    out.push(tool("export_ecode", "将易语言二进制 .e / .ec 文件导出为文本形式的 ecode 工程目录，便于读写与版本比对", ps4));
    assert(tool_shape(out@[4]) == tool_shapes()[4]);
    let ps5: Vec<ToolParam> = vec![
        param("ecode_dir", ParamKind::Text, "本地文本工程目录的绝对路径", true),
        param("output_path", ParamKind::Text, "可选。生成的目标 .e 文件绝对路径。不传则默认生成在 .eaicoding/auto-runs 目录下", false),
    ];
    assert(ps5@.map_values(|p: ToolParam| (p.name@, p.kind, p.required)) =~= tool_shapes()[5].1);
    out.push(tool("generate_efile", "将文本格式的 ecode 目录工程重新反向回编生成二进制的 .e 文件", ps5));
    assert(tool_shape(out@[5]) == tool_shapes()[5]);
    let ps6: Vec<ToolParam> = vec![
        param("file_path", ParamKind::Text, "本地要修补的文件绝对路径", true),
        param("patch", ParamKind::Text, "包含 <<<<<<< SEARCH ... ======= ... >>>>>>> REPLACE 的 Patch 差异块内容", true),
    ];
    assert(ps6@.map_values(|p: ToolParam| (p.name@, p.kind, p.required)) =~= tool_shapes()[6].1);
    out.push(tool("patch_file", "针对文本工程中的源码文件进行局部 Search-Replace 差分修改修补，免除长文件重写开销", ps6));
    assert(tool_shape(out@[6]) == tool_shapes()[6]);
    let ps7: Vec<ToolParam> = vec![
        param("source_path", ParamKind::Text, "本地二进制 .e 文件的绝对路径", true),
        param("output_path", ParamKind::Text, "可选。编译输出的目标 .exe 路径。默认替换后缀为 .exe", false),
        param("static_link", ParamKind::Boolean, "是否使用静态链接。默认 true", false),
        param("module_paths", ParamKind::TextList, "可选。编译所需的依赖外部模块 (.ec) 的本地绝对路径列表", false),
    ];
    assert(ps7@.map_values(|p: ToolParam| (p.name@, p.kind, p.required)) =~= tool_shapes()[7].1);
    out.push(tool("compile_efile", "调用易语言命令行编译器对生成的 .e 文件进行编译验证，返回编译成功状态和 Stdout/Stderr 编译器日志", ps7));
    assert(tool_shape(out@[7]) == tool_shapes()[7]);
    let ps8: Vec<ToolParam> = vec![
        param("query", ParamKind::Text, "搜索意图或特定 API 关键字（如 '多线程POST'）", true),
        param("limit", ParamKind::Integer, "可选。最大返回条数，默认 8", false),
    ];
    assert(ps8@.map_values(|p: ToolParam| (p.name@, p.kind, p.required)) =~= tool_shapes()[8].1);
    out.push(tool("search_jingyi_module", "检索本地精易模块的 API 库。输入功能中文描述，输出匹配的 API 列表、签名和推荐组合路线", ps8));
    assert(tool_shape(out@[8]) == tool_shapes()[8]);
    let ps9: Vec<ToolParam> = vec![
        param("ecode_dir", ParamKind::Text, "本地文本工程目录路径", true),
    ];
    assert(ps9@.map_values(|p: ToolParam| (p.name@, p.kind, p.required)) =~= tool_shapes()[9].1);
    out.push(tool("analyze_project", "扫描易语言文本工程，进行硬编码 URL、不安全明文 HTTP 请求、前端元素选择器、缺少异常处理的网络调用以及重复代码等项目的静态诊断并输出报告", ps9));
    assert(tool_shape(out@[9]) == tool_shapes()[9]);
    let ps10: Vec<ToolParam> = vec![
        param("file_path", ParamKind::Text, "本地要读取的文件绝对路径", true),
        param("max_chars", ParamKind::Integer, "可选。读取的字符最大限制，默认 12000", false),
    ];
    assert(ps10@.map_values(|p: ToolParam| (p.name@, p.kind, p.required)) =~= tool_shapes()[10].1);
    out.push(tool("read_ecode_file", "读取文本工程中指定的文件内容。后台自动处理 GBK 字符集解码，返回正常的 UTF-8 文本内容，防止中文乱码", ps10));
    assert(tool_shape(out@[10]) == tool_shapes()[10]);
    let ps11: Vec<ToolParam> = vec![
        param("file_path", ParamKind::Text, "本地要写入的文件绝对路径", true),
        param("content", ParamKind::Text, "要写入的纯文本 UTF-8 源码内容", true),
    ];
    assert(ps11@.map_values(|p: ToolParam| (p.name@, p.kind, p.required)) =~= tool_shapes()[11].1);
    out.push(tool("write_ecode_file", "将 UTF-8 文本内容安全地写入到工程指定位置。后台自动将其编码转换为 GBK 字符集并写入为 Windows 换行符（CRLF），确保易语言支持库与编译器正常处理", ps11));
    assert(tool_shape(out@[11]) == tool_shapes()[11]);
    let ps12: Vec<ToolParam> = vec![
        param("root_path", ParamKind::Text, "可选。易语言安装根目录", false),
    ];
    assert(ps12@.map_values(|p: ToolParam| (p.name@, p.kind, p.required)) =~= tool_shapes()[12].1);
    out.push(tool("scan_env", "扫描指定路径或默认位置下的完整易语言开发环境（编译器、子目录组件及支持库等）", ps12));
    assert(tool_shape(out@[12]) == tool_shapes()[12]);
    assert(out@.map_values(|t: ToolSpec| tool_shape(t)) =~= tool_shapes());
    out
}

proof fn lemma_tool_name_literals()
    ensures
        "export_ecode"@ != "upload_efile"@,
        "parse_efile"@ != "inspect_env"@,
        "read_ecode_file"@ != "analyze_project"@,
{
    reveal_strlit("upload_efile");
    reveal_strlit("inspect_env");
    reveal_strlit("parse_efile");
    reveal_strlit("export_ecode");
    reveal_strlit("analyze_project");
    reveal_strlit("read_ecode_file");
    assert("export_ecode"@[0] != "upload_efile"@[0]);
    assert("parse_efile"@[0] != "inspect_env"@[0]);
    assert("read_ecode_file"@[0] != "analyze_project"@[0]);
}

/// Every tool that `tools/list` announces is one that calls are accepted
/// for, and a call that gives, as strings, the arguments that the
/// catalogue marks as required is never refused.
pub proof fn law_listed_tools_accept_their_required_arguments(
    i: int,
    args: Seq<(String, ArgValue)>,
)
    requires
        0 <= i < tool_shapes().len(),
        forall|j: int|
            0 <= j < tool_shapes()[i].1.len() && (#[trigger] tool_shapes()[i].1[j]).2 ==> arg_text(
                args,
                tool_shapes()[i].1[j].0,
            ) is Some,
    ensures
        tool_names().contains(tool_shapes()[i].0),
        tool_refusal(tool_shapes()[i].0, args) is None,
{
    reveal_strlit("upload_efile");
    reveal_strlit("inspect_env");
    reveal_strlit("setup_env");
    reveal_strlit("parse_efile");
    reveal_strlit("export_ecode");
    reveal_strlit("generate_efile");
    reveal_strlit("patch_file");
    reveal_strlit("compile_efile");
    reveal_strlit("search_jingyi_module");
    reveal_strlit("analyze_project");
    reveal_strlit("read_ecode_file");
    reveal_strlit("write_ecode_file");
    reveal_strlit("scan_env");
    lemma_tool_name_literals();
    let shape = tool_shapes()[i];
    assert(tool_names()[i] == shape.0);
    if shape.1.len() > 0 {
        let _ = tool_shapes()[i].1[0];
    }
    if shape.1.len() > 1 {
        let _ = tool_shapes()[i].1[1];
    }
    if i == 0 {
        assert(either_arg(args, "content_base64"@, "base64"@) == arg_value(args, "content_base64"@));
    }
}

/// The catalogue and the dispatcher agree on what is missing: a call of a
/// listed tool that lacks, as a string, one argument the catalogue marks as
/// required (for `upload_efile`'s content, under neither of its names;
/// its `file_name` has a default) but gives every other required argument
/// as a string is refused with `参数缺失: ` and that argument's name.
pub proof fn law_missing_required_argument_is_named(i: int, j: int, args: Seq<(String, ArgValue)>)
    requires
        0 <= i < tool_shapes().len(),
        0 <= j < tool_shapes()[i].1.len(),
        tool_shapes()[i].1[j].2,
        tool_shapes()[i].1[j].0 != "file_name"@,
        arg_text(args, tool_shapes()[i].1[j].0) is None,
        tool_shapes()[i].0 == "upload_efile"@ ==> arg_text(args, "base64"@) is None,
        forall|k: int|
            0 <= k < tool_shapes()[i].1.len() && k != j && (#[trigger] tool_shapes()[i].1[k]).2
                ==> arg_text(args, tool_shapes()[i].1[k].0) is Some,
    ensures
        tool_refusal(tool_shapes()[i].0, args) == Some("参数缺失: "@ + tool_shapes()[i].1[j].0),
{
    reveal_strlit("upload_efile");
    reveal_strlit("inspect_env");
    reveal_strlit("setup_env");
    reveal_strlit("parse_efile");
    reveal_strlit("export_ecode");
    reveal_strlit("generate_efile");
    reveal_strlit("patch_file");
    reveal_strlit("compile_efile");
    reveal_strlit("search_jingyi_module");
    reveal_strlit("analyze_project");
    reveal_strlit("read_ecode_file");
    reveal_strlit("write_ecode_file");
    reveal_strlit("scan_env");
    reveal_strlit("file_name");
    reveal_strlit("content_base64");
    lemma_tool_name_literals();
    let shape = tool_shapes()[i];
    assert(tool_names()[i] == shape.0);
    if shape.1.len() > 0 {
        let _ = tool_shapes()[i].1[0];
    }
    if shape.1.len() > 1 {
        let _ = tool_shapes()[i].1[1];
    }
    if i == 0 {
        assert(j == 1);
        assert(text_of(either_arg(args, "content_base64"@, "base64"@)) is None);
    }
}

/// The path that an event stream announces leads messages back to it: the
/// `connectionId` read from that path is the connection's id, for any id
/// without `&` (ids are made of letters, digits and `_`).
pub proof fn law_announced_path_names_the_connection(connection_id: Seq<char>)
    requires
        !connection_id.contains('&'),
    ensures
        query_param(message_path(connection_id), "connectionId"@) == Some(connection_id),
{
    reveal_strlit("/message?connectionId=");
    reveal_strlit("connectionId");
    reveal_strlit("connectionId=");
    let path = message_path(connection_id);
    crate::text::lemma_index_of_char_at(path, '?', 8);
    let query = path.skip(9);
    assert(query =~= "connectionId="@ + connection_id);
    crate::text::lemma_index_of_char_at(query, '&', query.len() as int);
    assert(split_char(query, '&') =~= seq![query]);
    crate::text::lemma_index_of_char_at(query, '=', 12);
    assert(query.take(12) =~= "connectionId"@);
    assert(query.skip(13) =~= connection_id);
}

// ---------------------------------------------------------------------------
// Setting up the runtime
// ---------------------------------------------------------------------------

/// The answer of `setup_env` when the runtime is already there.
pub fn setup_already_done() -> (out: String)
    ensures
        out@ == "环境已配置完毕。易语言运行环境已存在于本地目录。"@,
{
    "环境已配置完毕。易语言运行环境已存在于本地目录。".to_owned()
}

/// The answer of `setup_env` after the download was unpacked into
/// `target_dir`: success when `e.exe` is there now.
pub fn setup_outcome(exe_exists: bool, target_dir: &str) -> (res: Result<String, String>)
    ensures
        res is Ok == exe_exists,
        res matches Ok(m) ==> m@ == "易语言依赖环境一键安装成功！已解压至 "@ + target_dir@,
        res matches Err(e) ==> e@
            == "下载解压已完成，但未在目标位置检测到 e.exe，请检查下载包是否完整。"@,
{
    if exe_exists {
        let mut v: Vec<char> = Vec::new();
        append_str(&mut v, "易语言依赖环境一键安装成功！已解压至 ");
        append_str(&mut v, target_dir);
        Ok(string_of(v.as_slice()))
    } else {
        Err("下载解压已完成，但未在目标位置检测到 e.exe，请检查下载包是否完整。".to_owned())
    }
}

} // verus!
