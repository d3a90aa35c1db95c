//! Static diagnosis of a text project: findings line by line (hard-coded
//! URLs, selectors, network calls, personal data, locks, configuration,
//! databases, processes, script engines), empty components and
//! subprograms, and subprograms whose logic is duplicated.
use vstd::prelude::*;
use vstd::utf8::encode_utf8;
use crate::ecode_parser::{
    ECodeSourceFileSummary, ECodeSubprogramSummary, subprogram_total,
};
use crate::encoding::{to_lowercase, unicode_lowercase};
use crate::text::{
    append_chars, append_decimal, append_str, chars_eq, chars_of, contains, contains_str,
    decimal, has_char, index_of_char, index_of_char_from, is_permutation, is_white_space,
    is_whitespace, join, join_chars, key_lt, lemma_index_of_char, lines, lines_of, sort_order,
    starts_with, starts_with_str, str_views, string_of, sub_chars, trim, trim_chars,
    trim_start, views,
};

verus! {

#[derive(Debug, Clone)]
pub struct AnalysisFinding {
    pub severity: String,
    pub kind: String,
    pub title: String,
    pub path: String,
    pub relative_path: String,
    pub line: usize,
    pub evidence: String,
    pub suggestion: String,
}

#[derive(Debug, Clone)]
pub struct DuplicateLocation {
    pub name: String,
    pub path: String,
    pub relative_path: String,
    pub line: usize,
    pub line_count: usize,
}

#[derive(Debug, Clone)]
pub struct DuplicateGroup {
    pub title: String,
    pub normalized_size: usize,
    pub locations: Vec<DuplicateLocation>,
    pub suggestion: String,
}

#[derive(Debug, Clone)]
pub struct AnalysisMetrics {
    pub source_file_count: usize,
    pub analyzed_file_count: usize,
    pub skipped_module_file_count: usize,
    pub subprogram_count: usize,
    pub hardcoded_url_count: usize,
    pub insecure_http_url_count: usize,
    pub selector_count: usize,
    pub network_call_count: usize,
    pub duplicate_group_count: usize,
    pub empty_component_count: usize,
    pub sensitive_field_count: usize,
}

#[derive(Debug, Clone)]
pub struct ProjectAnalysisResult {
    pub success: bool,
    pub ecode_dir: String,
    pub summary: String,
    pub metrics: AnalysisMetrics,
    pub findings: Vec<AnalysisFinding>,
    pub duplicate_groups: Vec<DuplicateGroup>,
    pub note: String,
}

// ---------------------------------------------------------------------------
// The logic skeleton of a subprogram
// ---------------------------------------------------------------------------

/// What `char::is_numeric` says of a character (Unicode numeric categories).
pub uninterp spec fn unicode_numeric(c: char) -> bool;

/// `char::is_numeric`: the name `unicode_numeric`.
#[verifier::external_body]
fn char_is_numeric(c: char) -> (res: bool)
    ensures
        res == unicode_numeric(c),
{
    c.is_numeric()
}

/// A line without its comment: the part before the first `'`.
pub open spec fn strip_comment(line: Seq<char>) -> Seq<char> {
    line.take(index_of_char(line, '\''))
}

/// The code lines of a body without comment lines and comments, joined
/// without separators.
pub open spec fn code_text(ls: Seq<Seq<char>>) -> Seq<char>
    decreases ls.len(),
{
    if ls.len() == 0 {
        seq![]
    } else {
        let rest = code_text(ls.drop_last());
        let l = ls.last();
        if starts_with(trim(l), seq!['\'']) {
            rest
        } else {
            rest + strip_comment(l)
        }
    }
}

/// Characters left out of the skeleton: whitespace, numerals and quotes.
pub open spec fn is_noise(c: char) -> bool {
    is_white_space(c) || unicode_numeric(c) || c == '“' || c == '”' || c == '"'
}

/// `s` without noise characters.
pub open spec fn without_noise(s: Seq<char>) -> Seq<char>
    decreases s.len(),
{
    if s.len() == 0 {
        seq![]
    } else if is_noise(s.last()) {
        without_noise(s.drop_last())
    } else {
        without_noise(s.drop_last()).push(s.last())
    }
}

/// The logic skeleton of a body, by which duplicates are found: code
/// without comments, whitespace, numerals and quotes.
pub open spec fn skeleton(body: Seq<char>) -> Seq<char> {
    without_noise(code_text(lines(body)))
}

pub fn normalize_subprogram_body(body: &str) -> (out: String)
    ensures
        out@ == skeleton(body@),
{
    let ls = lines_of(chars_of(body).as_slice());
    let mut code: Vec<char> = Vec::new();
    let mut i: usize = 0;
    while i < ls.len()
        invariant
            i <= ls.len(),
            code@ == code_text(views(ls@).take(i as int)),
        decreases ls.len() - i,
    {
        let l = ls[i].as_slice();
        assert(views(ls@).take(i + 1).drop_last() == views(ls@).take(i as int));
        assert(views(ls@).take(i + 1).last() == ls@[i as int]@);
        let t = trim_chars(l);
        let quote = vec!['\''];
        assert(quote@ == seq!['\'']);
        if !crate::text::starts_with_chars(t.as_slice(), quote.as_slice()) {
            let k = index_of_char_from(l, '\'', 0);
            assert(l@.skip(0) == l@);
            let part = sub_chars(l, 0, k);
            assert(part@ == strip_comment(l@));
            append_chars(&mut code, part.as_slice());
        }
        i += 1;
    }
    assert(views(ls@).take(ls.len() as int) == views(ls@));
    let mut out: Vec<char> = Vec::new();
    let mut j: usize = 0;
    while j < code.len()
        invariant
            j <= code.len(),
            out@ == without_noise(code@.take(j as int)),
        decreases code.len() - j,
    {
        let c = code[j];
        assert(code@.take(j + 1).drop_last() == code@.take(j as int));
        if !(is_whitespace(c) || char_is_numeric(c) || c == '“' || c == '”' || c == '"') {
            out.push(c);
        }
        j += 1;
    }
    assert(code@.take(code.len() as int) == code@);
    string_of(out.as_slice())
}

// ---------------------------------------------------------------------------
// Findings
// ---------------------------------------------------------------------------

/// A finding as plain values.
pub struct FindingModel {
    pub severity: Seq<char>,
    pub kind: Seq<char>,
    pub title: Seq<char>,
    pub path: Seq<char>,
    pub relative_path: Seq<char>,
    pub line: nat,
    pub evidence: Seq<char>,
    pub suggestion: Seq<char>,
}

pub open spec fn finding_model(f: AnalysisFinding) -> FindingModel {
    FindingModel {
        severity: f.severity@,
        kind: f.kind@,
        title: f.title@,
        path: f.path@,
        relative_path: f.relative_path@,
        line: f.line as nat,
        evidence: f.evidence@,
        suggestion: f.suggestion@,
    }
}

pub open spec fn finding_models(v: Seq<AnalysisFinding>) -> Seq<FindingModel> {
    v.map_values(|f: AnalysisFinding| finding_model(f))
}

pub open spec fn finding(
    severity: Seq<char>,
    kind: Seq<char>,
    title: Seq<char>,
    path: Seq<char>,
    rel: Seq<char>,
    line: nat,
    evidence: Seq<char>,
    suggestion: Seq<char>,
) -> FindingModel {
    FindingModel {
        severity,
        kind,
        title,
        path,
        relative_path: rel,
        line,
        evidence,
        suggestion,
    }
}

pub open spec fn url_suggestion() -> Seq<char> {
    "建议提取远程配置或常量集中管理，并升级为强制 HTTPS 请求。"@
}

pub open spec fn selector_suggestion() -> Seq<char> {
    "避免将 HTML 元素选择器写死，防范网页 DOM 结构调整带来的逻辑失效。"@
}

pub open spec fn network_suggestion() -> Seq<char> {
    "网络请求应增加异常判断、超时和重试机制，对结果判断是否为空。"@
}

pub open spec fn sensitive_suggestion() -> Seq<char> {
    "传输和存储个人敏感数据时应进行掩码或加密，本地日志严禁明文记录密码和完整身份证。"@
}

pub open spec fn lock_suggestion() -> Seq<char> {
    "检测到线程同步临界区锁。迁移到 Python/Go/Rust 时需要对应映射为 Mutex/Lock 等同步原语。"@
}

pub open spec fn config_suggestion() -> Seq<char> {
    "使用本地配置文件（通常为 INI 格式）。在新语言中，建议改用标准的 TOML/JSON/YAML 进行配置持久化。"@
}

pub open spec fn database_suggestion() -> Seq<char> {
    "程序操作了本地 SQL/SQLite 数据库。迁移时，应审计表结构并使用目标语言对应的 DB 支持库或 ORM 进行对接。"@
}

pub open spec fn process_suggestion() -> Seq<char> {
    "程序调用了 Windows 系统命令或启动外部程序，带来平台锁定与命令注入隐患。迁移时应尽量改用原生库函数，或进行跨平台子进程包装。"@
}

pub open spec fn script_suggestion() -> Seq<char> {
    "检测到外部 JS/脚本引擎执行。多用于平台签名校验或解密，迁移时可考虑提取对应的 JS 文件并使用 Python quickjs 或 Go otto 等脚本引擎绑定执行。"@
}

pub open spec fn when(b: bool, f: FindingModel) -> Seq<FindingModel> {
    if b {
        seq![f]
    } else {
        seq![]
    }
}

/// The findings of one line (numbered `no` from 1), in this order: a
/// hard-coded URL (a risk when plain `http://`), a hard-coded selector, a
/// network call, personal data, a lock, configuration access, database
/// access, a process launch, a script engine. Cases of ASCII and other
/// letters are ignored where the lowercased line is searched.
pub open spec fn url_findings(path: Seq<char>, rel: Seq<char>, no: nat, line: Seq<char>) -> Seq<FindingModel> {
    let lower = unicode_lowercase(line);
    let ev = trim(line);
    let plain_http = contains(lower, "http://"@);
    let url = plain_http || contains(lower, "https://"@);
    when(
        url,
        finding(
            if plain_http {
                "risk"@
            } else {
                "warning"@
            },
            "hardcoded_url"@,
            if plain_http {
                "明文 HTTP 地址硬编码"@
            } else {
                "URL 地址硬编码"@
            },
            path,
            rel,
            no,
            ev,
            url_suggestion(),
        ),
    )
}

pub open spec fn selector_findings(path: Seq<char>, rel: Seq<char>, no: nat, line: Seq<char>) -> Seq<FindingModel> {
    let lower = unicode_lowercase(line);
    let ev = trim(line);
    when(
        contains(lower, "\"#"@) || contains(lower, "“#"@),
        finding(
            "warning"@,
            "hardcoded_selector"@,
            "前端页面选择器硬编码"@,
            path,
            rel,
            no,
            ev,
            selector_suggestion(),
        ),
    )
}

pub open spec fn network_findings(path: Seq<char>, rel: Seq<char>, no: nat, line: Seq<char>) -> Seq<FindingModel> {
    let ev = trim(line);
    when(
        contains(line, "网页_访问"@) || contains(line, "网页_访问_对象"@) || contains(line, "网络_"@),
        finding(
            "warning"@,
            "network_call"@,
            "网络调用隐患"@,
            path,
            rel,
            no,
            ev,
            network_suggestion(),
        ),
    )
}

pub open spec fn sensitive_findings(path: Seq<char>, rel: Seq<char>, no: nat, line: Seq<char>) -> Seq<FindingModel> {
    let lower = unicode_lowercase(line);
    let ev = trim(line);
    when(
        contains(lower, "identitynumber"@) || contains(lower, "mobile"@) || contains(
            line,
            "身份证"@,
        ) || contains(line, "手机号"@) || contains(line, "密码"@) || contains(line, "姓名"@),
        finding(
            "risk"@,
            "sensitive_field"@,
            "个人敏感隐私字段披露"@,
            path,
            rel,
            no,
            ev,
            sensitive_suggestion(),
        ),
    )
}

pub open spec fn lock_findings(path: Seq<char>, rel: Seq<char>, no: nat, line: Seq<char>) -> Seq<FindingModel> {
    let ev = trim(line);
    when(
        contains(line, "创建进入许可证"@) || contains(line, "进入许可"@) || contains(line, "退出许可"@),
        finding(
            "info"@,
            "concurrency_lock"@,
            "线程同步锁/许可证"@,
            path,
            rel,
            no,
            ev,
            lock_suggestion(),
        ),
    )
}

pub open spec fn config_findings(path: Seq<char>, rel: Seq<char>, no: nat, line: Seq<char>) -> Seq<FindingModel> {
    let ev = trim(line);
    when(
        contains(line, "读配置项"@) || contains(line, "写配置项"@),
        finding(
            "info"@,
            "config_access"@,
            "本地配置读写操作"@,
            path,
            rel,
            no,
            ev,
            config_suggestion(),
        ),
    )
}

pub open spec fn database_findings(path: Seq<char>, rel: Seq<char>, no: nat, line: Seq<char>) -> Seq<FindingModel> {
    let lower = unicode_lowercase(line);
    let ev = trim(line);
    when(
        contains(line, "打开数据库"@) || contains(line, "执行SQL"@) || contains(lower, "sqlite"@),
        finding(
            "info"@,
            "database_access"@,
            "本地数据库操作"@,
            path,
            rel,
            no,
            ev,
            database_suggestion(),
        ),
    )
}

pub open spec fn process_findings(path: Seq<char>, rel: Seq<char>, no: nat, line: Seq<char>) -> Seq<FindingModel> {
    let ev = trim(line);
    when(
        contains(line, "运行 ("@) || contains(line, "执行 ("@) || contains(line, "ShellExecute"@),
        finding(
            "warning"@,
            "subprocess_exec"@,
            "调用外部子进程/系统命令"@,
            path,
            rel,
            no,
            ev,
            process_suggestion(),
        ),
    )
}

pub open spec fn script_findings(path: Seq<char>, rel: Seq<char>, no: nat, line: Seq<char>) -> Seq<FindingModel> {
    let lower = unicode_lowercase(line);
    let ev = trim(line);
    when(
        contains(line, "类_脚本组件"@) || contains(line, "类_V8"@) || contains(lower, "v8.运行"@),
        finding(
            "info"@,
            "embedded_script"@,
            "调用外部 JS / 脚本引擎"@,
            path,
            rel,
            no,
            ev,
            script_suggestion(),
        ),
    )
}

pub open spec fn line_findings(path: Seq<char>, rel: Seq<char>, no: nat, line: Seq<char>) -> Seq<
    FindingModel,
> {
    url_findings(path, rel, no, line) + selector_findings(path, rel, no, line) + network_findings(
        path,
        rel,
        no,
        line,
    ) + sensitive_findings(path, rel, no, line) + lock_findings(path, rel, no, line)
        + config_findings(path, rel, no, line) + database_findings(path, rel, no, line)
        + process_findings(path, rel, no, line) + script_findings(path, rel, no, line)
}

fn make_finding(
    severity: &str,
    kind: &str,
    title: &str,
    path: &String,
    rel: &String,
    line: usize,
    evidence: String,
    suggestion: &str,
) -> (out: AnalysisFinding)
    ensures
        finding_model(out) == finding(
            severity@,
            kind@,
            title@,
            path@,
            rel@,
            line as nat,
            evidence@,
            suggestion@,
        ),
{
    AnalysisFinding {
        severity: severity.to_owned(),
        kind: kind.to_owned(),
        title: title.to_owned(),
        path: path.clone(),
        relative_path: rel.clone(),
        line,
        evidence,
        suggestion: suggestion.to_owned(),
    }
}

fn push_when(out: &mut Vec<AnalysisFinding>, b: bool, f: AnalysisFinding)
    ensures
        finding_models(final(out)@) == finding_models(old(out)@) + when(b, finding_model(f)),
{
    let ghost before = out@;
    if b {
        out.push(f);
        assert(finding_models(out@) =~= finding_models(before) + seq![finding_model(f)]);
    } else {
        assert(finding_models(before) + Seq::<FindingModel>::empty() =~= finding_models(before));
    }
}

fn push_url(
    out: &mut Vec<AnalysisFinding>,
    path: &String,
    rel: &String,
    no: usize,
    line: &[char],
    lw: &[char],
    ev: &Vec<char>,
)
    requires
        lw@ == unicode_lowercase(line@),
        ev@ == trim(line@),
    ensures
        finding_models(final(out)@) == finding_models(old(out)@) + url_findings(
            path@,
            rel@,
            no as nat,
            line@,
        ),
{
    let plain_http = contains_str(lw, "http://");
    let url = plain_http || contains_str(lw, "https://");
    push_when(
        out,
        url,
        make_finding(
            if plain_http {
                "risk"
            } else {
                "warning"
            },
            "hardcoded_url",
            if plain_http {
                "明文 HTTP 地址硬编码"
            } else {
                "URL 地址硬编码"
            },
            path,
            rel,
            no,
            string_of(ev.as_slice()),
            "建议提取远程配置或常量集中管理，并升级为强制 HTTPS 请求。",
        ),
    );
}

fn push_selector(
    out: &mut Vec<AnalysisFinding>,
    path: &String,
    rel: &String,
    no: usize,
    line: &[char],
    lw: &[char],
    ev: &Vec<char>,
)
    requires
        lw@ == unicode_lowercase(line@),
        ev@ == trim(line@),
    ensures
        finding_models(final(out)@) == finding_models(old(out)@) + selector_findings(
            path@,
            rel@,
            no as nat,
            line@,
        ),
{
    push_when(
        out,
        contains_str(lw, "\"#") || contains_str(lw, "“#"),
        make_finding(
            "warning",
            "hardcoded_selector",
            "前端页面选择器硬编码",
            path,
            rel,
            no,
            string_of(ev.as_slice()),
            "避免将 HTML 元素选择器写死，防范网页 DOM 结构调整带来的逻辑失效。",
        ),
    );
}

fn push_network(
    out: &mut Vec<AnalysisFinding>,
    path: &String,
    rel: &String,
    no: usize,
    line: &[char],
    lw: &[char],
    ev: &Vec<char>,
)
    requires
        lw@ == unicode_lowercase(line@),
        ev@ == trim(line@),
    ensures
        finding_models(final(out)@) == finding_models(old(out)@) + network_findings(
            path@,
            rel@,
            no as nat,
            line@,
        ),
{
    push_when(
        out,
        contains_str(line, "网页_访问") || contains_str(line, "网页_访问_对象") || contains_str(
            line,
            "网络_",
        ),
        make_finding(
            "warning",
            "network_call",
            "网络调用隐患",
            path,
            rel,
            no,
            string_of(ev.as_slice()),
            "网络请求应增加异常判断、超时和重试机制，对结果判断是否为空。",
        ),
    );
}

fn push_sensitive(
    out: &mut Vec<AnalysisFinding>,
    path: &String,
    rel: &String,
    no: usize,
    line: &[char],
    lw: &[char],
    ev: &Vec<char>,
)
    requires
        lw@ == unicode_lowercase(line@),
        ev@ == trim(line@),
    ensures
        finding_models(final(out)@) == finding_models(old(out)@) + sensitive_findings(
            path@,
            rel@,
            no as nat,
            line@,
        ),
{
    push_when(
        out,
        contains_str(lw, "identitynumber") || contains_str(lw, "mobile") || contains_str(
            line,
            "身份证",
        ) || contains_str(line, "手机号") || contains_str(line, "密码") || contains_str(
            line,
            "姓名",
        ),
        make_finding(
            "risk",
            "sensitive_field",
            "个人敏感隐私字段披露",
            path,
            rel,
            no,
            string_of(ev.as_slice()),
            "传输和存储个人敏感数据时应进行掩码或加密，本地日志严禁明文记录密码和完整身份证。",
        ),
    );
}

fn push_lock(
    out: &mut Vec<AnalysisFinding>,
    path: &String,
    rel: &String,
    no: usize,
    line: &[char],
    lw: &[char],
    ev: &Vec<char>,
)
    requires
        lw@ == unicode_lowercase(line@),
        ev@ == trim(line@),
    ensures
        finding_models(final(out)@) == finding_models(old(out)@) + lock_findings(
            path@,
            rel@,
            no as nat,
            line@,
        ),
{
    push_when(
        out,
        contains_str(line, "创建进入许可证") || contains_str(line, "进入许可") || contains_str(
            line,
            "退出许可",
        ),
        make_finding(
            "info",
            "concurrency_lock",
            "线程同步锁/许可证",
            path,
            rel,
            no,
            string_of(ev.as_slice()),
            "检测到线程同步临界区锁。迁移到 Python/Go/Rust 时需要对应映射为 Mutex/Lock 等同步原语。",
        ),
    );
}

fn push_config(
    out: &mut Vec<AnalysisFinding>,
    path: &String,
    rel: &String,
    no: usize,
    line: &[char],
    lw: &[char],
    ev: &Vec<char>,
)
    requires
        lw@ == unicode_lowercase(line@),
        ev@ == trim(line@),
    ensures
        finding_models(final(out)@) == finding_models(old(out)@) + config_findings(
            path@,
            rel@,
            no as nat,
            line@,
        ),
{
    push_when(
        out,
        contains_str(line, "读配置项") || contains_str(line, "写配置项"),
        make_finding(
            "info",
            "config_access",
            "本地配置读写操作",
            path,
            rel,
            no,
            string_of(ev.as_slice()),
            "使用本地配置文件（通常为 INI 格式）。在新语言中，建议改用标准的 TOML/JSON/YAML 进行配置持久化。",
        ),
    );
}

fn push_database(
    out: &mut Vec<AnalysisFinding>,
    path: &String,
    rel: &String,
    no: usize,
    line: &[char],
    lw: &[char],
    ev: &Vec<char>,
)
    requires
        lw@ == unicode_lowercase(line@),
        ev@ == trim(line@),
    ensures
        finding_models(final(out)@) == finding_models(old(out)@) + database_findings(
            path@,
            rel@,
            no as nat,
            line@,
        ),
{
    push_when(
        out,
        contains_str(line, "打开数据库") || contains_str(line, "执行SQL") || contains_str(
            lw,
            "sqlite",
        ),
        make_finding(
            "info",
            "database_access",
            "本地数据库操作",
            path,
            rel,
            no,
            string_of(ev.as_slice()),
            "程序操作了本地 SQL/SQLite 数据库。迁移时，应审计表结构并使用目标语言对应的 DB 支持库或 ORM 进行对接。",
        ),
    );
}

fn push_process(
    out: &mut Vec<AnalysisFinding>,
    path: &String,
    rel: &String,
    no: usize,
    line: &[char],
    lw: &[char],
    ev: &Vec<char>,
)
    requires
        lw@ == unicode_lowercase(line@),
        ev@ == trim(line@),
    ensures
        finding_models(final(out)@) == finding_models(old(out)@) + process_findings(
            path@,
            rel@,
            no as nat,
            line@,
        ),
{
    push_when(
        out,
        contains_str(line, "运行 (") || contains_str(line, "执行 (") || contains_str(
            line,
            "ShellExecute",
        ),
        make_finding(
            "warning",
            "subprocess_exec",
            "调用外部子进程/系统命令",
            path,
            rel,
            no,
            string_of(ev.as_slice()),
            "程序调用了 Windows 系统命令或启动外部程序，带来平台锁定与命令注入隐患。迁移时应尽量改用原生库函数，或进行跨平台子进程包装。",
        ),
    );
}

fn push_script(
    out: &mut Vec<AnalysisFinding>,
    path: &String,
    rel: &String,
    no: usize,
    line: &[char],
    lw: &[char],
    ev: &Vec<char>,
)
    requires
        lw@ == unicode_lowercase(line@),
        ev@ == trim(line@),
    ensures
        finding_models(final(out)@) == finding_models(old(out)@) + script_findings(
            path@,
            rel@,
            no as nat,
            line@,
        ),
{
    push_when(
        out,
        contains_str(line, "类_脚本组件") || contains_str(line, "类_V8") || contains_str(
            lw,
            "v8.运行",
        ),
        make_finding(
            "info",
            "embedded_script",
            "调用外部 JS / 脚本引擎",
            path,
            rel,
            no,
            string_of(ev.as_slice()),
            "检测到外部 JS/脚本引擎执行。多用于平台签名校验或解密，迁移时可考虑提取对应的 JS 文件并使用 Python quickjs 或 Go otto 等脚本引擎绑定执行。",
        ),
    );
}

/// Adds the findings of one line.
#[verifier::spinoff_prover]
#[verifier::rlimit(40)]
fn scan_line(
    out: &mut Vec<AnalysisFinding>,
    path: &String,
    rel: &String,
    no: usize,
    line: &[char],
)
    ensures
        finding_models(final(out)@) == finding_models(old(out)@) + line_findings(
            path@,
            rel@,
            no as nat,
            line@,
        ),
{
    let line_str = string_of(line);
    let lower_s = to_lowercase(line_str.as_str());
    let lower = chars_of(lower_s.as_str());
    let lw = lower.as_slice();
    let ev = trim_chars(line);
    let ghost s0 = finding_models(out@);
    let ghost (p, r, n, l) = (path@, rel@, no as nat, line@);
    push_url(out, path, rel, no, line, lw, &ev);
    push_selector(out, path, rel, no, line, lw, &ev);
    push_network(out, path, rel, no, line, lw, &ev);
    push_sensitive(out, path, rel, no, line, lw, &ev);
    push_lock(out, path, rel, no, line, lw, &ev);
    push_config(out, path, rel, no, line, lw, &ev);
    push_database(out, path, rel, no, line, lw, &ev);
    push_process(out, path, rel, no, line, lw, &ev);
    push_script(out, path, rel, no, line, lw, &ev);
    assert(finding_models(out@) =~= s0 + line_findings(p, r, n, l));
}


// ---------------------------------------------------------------------------
// One source file
// ---------------------------------------------------------------------------

/// A subprogram body kept for duplicate detection.
#[derive(Debug, Clone)]
pub struct DuplicateBody {
    pub normalized: String,
    pub location: DuplicateLocation,
    pub body: String,
}

/// What the scan of one file gives.
#[derive(Debug, Clone)]
pub struct FileScan {
    pub findings: Vec<AnalysisFinding>,
    pub bodies: Vec<DuplicateBody>,
}

pub open spec fn empty_component_suggestion() -> Seq<char> {
    "如果不再使用，可以删除该类模块以精简工程。"@
}

pub open spec fn empty_subprogram_suggestion() -> Seq<char> {
    "确认是否为事件占位；不需要时可清理。"@
}

/// A class module or window assembly without subprograms.
pub open spec fn component_findings(f: ECodeSourceFileSummary) -> Seq<FindingModel> {
    when(
        (f.kind@ == "类模块"@ || f.kind@ == "窗口程序集"@) && f.subprograms@.len() == 0,
        finding(
            "info"@,
            "empty_component"@,
            "空壳组件"@,
            f.path@,
            f.relative_path@,
            1,
            f.kind@ + " "@ + (match f.assembly {
                Some(a) => a@,
                None => seq![],
            }) + " 没有定义任何子程序"@,
            empty_component_suggestion(),
        ),
    )
}

/// Subprograms of at most three lines that call nothing and have no
/// locals, among the first `n`.
pub open spec fn empty_subprogram_findings(f: ECodeSourceFileSummary, n: int) -> Seq<FindingModel>
    decreases n,
{
    if n <= 0 || n > f.subprograms@.len() {
        seq![]
    } else {
        let s = f.subprograms@[n - 1];
        empty_subprogram_findings(f, n - 1) + when(
            s.line_count <= 3 && s.calls@.len() == 0 && s.locals@.len() == 0,
            finding(
                "info"@,
                "empty_subprogram"@,
                "空子程序"@,
                f.path@,
                f.relative_path@,
                s.line as nat,
                s.signature@,
                empty_subprogram_suggestion(),
            ),
        )
    }
}

/// The findings of the first `n` lines.
pub open spec fn lines_findings(path: Seq<char>, rel: Seq<char>, ls: Seq<Seq<char>>, n: int) -> Seq<
    FindingModel,
>
    decreases n,
{
    if n <= 0 || n > ls.len() {
        seq![]
    } else {
        lines_findings(path, rel, ls, n - 1) + line_findings(path, rel, n as nat, ls[n - 1])
    }
}

/// All findings of a file: the empty component, the empty subprograms,
/// then those of each line.
pub open spec fn file_findings(f: ECodeSourceFileSummary, content: Seq<char>) -> Seq<FindingModel> {
    let ls = lines(content);
    component_findings(f) + empty_subprogram_findings(f, f.subprograms@.len() as int)
        + lines_findings(f.path@, f.relative_path@, ls, ls.len() as int)
}

/// A duplicate candidate as plain values.
pub struct BodyModel {
    pub normalized: Seq<char>,
    pub name: Seq<char>,
    pub path: Seq<char>,
    pub relative_path: Seq<char>,
    pub line: nat,
    pub line_count: nat,
    pub body: Seq<char>,
}

pub open spec fn body_model(b: DuplicateBody) -> BodyModel {
    BodyModel {
        normalized: b.normalized@,
        name: b.location.name@,
        path: b.location.path@,
        relative_path: b.location.relative_path@,
        line: b.location.line as nat,
        line_count: b.location.line_count as nat,
        body: b.body@,
    }
}

pub open spec fn body_models(v: Seq<DuplicateBody>) -> Seq<BodyModel> {
    v.map_values(|b: DuplicateBody| body_model(b))
}

/// The source lines of a subprogram: from its line for `line_count` lines,
/// within the file.
pub open spec fn body_lines(ls: Seq<Seq<char>>, line: nat, line_count: nat) -> Seq<Seq<char>> {
    let start = if line >= 1 {
        line - 1
    } else {
        0
    };
    let end = if start + line_count < ls.len() {
        start + line_count
    } else {
        ls.len() as int
    };
    ls.subrange(start, end)
}

/// Subprograms of at least three lines whose skeleton has at least 50
/// UTF-8 bytes are duplicate candidates, among the first `n`.
pub open spec fn body_candidates(f: ECodeSourceFileSummary, ls: Seq<Seq<char>>, n: int) -> Seq<
    BodyModel,
>
    decreases n,
{
    if n <= 0 || n > f.subprograms@.len() {
        seq![]
    } else {
        let prev = body_candidates(f, ls, n - 1);
        let s = f.subprograms@[n - 1];
        let start = if s.line >= 1 {
            s.line - 1
        } else {
            0
        };
        if start < ls.len() {
            let body = join(body_lines(ls, s.line as nat, s.line_count as nat), seq!['\n']);
            let norm = skeleton(body);
            if encode_utf8(norm).len() >= 50 && s.line_count >= 3 {
                prev.push(
                    BodyModel {
                        normalized: norm,
                        name: s.name@,
                        path: f.path@,
                        relative_path: f.relative_path@,
                        line: s.line as nat,
                        line_count: s.line_count as nat,
                        body,
                    },
                )
            } else {
                prev
            }
        } else {
            prev
        }
    }
}

/// Scans one source file with its text: the findings of `file_findings`
/// and the duplicate candidates of `body_candidates`.
pub fn scan_source_file(file: &ECodeSourceFileSummary, content: &str) -> (out: FileScan)
    ensures
        finding_models(out.findings@) == file_findings(*file, content@),
        body_models(out.bodies@) == body_candidates(
            *file,
            lines(content@),
            file.subprograms@.len() as int,
        ),
{
    let ls = lines_of(chars_of(content).as_slice());
    let ghost all = views(ls@);
    let mut findings: Vec<AnalysisFinding> = Vec::new();
    let is_component = {
        let k = chars_of(file.kind.as_str());
        crate::text::eq_str(k.as_slice(), "类模块") || crate::text::eq_str(
            k.as_slice(),
            "窗口程序集",
        )
    };
    let mut evidence = chars_of(file.kind.as_str());
    append_str(&mut evidence, " ");
    match &file.assembly {
        Some(a) => append_str(&mut evidence, a.as_str()),
        None => {},
    }
    append_str(&mut evidence, " 没有定义任何子程序");
    push_when(
        &mut findings,
        is_component && file.subprograms.len() == 0,
        make_finding(
            "info",
            "empty_component",
            "空壳组件",
            &file.path,
            &file.relative_path,
            1,
            string_of(evidence.as_slice()),
            "如果不再使用，可以删除该类模块以精简工程。",
        ),
    );
    assert(finding_models(findings@) == component_findings(*file)) by {
        assert(Seq::<FindingModel>::empty() + component_findings(*file) =~= component_findings(
            *file,
        ));
    }
    let mut bodies: Vec<DuplicateBody> = Vec::new();
    let newline = vec!['\n'];
    assert(newline@ == seq!['\n']);
    let mut i: usize = 0;
    while i < file.subprograms.len()
        invariant
            i <= file.subprograms@.len(),
            all == views(ls@),
            newline@ == seq!['\n'],
            finding_models(findings@) == component_findings(*file) + empty_subprogram_findings(
                *file,
                i as int,
            ),
            body_models(bodies@) == body_candidates(*file, all, i as int),
        decreases file.subprograms@.len() - i,
    {
        let s = &file.subprograms[i];
        let ghost before = finding_models(findings@);
        push_when(
            &mut findings,
            s.line_count <= 3 && s.calls.len() == 0 && s.locals.len() == 0,
            make_finding(
                "info",
                "empty_subprogram",
                "空子程序",
                &file.path,
                &file.relative_path,
                s.line,
                s.signature.clone(),
                "确认是否为事件占位；不需要时可清理。",
            ),
        );
        assert(finding_models(findings@) =~= component_findings(*file) + empty_subprogram_findings(
            *file,
            i + 1,
        ));
        let start = s.line.saturating_sub(1);
        if start < ls.len() {
            let end = if s.line_count < ls.len() - start {
                start + s.line_count
            } else {
                ls.len()
            };
            let mut part: Vec<Vec<char>> = Vec::new();
            let mut k = start;
            while k < end
                invariant
                    start <= k <= end <= ls@.len(),
                    views(part@) == views(ls@).subrange(start as int, k as int),
                decreases end - k,
            {
                let ghost pb = part@;
                part.push(ls[k].clone());
                assert(views(part@) =~= views(pb).push(ls@[k as int]@));
                assert(views(ls@).subrange(start as int, k + 1) =~= views(ls@).subrange(
                    start as int,
                    k as int,
                ).push(ls@[k as int]@));
                k += 1;
            }
            assert(views(part@) == body_lines(all, s.line as nat, s.line_count as nat));
            let body = string_of(join_chars(&part, newline.as_slice()).as_slice());
            let norm = normalize_subprogram_body(body.as_str());
            let norm_len = crate::text::utf8_len_clamped(chars_of(norm.as_str()).as_slice());
            if norm_len >= 50 && s.line_count >= 3 {
                let record = DuplicateBody {
                    normalized: norm,
                    location: DuplicateLocation {
                        name: s.name.clone(),
                        path: file.path.clone(),
                        relative_path: file.relative_path.clone(),
                        line: s.line,
                        line_count: s.line_count,
                    },
                    body,
                };
                let ghost bb = bodies@;
                bodies.push(record);
                assert(body_models(bodies@) =~= body_models(bb).push(body_model(record)));
            }
        }
        i += 1;
    }
    let mut j: usize = 0;
    while j < ls.len()
        invariant
            j <= ls@.len(),
            all == views(ls@),
            finding_models(findings@) == component_findings(*file) + empty_subprogram_findings(
                *file,
                file.subprograms@.len() as int,
            ) + lines_findings(file.path@, file.relative_path@, all, j as int),
        decreases ls@.len() - j,
    {
        let ghost before = finding_models(findings@);
        assert(all[j as int] == ls@[j as int]@);
        scan_line(&mut findings, &file.path, &file.relative_path, j + 1, ls[j].as_slice());
        assert(finding_models(findings@) =~= component_findings(*file) + empty_subprogram_findings(
            *file,
            file.subprograms@.len() as int,
        ) + lines_findings(file.path@, file.relative_path@, all, j + 1));
        j += 1;
    }
    FileScan { findings, bodies }
}


// ---------------------------------------------------------------------------
// The whole project
// ---------------------------------------------------------------------------

/// The findings of the first `n` scans, in order.
pub open spec fn all_findings(scans: Seq<FileScan>, n: int) -> Seq<FindingModel>
    decreases n,
{
    if n <= 0 || n > scans.len() {
        seq![]
    } else {
        all_findings(scans, n - 1) + finding_models(scans[n - 1].findings@)
    }
}

/// The duplicate candidates of the first `n` scans, in order.
pub open spec fn all_bodies(scans: Seq<FileScan>, n: int) -> Seq<BodyModel>
    decreases n,
{
    if n <= 0 || n > scans.len() {
        seq![]
    } else {
        all_bodies(scans, n - 1) + body_models(scans[n - 1].bodies@)
    }
}

/// The number of findings of a kind.
pub open spec fn count_kind(fs: Seq<FindingModel>, kind: Seq<char>) -> nat
    decreases fs.len(),
{
    if fs.len() == 0 {
        0
    } else {
        count_kind(fs.drop_last(), kind) + if fs.last().kind == kind {
            1nat
        } else {
            0nat
        }
    }
}

/// The number of hard-coded URLs whose line holds `http://`.
pub open spec fn count_insecure(fs: Seq<FindingModel>) -> nat
    decreases fs.len(),
{
    if fs.len() == 0 {
        0
    } else {
        count_insecure(fs.drop_last()) + if fs.last().kind == "hardcoded_url"@ && contains(
            fs.last().evidence,
            "http://"@,
        ) {
            1nat
        } else {
            0nat
        }
    }
}

/// How findings are ranked: risks, then warnings, then information.
pub open spec fn severity_score(s: Seq<char>) -> nat {
    if s == "risk"@ {
        3
    } else if s == "warning"@ {
        2
    } else if s == "info"@ {
        1
    } else {
        0
    }
}

/// A location of duplicated logic as plain values.
pub struct LocationModel {
    pub name: Seq<char>,
    pub path: Seq<char>,
    pub relative_path: Seq<char>,
    pub line: nat,
    pub line_count: nat,
}

pub open spec fn location_model(l: DuplicateLocation) -> LocationModel {
    LocationModel {
        name: l.name@,
        path: l.path@,
        relative_path: l.relative_path@,
        line: l.line as nat,
        line_count: l.line_count as nat,
    }
}

pub open spec fn body_location(b: BodyModel) -> LocationModel {
    LocationModel {
        name: b.name,
        path: b.path,
        relative_path: b.relative_path,
        line: b.line,
        line_count: b.line_count,
    }
}

/// The distinct skeletons of the first `n` candidates, in order of first
/// appearance.
pub open spec fn first_keys(bs: Seq<BodyModel>, n: int) -> Seq<Seq<char>>
    decreases n,
{
    if n <= 0 || n > bs.len() {
        seq![]
    } else {
        let k = first_keys(bs, n - 1);
        if k.contains(bs[n - 1].normalized) {
            k
        } else {
            k.push(bs[n - 1].normalized)
        }
    }
}

/// The locations, among the first `n` candidates, with skeleton `key`.
pub open spec fn locations_with(bs: Seq<BodyModel>, key: Seq<char>, n: int) -> Seq<LocationModel>
    decreases n,
{
    if n <= 0 || n > bs.len() {
        seq![]
    } else if bs[n - 1].normalized == key {
        locations_with(bs, key, n - 1).push(body_location(bs[n - 1]))
    } else {
        locations_with(bs, key, n - 1)
    }
}

/// A group of duplicated logic as plain values.
pub struct GroupModel {
    pub title: Seq<char>,
    pub normalized_size: nat,
    pub locations: Seq<LocationModel>,
    pub suggestion: Seq<char>,
}

pub open spec fn group_model(g: DuplicateGroup) -> GroupModel {
    GroupModel {
        title: g.title@,
        normalized_size: g.normalized_size as nat,
        locations: g.locations@.map_values(|l: DuplicateLocation| location_model(l)),
        suggestion: g.suggestion@,
    }
}

pub open spec fn clamp_usize(n: nat) -> nat {
    if n > usize::MAX {
        usize::MAX as nat
    } else {
        n
    }
}

pub open spec fn duplicate_suggestion() -> Seq<char> {
    "将此重复片段重构成公共模块或子程序，减少后期维护成本。"@
}

/// The group of the locations sharing a skeleton: titled by their names.
pub open spec fn make_group(key: Seq<char>, locs: Seq<LocationModel>) -> GroupModel {
    GroupModel {
        title: "重复子程序逻辑："@ + join(locs.map_values(|l: LocationModel| l.name), " / "@),
        normalized_size: clamp_usize(encode_utf8(key).len()),
        locations: locs,
        suggestion: duplicate_suggestion(),
    }
}

/// The groups for the first `m` keys: a skeleton shared by two or more
/// candidates makes a group.
pub open spec fn groups_for(bs: Seq<BodyModel>, keys: Seq<Seq<char>>, m: int) -> Seq<GroupModel>
    decreases m,
{
    if m <= 0 || m > keys.len() {
        seq![]
    } else {
        let locs = locations_with(bs, keys[m - 1], bs.len() as int);
        if locs.len() >= 2 {
            groups_for(bs, keys, m - 1).push(make_group(keys[m - 1], locs))
        } else {
            groups_for(bs, keys, m - 1)
        }
    }
}

/// All groups of duplicated logic, in order of first appearance.
pub open spec fn duplicate_groups_of(bs: Seq<BodyModel>) -> Seq<GroupModel> {
    let keys = first_keys(bs, bs.len() as int);
    groups_for(bs, keys, keys.len() as int)
}

/// The summary sentence of an analysis.
pub open spec fn analysis_summary(m: AnalysisMetrics) -> Seq<char> {
    "已分析 "@ + decimal(m.analyzed_file_count as nat) + "/"@ + decimal(m.source_file_count as nat)
        + " 个主工程源码文件：发现 "@ + decimal(m.duplicate_group_count as nat) + " 组重复逻辑、"@
        + decimal(m.hardcoded_url_count as nat) + " 个硬编码 URL（"@ + decimal(
        m.insecure_http_url_count as nat,
    ) + " 个不安全的明文 HTTP 链接）、"@ + decimal(m.selector_count as nat) + " 个选择器和 "@
        + decimal(m.network_call_count as nat) + " 处网络调用，"@ + decimal(
        m.sensitive_field_count as nat,
    ) + " 处涉及个人隐私信息的敏感字段。"@
}

fn copy_finding(f: &AnalysisFinding) -> (out: AnalysisFinding)
    ensures
        out == *f,
{
    AnalysisFinding {
        severity: f.severity.clone(),
        kind: f.kind.clone(),
        title: f.title.clone(),
        path: f.path.clone(),
        relative_path: f.relative_path.clone(),
        line: f.line,
        evidence: f.evidence.clone(),
        suggestion: f.suggestion.clone(),
    }
}

fn copy_location(l: &DuplicateLocation) -> (out: DuplicateLocation)
    ensures
        out == *l,
{
    DuplicateLocation {
        name: l.name.clone(),
        path: l.path.clone(),
        relative_path: l.relative_path.clone(),
        line: l.line,
        line_count: l.line_count,
    }
}

fn copy_group(g: &DuplicateGroup) -> (out: DuplicateGroup)
    ensures
        group_model(out) == group_model(*g),
{
    let mut locations: Vec<DuplicateLocation> = Vec::new();
    let mut i: usize = 0;
    while i < g.locations.len()
        invariant
            i <= g.locations@.len(),
            locations@ == g.locations@.take(i as int),
        decreases g.locations@.len() - i,
    {
        locations.push(copy_location(&g.locations[i]));
        assert(g.locations@.take(i + 1) =~= g.locations@.take(i as int).push(g.locations@[i as int]));
        i += 1;
    }
    assert(g.locations@.take(g.locations@.len() as int) == g.locations@);
    DuplicateGroup {
        title: g.title.clone(),
        normalized_size: g.normalized_size,
        locations,
        suggestion: g.suggestion.clone(),
    }
}

fn severity_score_exec(s: &String) -> (n: usize)
    ensures
        n == severity_score(s@),
{
    let c = chars_of(s.as_str());
    if crate::text::eq_str(c.as_slice(), "risk") {
        3
    } else if crate::text::eq_str(c.as_slice(), "warning") {
        2
    } else if crate::text::eq_str(c.as_slice(), "info") {
        1
    } else {
        0
    }
}

/// The findings ranked by severity (a stable sort), at most `limit` of them.
fn rank_findings(all: &Vec<AnalysisFinding>, limit: usize) -> (out: Vec<AnalysisFinding>)
    ensures
        exists|order: Seq<usize>|
            {
                &&& is_permutation(order, all@.len())
                &&& forall|a: int, b: int|
                    0 <= a < b < order.len() ==> severity_score(all@[order[a] as int].severity@)
                        >= severity_score(all@[order[b] as int].severity@)
                &&& forall|a: int, b: int|
                    0 <= a < b < order.len() && severity_score(all@[order[a] as int].severity@)
                        == severity_score(all@[order[b] as int].severity@) ==> order[a] < order[b]
                &&& out@.len() == (if all@.len() < limit {
                    all@.len()
                } else {
                    limit as nat
                })
                &&& forall|i: int|
                    0 <= i < out@.len() ==> #[trigger] out@[i] == all@[order[i] as int]
            },
{
    let mut ranks: Vec<usize> = Vec::new();
    let mut texts: Vec<Vec<char>> = Vec::new();
    let mut k: usize = 0;
    while k < all.len()
        invariant
            k <= all@.len(),
            ranks@.len() == k,
            texts@.len() == k,
            forall|m: int| 0 <= m < k ==> #[trigger] ranks@[m] == 3 - severity_score(all@[m].severity@),
            forall|m: int| 0 <= m < k ==> #[trigger] texts@[m]@ == Seq::<char>::empty(),
        decreases all@.len() - k,
    {
        ranks.push(3 - severity_score_exec(&all[k].severity));
        texts.push(Vec::new());
        k += 1;
    }
    let order = sort_order(&ranks, &texts);
    let mut out: Vec<AnalysisFinding> = Vec::new();
    let mut i: usize = 0;
    while i < order.len() && i < limit
        invariant
            i <= order@.len(),
            i <= limit,
            is_permutation(order@, all@.len()),
            out@.len() == i,
            forall|m: int| 0 <= m < i ==> #[trigger] out@[m] == all@[order@[m] as int],
        decreases order@.len() - i,
    {
        out.push(copy_finding(&all[order[i]]));
        i += 1;
    }
    proof {
        assert forall|a: int, b: int| 0 <= a < b < order@.len() implies severity_score(
            all@[order@[a] as int].severity@,
        ) >= severity_score(all@[order@[b] as int].severity@) by {
            assert(order@[a] < all@.len() && order@[b] < all@.len());
            assert(!key_lt(
                ranks@[order@[b] as int] as nat,
                texts@[order@[b] as int]@,
                ranks@[order@[a] as int] as nat,
                texts@[order@[a] as int]@,
            ));
            assert(ranks@[order@[a] as int] == 3 - severity_score(all@[order@[a] as int].severity@));
            assert(ranks@[order@[b] as int] == 3 - severity_score(all@[order@[b] as int].severity@));
            assert(texts@[order@[a] as int]@ == Seq::<char>::empty());
            assert(texts@[order@[b] as int]@ == Seq::<char>::empty());
            crate::text::lemma_text_lt_irreflexive(Seq::<char>::empty());
        }
        assert forall|a: int, b: int|
            0 <= a < b < order@.len() && severity_score(all@[order@[a] as int].severity@)
                == severity_score(all@[order@[b] as int].severity@) implies order@[a] < order@[b] by {
            assert(order@[a] < all@.len() && order@[b] < all@.len());
            assert(ranks@[order@[a] as int] == 3 - severity_score(all@[order@[a] as int].severity@));
            assert(ranks@[order@[b] as int] == 3 - severity_score(all@[order@[b] as int].severity@));
            assert(texts@[order@[a] as int]@ == Seq::<char>::empty());
            assert(texts@[order@[b] as int]@ == Seq::<char>::empty());
        }
        assert(order@.len() == all@.len());
        assert(out@.len() == (if all@.len() < limit {
            all@.len()
        } else {
            limit as nat
        }));
    }
    out
}

/// The groups ranked by skeleton size, largest first (a stable sort), at
/// most `limit` of them.
fn rank_groups(all: &Vec<DuplicateGroup>, limit: usize) -> (out: Vec<DuplicateGroup>)
    ensures
        exists|order: Seq<usize>|
            {
                &&& is_permutation(order, all@.len())
                &&& forall|a: int, b: int|
                    0 <= a < b < order.len() ==> all@[order[a] as int].normalized_size
                        >= all@[order[b] as int].normalized_size
                &&& out@.len() == (if all@.len() < limit {
                    all@.len()
                } else {
                    limit as nat
                })
                &&& forall|i: int|
                    0 <= i < out@.len() ==> group_model(#[trigger] out@[i]) == group_model(
                        all@[order[i] as int],
                    )
            },
{
    let mut ranks: Vec<usize> = Vec::new();
    let mut texts: Vec<Vec<char>> = Vec::new();
    let mut k: usize = 0;
    while k < all.len()
        invariant
            k <= all@.len(),
            ranks@.len() == k,
            texts@.len() == k,
            forall|m: int| 0 <= m < k ==> #[trigger] ranks@[m] == usize::MAX - all@[m].normalized_size,
            forall|m: int| 0 <= m < k ==> #[trigger] texts@[m]@ == Seq::<char>::empty(),
        decreases all@.len() - k,
    {
        ranks.push(usize::MAX - all[k].normalized_size);
        texts.push(Vec::new());
        k += 1;
    }
    let order = sort_order(&ranks, &texts);
    let mut out: Vec<DuplicateGroup> = Vec::new();
    let mut i: usize = 0;
    while i < order.len() && i < limit
        invariant
            i <= order@.len(),
            i <= limit,
            is_permutation(order@, all@.len()),
            out@.len() == i,
            forall|m: int| 0 <= m < i ==> group_model(#[trigger] out@[m]) == group_model(
                all@[order@[m] as int],
            ),
        decreases order@.len() - i,
    {
        out.push(copy_group(&all[order[i]]));
        i += 1;
    }
    proof {
        assert forall|a: int, b: int| 0 <= a < b < order@.len() implies all@[order@[a] as int].normalized_size
            >= all@[order@[b] as int].normalized_size by {
            assert(order@[a] < all@.len() && order@[b] < all@.len());
            assert(!key_lt(
                ranks@[order@[b] as int] as nat,
                texts@[order@[b] as int]@,
                ranks@[order@[a] as int] as nat,
                texts@[order@[a] as int]@,
            ));
            assert(ranks@[order@[a] as int] == usize::MAX - all@[order@[a] as int].normalized_size);
            assert(ranks@[order@[b] as int] == usize::MAX - all@[order@[b] as int].normalized_size);
            assert(texts@[order@[a] as int]@ == Seq::<char>::empty());
            assert(texts@[order@[b] as int]@ == Seq::<char>::empty());
            crate::text::lemma_text_lt_irreflexive(Seq::<char>::empty());
        }
        assert(order@.len() == all@.len());
        assert(out@.len() == (if all@.len() < limit {
            all@.len()
        } else {
            limit as nat
        }));
    }
    out
}


pub open spec fn location_models(v: Seq<DuplicateLocation>) -> Seq<LocationModel> {
    v.map_values(|l: DuplicateLocation| location_model(l))
}

pub open spec fn group_models(v: Seq<DuplicateGroup>) -> Seq<GroupModel> {
    v.map_values(|g: DuplicateGroup| group_model(g))
}

/// The groups of duplicated logic among the candidates, in order of first
/// appearance of their skeleton.
fn duplicate_groups(bodies: &Vec<DuplicateBody>) -> (out: Vec<DuplicateGroup>)
    ensures
        group_models(out@) == duplicate_groups_of(body_models(bodies@)),
{
    let ghost bs = body_models(bodies@);
    let mut keys: Vec<Vec<char>> = Vec::new();
    let mut t: usize = 0;
    while t < bodies.len()
        invariant
            t <= bodies@.len(),
            bs == body_models(bodies@),
            views(keys@) == first_keys(bs, t as int),
        decreases bodies@.len() - t,
    {
        let key = chars_of(bodies[t].normalized.as_str());
        assert(bs[t as int].normalized == key@);
        if !crate::text::contains_item(&keys, key.as_slice()) {
            let ghost kb = keys@;
            keys.push(key);
            assert(views(keys@) =~= views(kb).push(key@));
        }
        t += 1;
    }
    assert(bs.len() == bodies@.len());
    let ghost all_keys = views(keys@);
    let mut groups: Vec<DuplicateGroup> = Vec::new();
    let mut m: usize = 0;
    while m < keys.len()
        invariant
            m <= keys@.len(),
            bs == body_models(bodies@),
            bs.len() == bodies@.len(),
            all_keys == views(keys@),
            group_models(groups@) == groups_for(bs, all_keys, m as int),
        decreases keys@.len() - m,
    {
        let key = &keys[m];
        assert(all_keys[m as int] == key@);
        let mut locs: Vec<DuplicateLocation> = Vec::new();
        let mut names: Vec<Vec<char>> = Vec::new();
        let mut t: usize = 0;
        while t < bodies.len()
            invariant
                t <= bodies@.len(),
                bs == body_models(bodies@),
                location_models(locs@) == locations_with(bs, key@, t as int),
                views(names@) == locations_with(bs, key@, t as int).map_values(
                    |l: LocationModel| l.name,
                ),
            decreases bodies@.len() - t,
        {
            let b = &bodies[t];
            assert(bs[t as int] == body_model(*b));
            if chars_eq(chars_of(b.normalized.as_str()).as_slice(), key.as_slice()) {
                let ghost lb = locs@;
                let ghost nb = names@;
                let loc = copy_location(&b.location);
                locs.push(loc);
                names.push(chars_of(b.location.name.as_str()));
                assert(location_models(locs@) =~= location_models(lb).push(location_model(loc)));
                assert(location_model(loc) == body_location(bs[t as int]));
                assert(views(names@) =~= views(nb).push(b.location.name@));
                assert(locations_with(bs, key@, t + 1) == locations_with(bs, key@, t as int).push(
                    body_location(bs[t as int]),
                ));
                assert(locations_with(bs, key@, t + 1).map_values(|l: LocationModel| l.name)
                    =~= locations_with(bs, key@, t as int).map_values(|l: LocationModel| l.name).push(
                    b.location.name@,
                ));
            }
            t += 1;
        }
        if locs.len() >= 2 {
            let sep = chars_of(" / ");
            let mut title = chars_of("重复子程序逻辑：");
            append_chars(&mut title, join_chars(&names, sep.as_slice()).as_slice());
            let size = crate::text::utf8_len_clamped(key.as_slice());
            let g = DuplicateGroup {
                title: string_of(title.as_slice()),
                normalized_size: size,
                locations: locs,
                suggestion: "将此重复片段重构成公共模块或子程序，减少后期维护成本。".to_owned(),
            };
            let ghost gb = groups@;
            groups.push(g);
            assert(group_model(g) == make_group(key@, locations_with(bs, key@, bs.len() as int)));
            assert(group_models(groups@) =~= group_models(gb).push(group_model(g)));
        }
        m += 1;
    }
    groups
}

/// The analysis of a whole project from the summaries of all its source
/// files, module files included, and the scans of those files (see
/// `scan_source_file`): every source file is analysed and none skipped;
/// all findings ranked by severity (at most 3000), the groups of duplicated
/// logic ranked by size (at most 20), the metrics and a summary sentence.
pub fn analyze_project_scans(
    ecode_dir: String,
    files: &Vec<ECodeSourceFileSummary>,
    scans: &Vec<FileScan>,
) -> (out: ProjectAnalysisResult)
    requires
        subprogram_total(files@, files@.len() as int) <= usize::MAX,
    ensures
        ({
            let f = all_findings(scans@, scans@.len() as int);
            let g = duplicate_groups_of(all_bodies(scans@, scans@.len() as int));
            let m = out.metrics;
            &&& out.success
            &&& out.ecode_dir == ecode_dir
            &&& out.note@ == "静态诊断已完成，由 Rust 并行计算扫描生成。"@
            &&& m.source_file_count == files@.len()
            &&& m.analyzed_file_count == files@.len()
            &&& m.skipped_module_file_count == 0
            &&& m.subprogram_count == subprogram_total(files@, files@.len() as int)
            &&& m.hardcoded_url_count == count_kind(f, "hardcoded_url"@)
            &&& m.insecure_http_url_count == count_insecure(f)
            &&& m.selector_count == count_kind(f, "hardcoded_selector"@)
            &&& m.network_call_count == count_kind(f, "network_call"@)
            &&& m.duplicate_group_count == g.len()
            &&& m.empty_component_count == count_kind(f, "empty_component"@) + count_kind(
                f,
                "empty_subprogram"@,
            )
            &&& m.sensitive_field_count == count_kind(f, "sensitive_field"@)
            &&& out.summary@ == analysis_summary(m)
            &&& exists|order: Seq<usize>|
                {
                    &&& is_permutation(order, f.len())
                    &&& forall|a: int, b: int|
                        0 <= a < b < order.len() ==> severity_score(f[order[a] as int].severity)
                            >= severity_score(f[order[b] as int].severity)
                    &&& forall|a: int, b: int|
                        0 <= a < b < order.len() && severity_score(f[order[a] as int].severity)
                            == severity_score(f[order[b] as int].severity) ==> order[a] < order[b]
                    &&& out.findings@.len() == (if f.len() < 3000 {
                        f.len()
                    } else {
                        3000
                    })
                    &&& forall|i: int|
                        0 <= i < out.findings@.len() ==> finding_model(#[trigger] out.findings@[i])
                            == f[order[i] as int]
                }
            &&& exists|order: Seq<usize>|
                {
                    &&& is_permutation(order, g.len())
                    &&& forall|a: int, b: int|
                        0 <= a < b < order.len() ==> g[order[a] as int].normalized_size
                            >= g[order[b] as int].normalized_size
                    &&& out.duplicate_groups@.len() == (if g.len() < 20 {
                        g.len()
                    } else {
                        20
                    })
                    &&& forall|i: int|
                        0 <= i < out.duplicate_groups@.len() ==> group_model(
                            #[trigger] out.duplicate_groups@[i],
                        ) == g[order[i] as int]
                }
        }),
{
    let mut subprogram_count: usize = 0;
    let mut k: usize = 0;
    while k < files.len()
        invariant
            k <= files@.len(),
            subprogram_total(files@, files@.len() as int) <= usize::MAX,
            subprogram_count == subprogram_total(files@, k as int),
        decreases files@.len() - k,
    {
        proof {
            lemma_total_mono(files@, k + 1, files@.len() as int);
        }
        subprogram_count = subprogram_count + files[k].subprograms.len();
        k += 1;
    }
    let mut all: Vec<AnalysisFinding> = Vec::new();
    let mut bodies: Vec<DuplicateBody> = Vec::new();
    let mut url_count: usize = 0;
    let mut insecure_count: usize = 0;
    let mut selector_count: usize = 0;
    let mut network_count: usize = 0;
    let mut sensitive_count: usize = 0;
    let mut empty_count: usize = 0;
    let mut i: usize = 0;
    while i < scans.len()
        invariant
            i <= scans@.len(),
            finding_models(all@) == all_findings(scans@, i as int),
            body_models(bodies@) == all_bodies(scans@, i as int),
            url_count == count_kind(finding_models(all@), "hardcoded_url"@),
            insecure_count == count_insecure(finding_models(all@)),
            selector_count == count_kind(finding_models(all@), "hardcoded_selector"@),
            network_count == count_kind(finding_models(all@), "network_call"@),
            sensitive_count == count_kind(finding_models(all@), "sensitive_field"@),
            empty_count == count_kind(finding_models(all@), "empty_component"@) + count_kind(
                finding_models(all@),
                "empty_subprogram"@,
            ),
            url_count <= all@.len(),
            insecure_count <= all@.len(),
            selector_count <= all@.len(),
            network_count <= all@.len(),
            sensitive_count <= all@.len(),
            empty_count <= all@.len(),
        decreases scans@.len() - i,
    {
        let scan = &scans[i];
        let ghost start_models = finding_models(all@);
        let mut j: usize = 0;
        while j < scan.findings.len()
            invariant
                j <= scan.findings@.len(),
                finding_models(all@) == start_models + finding_models(scan.findings@).take(j as int),
                url_count == count_kind(finding_models(all@), "hardcoded_url"@),
                insecure_count == count_insecure(finding_models(all@)),
                selector_count == count_kind(finding_models(all@), "hardcoded_selector"@),
                network_count == count_kind(finding_models(all@), "network_call"@),
                sensitive_count == count_kind(finding_models(all@), "sensitive_field"@),
                empty_count == count_kind(finding_models(all@), "empty_component"@) + count_kind(
                    finding_models(all@),
                    "empty_subprogram"@,
                ),
                url_count <= all@.len(),
                insecure_count <= all@.len(),
                selector_count <= all@.len(),
                network_count <= all@.len(),
                sensitive_count <= all@.len(),
                empty_count <= all@.len(),
            decreases scan.findings@.len() - j,
        {
            let f = copy_finding(&scan.findings[j]);
            let kind = chars_of(f.kind.as_str());
            let kk = kind.as_slice();
            let is_url = crate::text::eq_str(kk, "hardcoded_url");
            let is_insecure = is_url && contains_str(chars_of(f.evidence.as_str()).as_slice(), "http://");
            let is_selector = crate::text::eq_str(kk, "hardcoded_selector");
            let is_network = crate::text::eq_str(kk, "network_call");
            let is_sensitive = crate::text::eq_str(kk, "sensitive_field");
            let is_empty = crate::text::eq_str(kk, "empty_component") || crate::text::eq_str(
                kk,
                "empty_subprogram",
            );
            let ghost ab = all@;
            all.push(f);
            let total = all.len();
            if is_url {
                url_count += 1;
            }
            if is_insecure {
                insecure_count += 1;
            }
            if is_selector {
                selector_count += 1;
            }
            if is_network {
                network_count += 1;
            }
            if is_sensitive {
                sensitive_count += 1;
            }
            if is_empty {
                empty_count += 1;
            }
            proof {
                let nm = finding_models(all@);
                assert(nm =~= finding_models(ab).push(finding_model(f)));
                assert(nm.drop_last() == finding_models(ab));
                assert(nm.last() == finding_model(f));
                assert(finding_models(scan.findings@).take(j + 1) =~= finding_models(
                    scan.findings@,
                ).take(j as int).push(finding_model(f)));
                assert(nm =~= start_models + finding_models(scan.findings@).take(j + 1));
                lemma_count_kind_step(nm, "hardcoded_url"@);
                lemma_count_kind_step(nm, "hardcoded_selector"@);
                lemma_count_kind_step(nm, "network_call"@);
                lemma_count_kind_step(nm, "sensitive_field"@);
                lemma_count_kind_step(nm, "empty_component"@);
                lemma_count_kind_step(nm, "empty_subprogram"@);
                reveal_strlit("empty_component");
                reveal_strlit("empty_subprogram");
                assert("empty_component"@.len() != "empty_subprogram"@.len());
            }
            j += 1;
        }
        assert(finding_models(scan.findings@).take(scan.findings@.len() as int) == finding_models(
            scan.findings@,
        ));
        let ghost start_bodies = body_models(bodies@);
        let mut t: usize = 0;
        while t < scan.bodies.len()
            invariant
                t <= scan.bodies@.len(),
                body_models(bodies@) == start_bodies + body_models(scan.bodies@).take(t as int),
            decreases scan.bodies@.len() - t,
        {
            let b = &scan.bodies[t];
            let copy = DuplicateBody {
                normalized: b.normalized.clone(),
                location: copy_location(&b.location),
                body: b.body.clone(),
            };
            let ghost bb = bodies@;
            bodies.push(copy);
            assert(body_models(bodies@) =~= body_models(bb).push(body_model(*b)));
            assert(body_models(scan.bodies@).take(t + 1) =~= body_models(scan.bodies@).take(
                t as int,
            ).push(body_model(*b)));
            t += 1;
        }
        assert(body_models(scan.bodies@).take(scan.bodies@.len() as int) == body_models(
            scan.bodies@,
        ));
        i += 1;
    }
    let groups = duplicate_groups(&bodies);
    let duplicate_group_count = groups.len();
    assert(group_models(groups@).len() == groups@.len());
    let metrics = AnalysisMetrics {
        source_file_count: files.len(),
        analyzed_file_count: files.len(),
        skipped_module_file_count: 0,
        subprogram_count,
        hardcoded_url_count: url_count,
        insecure_http_url_count: insecure_count,
        selector_count,
        network_call_count: network_count,
        duplicate_group_count,
        empty_component_count: empty_count,
        sensitive_field_count: sensitive_count,
    };
    let mut m = chars_of("已分析 ");
    append_decimal(&mut m, metrics.analyzed_file_count);
    append_str(&mut m, "/");
    append_decimal(&mut m, metrics.source_file_count);
    append_str(&mut m, " 个主工程源码文件：发现 ");
    append_decimal(&mut m, metrics.duplicate_group_count);
    append_str(&mut m, " 组重复逻辑、");
    append_decimal(&mut m, metrics.hardcoded_url_count);
    append_str(&mut m, " 个硬编码 URL（");
    append_decimal(&mut m, metrics.insecure_http_url_count);
    append_str(&mut m, " 个不安全的明文 HTTP 链接）、");
    append_decimal(&mut m, metrics.selector_count);
    append_str(&mut m, " 个选择器和 ");
    append_decimal(&mut m, metrics.network_call_count);
    append_str(&mut m, " 处网络调用，");
    append_decimal(&mut m, metrics.sensitive_field_count);
    append_str(&mut m, " 处涉及个人隐私信息的敏感字段。");
    let findings = rank_findings(&all, 3000);
    let ranked_groups = rank_groups(&groups, 20);
    proof {
        let f = all_findings(scans@, scans@.len() as int);
        let g = duplicate_groups_of(all_bodies(scans@, scans@.len() as int));
        let o1 = choose|order: Seq<usize>|
            {
                &&& is_permutation(order, all@.len())
                &&& forall|a: int, b: int|
                    0 <= a < b < order.len() ==> severity_score(all@[order[a] as int].severity@)
                        >= severity_score(all@[order[b] as int].severity@)
                &&& forall|a: int, b: int|
                    0 <= a < b < order.len() && severity_score(all@[order[a] as int].severity@)
                        == severity_score(all@[order[b] as int].severity@) ==> order[a] < order[b]
                &&& findings@.len() == (if all@.len() < 3000 {
                    all@.len()
                } else {
                    3000 as nat
                })
                &&& forall|i: int|
                    0 <= i < findings@.len() ==> #[trigger] findings@[i] == all@[order[i] as int]
            };
        assert(finding_models(all@).len() == all@.len());
        assert forall|a: int| 0 <= a < all@.len() implies #[trigger] f[a] == finding_model(all@[a]) by {}
        assert forall|i: int| 0 <= i < findings@.len() implies finding_model(
            #[trigger] findings@[i],
        ) == f[o1[i] as int] by {
            assert(o1[i] < all@.len());
        }
        assert forall|a: int, b: int| 0 <= a < b < o1.len() implies severity_score(
            f[o1[a] as int].severity,
        ) >= severity_score(f[o1[b] as int].severity) by {
            assert(o1[a] < all@.len() && o1[b] < all@.len());
            assert(f[o1[a] as int] == finding_model(all@[o1[a] as int]));
            assert(f[o1[b] as int] == finding_model(all@[o1[b] as int]));
        }
        let o2 = choose|order: Seq<usize>|
            {
                &&& is_permutation(order, groups@.len())
                &&& forall|a: int, b: int|
                    0 <= a < b < order.len() ==> groups@[order[a] as int].normalized_size
                        >= groups@[order[b] as int].normalized_size
                &&& ranked_groups@.len() == (if groups@.len() < 20 {
                    groups@.len()
                } else {
                    20 as nat
                })
                &&& forall|i: int|
                    0 <= i < ranked_groups@.len() ==> group_model(#[trigger] ranked_groups@[i])
                        == group_model(groups@[order[i] as int])
            };
        assert forall|a: int| 0 <= a < groups@.len() implies #[trigger] g[a] == group_model(
            groups@[a],
        ) by {}
        assert forall|i: int| 0 <= i < ranked_groups@.len() implies group_model(
            #[trigger] ranked_groups@[i],
        ) == g[o2[i] as int] by {
            assert(o2[i] < groups@.len());
        }
        assert forall|a: int, b: int| 0 <= a < b < o2.len() implies g[o2[a] as int].normalized_size
            >= g[o2[b] as int].normalized_size by {
            assert(o2[a] < groups@.len() && o2[b] < groups@.len());
        }
    }
    ProjectAnalysisResult {
        success: true,
        ecode_dir,
        summary: string_of(m.as_slice()),
        metrics,
        findings,
        duplicate_groups: ranked_groups,
        note: "静态诊断已完成，由 Rust 并行计算扫描生成。".to_owned(),
    }
}

proof fn lemma_count_kind_step(fs: Seq<FindingModel>, kind: Seq<char>)
    requires
        fs.len() > 0,
    ensures
        count_kind(fs, kind) == count_kind(fs.drop_last(), kind) + (if fs.last().kind == kind {
            1nat
        } else {
            0nat
        }),
        count_insecure(fs) == count_insecure(fs.drop_last()) + (if fs.last().kind
            == "hardcoded_url"@ && contains(fs.last().evidence, "http://"@) {
            1nat
        } else {
            0nat
        }),
{
}

proof fn lemma_total_mono(files: Seq<ECodeSourceFileSummary>, a: int, b: int)
    requires
        0 <= a <= b <= files.len(),
    ensures
        subprogram_total(files, a) <= subprogram_total(files, b),
    decreases b - a,
{
    if a < b {
        lemma_total_mono(files, a, b - 1);
    }
}

proof fn lemma_line_findings_kept(path: Seq<char>, rel: Seq<char>, ls: Seq<Seq<char>>, m: int, n: int, x: FindingModel)
    requires
        1 <= m <= n <= ls.len(),
        line_findings(path, rel, m as nat, ls[m - 1]).contains(x),
    ensures
        lines_findings(path, rel, ls, n).contains(x),
    decreases n,
{
    let prev = lines_findings(path, rel, ls, n - 1);
    let here = line_findings(path, rel, n as nat, ls[n - 1]);
    assert(lines_findings(path, rel, ls, n) == prev + here);
    if m == n {
        let j = choose|j: int| 0 <= j < here.len() && here[j] == x;
        assert((prev + here)[prev.len() + j] == x);
    } else {
        lemma_line_findings_kept(path, rel, ls, m, n - 1, x);
        let j = choose|j: int| 0 <= j < prev.len() && prev[j] == x;
        assert((prev + here)[j] == x);
    }
}

/// Every line with an address is reported: a line of a file whose
/// lowercased text holds `https://` or `http://` gives a hard-coded URL
/// finding at that line, with the trimmed line as evidence; it is a risk
/// when the address is plain `http://` and a warning otherwise.
pub proof fn law_addresses_are_reported(f: ECodeSourceFileSummary, content: Seq<char>, k: int)
    requires
        0 <= k < lines(content).len(),
        contains(unicode_lowercase(lines(content)[k]), "https://"@) || contains(
            unicode_lowercase(lines(content)[k]),
            "http://"@,
        ),
    ensures
        ({
            let line = lines(content)[k];
            let plain = contains(unicode_lowercase(line), "http://"@);
            exists|j: int|
                0 <= j < file_findings(f, content).len() && {
                    let x = #[trigger] file_findings(f, content)[j];
                    &&& x.kind == "hardcoded_url"@
                    &&& x.line == k + 1
                    &&& x.severity == (if plain {
                        "risk"@
                    } else {
                        "warning"@
                    })
                    &&& x.path == f.path@
                    &&& x.relative_path == f.relative_path@
                    &&& x.evidence == trim(line)
                }
        }),
{
    let ls = lines(content);
    let line = ls[k];
    let path = f.path@;
    let rel = f.relative_path@;
    let u = url_findings(path, rel, (k + 1) as nat, line);
    assert(u.len() == 1);
    let x = u[0];
    let here = line_findings(path, rel, (k + 1) as nat, line);
    assert(here[0] == x);
    assert(here.contains(x));
    lemma_line_findings_kept(path, rel, ls, k + 1, ls.len() as int, x);
    let lf = lines_findings(path, rel, ls, ls.len() as int);
    let ff = file_findings(f, content);
    let head = component_findings(f) + empty_subprogram_findings(f, f.subprograms@.len() as int);
    assert(ff == head + lf);
    let j = choose|j: int| 0 <= j < lf.len() && lf[j] == x;
    assert(ff[head.len() + j] == x);
}

} // verus!
