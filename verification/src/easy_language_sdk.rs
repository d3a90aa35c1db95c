//! The EasyLanguage installation scan: from what was found on disk, the
//! report of directories, tools, support libraries and modules, and whether
//! the installation can compile.
use vstd::prelude::*;
use crate::text::{
    append_str, chars_of, ends_with, ends_with_chars, is_permutation, order_by_text,
    starts_with, starts_with_chars, str_views, string_of, text_lt, to_ascii_lowercase,
    to_ascii_lowercase_chars, trim, trim_chars, views,
};

verus! {

#[derive(Debug, Clone)]
pub struct EasyLanguageLibraryInfo {
    pub name: String,
    pub fne_path: String,
    pub help_dir: Option<String>,
    pub command_doc_count: usize,
    pub has_const_doc: bool,
}

#[derive(Debug, Clone)]
pub struct EasyLanguageModuleInfo {
    pub name: String,
    pub path: String,
    pub bytes: u64,
}

#[derive(Debug, Clone)]
pub struct EasyLanguageToolInfo {
    pub name: String,
    pub path: String,
    pub exists: bool,
}

#[derive(Debug, Clone)]
pub struct EasyLanguageEnvCounts {
    pub support_library_files: usize,
    pub module_files: usize,
    pub sample_e_files: usize,
    pub help_html_files: usize,
}

#[derive(Debug, Clone)]
pub struct EasyLanguageEnvScan {
    pub root: String,
    pub exists: bool,
    pub is_compile_ready: bool,
    pub e_exe: Option<String>,
    pub el_exe: Option<String>,
    pub help_dir: Option<String>,
    pub lib_dir: Option<String>,
    pub ecom_dir: Option<String>,
    pub sdk_dir: Option<String>,
    pub tools_dir: Option<String>,
    pub linker_dir: Option<String>,
    pub static_lib_dir: Option<String>,
    pub tools: Vec<EasyLanguageToolInfo>,
    pub support_libraries: Vec<EasyLanguageLibraryInfo>,
    pub modules: Vec<EasyLanguageModuleInfo>,
    pub counts: EasyLanguageEnvCounts,
    pub warnings: Vec<String>,
}

/// A path of the installation and whether it exists.
pub struct PathProbe {
    pub path: String,
    pub exists: bool,
}

/// What was found on disk under an installation root.
pub struct EnvProbe {
    pub root: String,
    pub exists: bool,
    pub e_exe: PathProbe,
    pub el_exe: PathProbe,
    pub help_dir: PathProbe,
    pub lib_dir: PathProbe,
    pub ecom_dir: PathProbe,
    pub sdk_dir: PathProbe,
    pub tools_dir: PathProbe,
    pub linker_dir: PathProbe,
    pub static_lib_dir: PathProbe,
    /// The tools of `tool_targets`, in that order, with their paths.
    pub tools: Vec<EasyLanguageToolInfo>,
    /// The support libraries (`lib/*.fne`), in directory order.
    pub support_libraries: Vec<EasyLanguageLibraryInfo>,
    /// The modules (`ecom/*.ec`), in directory order.
    pub modules: Vec<EasyLanguageModuleInfo>,
    /// The number of `.e` files under the root.
    pub sample_e_files: usize,
    /// The number of `.htm`/`.html` files under the help directory.
    pub help_html_files: usize,
}

/// Where an installation is looked for when no root is given.
pub open spec fn default_roots() -> Seq<Seq<char>> {
    seq!["D:\\e"@, "C:\\e"@, "D:\\Program Files\\e"@, "C:\\Program Files (x86)\\e"@]
}

pub fn root_candidates() -> (out: Vec<String>)
    ensures
        str_views(out@) == default_roots(),
{
    let mut v: Vec<String> = Vec::new();
    v.push("D:\\e".to_owned());
    v.push("C:\\e".to_owned());
    v.push("D:\\Program Files\\e".to_owned());
    v.push("C:\\Program Files (x86)\\e".to_owned());
    assert(str_views(v@) =~= default_roots());
    v
}

/// The first index `i` from `from` with `found[i]`, if any.
pub open spec fn first_found(found: Seq<bool>, from: int) -> Option<int>
    decreases found.len() - from,
{
    if from < 0 || from >= found.len() {
        None
    } else if found[from] {
        Some(from)
    } else {
        first_found(found, from + 1)
    }
}

/// The root of the installation: the given root, trimmed, unless it is
/// blank; else the first default root that was found (`candidate_found`
/// tells, for each of `default_roots`, whether `e.exe` or `lib` is there);
/// else `D:\e`.
pub open spec fn chosen_root(root_path: Option<Seq<char>>, candidate_found: Seq<bool>) -> Seq<
    char,
> {
    if root_path is Some && trim(root_path->0).len() > 0 {
        trim(root_path->0)
    } else {
        match first_found(candidate_found, 0) {
            Some(i) => if i < default_roots().len() {
                default_roots()[i]
            } else {
                "D:\\e"@
            },
            None => "D:\\e"@,
        }
    }
}

pub fn pick_root(root_path: Option<String>, candidate_found: &Vec<bool>) -> (out: String)
    ensures
        out@ == chosen_root(
            match root_path {
                Some(r) => Some(r@),
                None => None,
            },
            candidate_found@,
        ),
{
    if let Some(input) = &root_path {
        let t = trim_chars(chars_of(input.as_str()).as_slice());
        if t.len() > 0 {
            return string_of(t.as_slice());
        }
    }
    let candidates = root_candidates();
    let mut i: usize = 0;
    while i < candidate_found.len()
        invariant
            i <= candidate_found@.len(),
            str_views(candidates@) == default_roots(),
            !(root_path is Some && trim(root_path->0@).len() > 0),
            first_found(candidate_found@, 0) == first_found(candidate_found@, i as int),
        decreases candidate_found.len() - i,
    {
        if candidate_found[i] {
            if i < candidates.len() {
                assert(str_views(candidates@)[i as int] == candidates@[i as int]@);
                return candidates[i].clone();
            }
            return "D:\\e".to_owned();
        }
        i += 1;
    }
    "D:\\e".to_owned()
}

/// The tools whose presence is reported: name and path under the root.
pub open spec fn tool_target_list() -> Seq<(Seq<char>, Seq<char>)> {
    seq![
        ("e.exe"@, "e.exe"@),
        ("el.exe"@, "el.exe"@),
        ("elib.exe"@, "tools\\elib.exe"@),
        ("link.dll"@, "tools\\link.dll"@),
        ("VC98 link.exe"@, "VC98linker\\bin\\link.exe"@),
    ]
}

pub fn tool_targets() -> (out: Vec<(String, String)>)
    ensures
        out@.map_values(|p: (String, String)| (p.0@, p.1@)) == tool_target_list(),
{
    let mut v: Vec<(String, String)> = Vec::new();
    v.push(("e.exe".to_owned(), "e.exe".to_owned()));
    v.push(("el.exe".to_owned(), "el.exe".to_owned()));
    v.push(("elib.exe".to_owned(), "tools\\elib.exe".to_owned()));
    v.push(("link.dll".to_owned(), "tools\\link.dll".to_owned()));
    v.push(("VC98 link.exe".to_owned(), "VC98linker\\bin\\link.exe".to_owned()));
    assert(v@.map_values(|p: (String, String)| (p.0@, p.1@)) =~= tool_target_list());
    v
}

/// Help pages of commands: `cmd*.htm`, without ASCII case.
pub open spec fn is_command_doc(name: Seq<char>) -> bool {
    starts_with(to_ascii_lowercase(name), "cmd"@) && ends_with(to_ascii_lowercase(name), ".htm"@)
}

pub fn is_command_doc_name(name: &str) -> (res: bool)
    ensures
        res == is_command_doc(name@),
{
    let lower = to_ascii_lowercase_chars(chars_of(name).as_slice());
    starts_with_chars(lower.as_slice(), chars_of("cmd").as_slice()) && ends_with_chars(
        lower.as_slice(),
        chars_of(".htm").as_slice(),
    )
}

/// Whether a file extension is the wanted one without ASCII case
/// (`eq_ignore_ascii_case`).
pub fn extension_matches(ext: &str, wanted: &str) -> (res: bool)
    ensures
        res == (to_ascii_lowercase(ext@) == to_ascii_lowercase(wanted@)),
{
    let a = to_ascii_lowercase_chars(chars_of(ext).as_slice());
    let b = to_ascii_lowercase_chars(chars_of(wanted).as_slice());
    crate::text::chars_eq(a.as_slice(), b.as_slice())
}

/// The tools that must exist for compiling.
pub open spec fn is_required_tool(name: Seq<char>) -> bool {
    name == "e.exe"@ || name == "el.exe"@ || name == "link.dll"@ || name == "VC98 link.exe"@
}

/// Every required tool of the list exists.
pub open spec fn required_tools_exist(tools: Seq<EasyLanguageToolInfo>) -> bool {
    forall|i: int| 0 <= i < tools.len() && is_required_tool(#[trigger] tools[i].name@) ==> tools[i].exists
}

fn copy_option(o: &Option<String>) -> (out: Option<String>)
    ensures
        out == *o,
{
    match o {
        Some(s) => Some(s.clone()),
        None => None,
    }
}

fn copy_library(l: &EasyLanguageLibraryInfo) -> (out: EasyLanguageLibraryInfo)
    ensures
        out == *l,
{
    EasyLanguageLibraryInfo {
        name: l.name.clone(),
        fne_path: l.fne_path.clone(),
        help_dir: copy_option(&l.help_dir),
        command_doc_count: l.command_doc_count,
        has_const_doc: l.has_const_doc,
    }
}

fn copy_module(m: &EasyLanguageModuleInfo) -> (out: EasyLanguageModuleInfo)
    ensures
        out == *m,
{
    EasyLanguageModuleInfo { name: m.name.clone(), path: m.path.clone(), bytes: m.bytes }
}

fn copy_tool(t: &EasyLanguageToolInfo) -> (out: EasyLanguageToolInfo)
    ensures
        out == *t,
{
    EasyLanguageToolInfo { name: t.name.clone(), path: t.path.clone(), exists: t.exists }
}

/// `out` lists the items of `input` in the order `order`.
pub open spec fn arranged<T>(out: Seq<T>, input: Seq<T>, order: Seq<usize>) -> bool {
    &&& out.len() == order.len()
    &&& forall|i: int| 0 <= i < out.len() ==> #[trigger] out[i] == input[order[i] as int]
}

/// The support libraries sorted by name (a stable sort).
pub fn sort_libraries(libs: &Vec<EasyLanguageLibraryInfo>) -> (out: Vec<EasyLanguageLibraryInfo>)
    ensures
        exists|order: Seq<usize>|
            {
                &&& is_permutation(order, libs@.len())
                &&& #[trigger] arranged(out@, libs@, order)
                &&& forall|a: int, b: int|
                    0 <= a < b < out@.len() && out@[a].name@ == out@[b].name@ ==> order[a] < order[b]
            },
        forall|a: int, b: int|
            0 <= a < b < out@.len() ==> !text_lt(out@[b].name@, out@[a].name@),
{
    let mut names: Vec<String> = Vec::new();
    let mut k: usize = 0;
    while k < libs.len()
        invariant
            k <= libs@.len(),
            names@.len() == k,
            forall|m: int| 0 <= m < k ==> #[trigger] names@[m] == libs@[m].name,
        decreases libs@.len() - k,
    {
        names.push(libs[k].name.clone());
        k += 1;
    }
    let order = order_by_text(&names);
    let mut out: Vec<EasyLanguageLibraryInfo> = Vec::new();
    let mut i: usize = 0;
    while i < order.len()
        invariant
            i <= order@.len(),
            is_permutation(order@, libs@.len()),
            names@.len() == libs@.len(),
            forall|m: int| 0 <= m < libs@.len() ==> #[trigger] names@[m] == libs@[m].name,
            out@.len() == i,
            forall|m: int| 0 <= m < i ==> #[trigger] out@[m] == libs@[order@[m] as int],
        decreases order@.len() - i,
    {
        out.push(copy_library(&libs[order[i]]));
        i += 1;
    }
    proof {
        assert(arranged(out@, libs@, order@));
        assert forall|a: int, b: int| 0 <= a < b < out@.len() implies !text_lt(
            out@[b].name@,
            out@[a].name@,
        ) by {
            assert(names@[order@[a] as int] == libs@[order@[a] as int].name);
            assert(names@[order@[b] as int] == libs@[order@[b] as int].name);
        }
        assert forall|a: int, b: int|
            0 <= a < b < out@.len() && out@[a].name@ == out@[b].name@ implies order@[a]
            < order@[b] by {
            assert(names@[order@[a] as int] == libs@[order@[a] as int].name);
            assert(names@[order@[b] as int] == libs@[order@[b] as int].name);
        }
    }
    out
}

/// The modules sorted by name (a stable sort).
pub fn sort_modules(mods: &Vec<EasyLanguageModuleInfo>) -> (out: Vec<EasyLanguageModuleInfo>)
    ensures
        exists|order: Seq<usize>|
            {
                &&& is_permutation(order, mods@.len())
                &&& #[trigger] arranged(out@, mods@, order)
                &&& forall|a: int, b: int|
                    0 <= a < b < out@.len() && out@[a].name@ == out@[b].name@ ==> order[a] < order[b]
            },
        forall|a: int, b: int|
            0 <= a < b < out@.len() ==> !text_lt(out@[b].name@, out@[a].name@),
{
    let mut names: Vec<String> = Vec::new();
    let mut k: usize = 0;
    while k < mods.len()
        invariant
            k <= mods@.len(),
            names@.len() == k,
            forall|m: int| 0 <= m < k ==> #[trigger] names@[m] == mods@[m].name,
        decreases mods@.len() - k,
    {
        names.push(mods[k].name.clone());
        k += 1;
    }
    let order = order_by_text(&names);
    let mut out: Vec<EasyLanguageModuleInfo> = Vec::new();
    let mut i: usize = 0;
    while i < order.len()
        invariant
            i <= order@.len(),
            is_permutation(order@, mods@.len()),
            names@.len() == mods@.len(),
            forall|m: int| 0 <= m < mods@.len() ==> #[trigger] names@[m] == mods@[m].name,
            out@.len() == i,
            forall|m: int| 0 <= m < i ==> #[trigger] out@[m] == mods@[order@[m] as int],
        decreases order@.len() - i,
    {
        out.push(copy_module(&mods[order[i]]));
        i += 1;
    }
    proof {
        assert(arranged(out@, mods@, order@));
        assert forall|a: int, b: int| 0 <= a < b < out@.len() implies !text_lt(
            out@[b].name@,
            out@[a].name@,
        ) by {
            assert(names@[order@[a] as int] == mods@[order@[a] as int].name);
            assert(names@[order@[b] as int] == mods@[order@[b] as int].name);
        }
        assert forall|a: int, b: int|
            0 <= a < b < out@.len() && out@[a].name@ == out@[b].name@ implies order@[a]
            < order@[b] by {
            assert(names@[order@[a] as int] == mods@[order@[a] as int].name);
            assert(names@[order@[b] as int] == mods@[order@[b] as int].name);
        }
    }
    out
}

/// The path of a directory that exists.
pub open spec fn present(p: PathProbe) -> Option<String> {
    if p.exists {
        Some(p.path)
    } else {
        None
    }
}

fn present_exec(p: &PathProbe) -> (out: Option<String>)
    ensures
        out == present(*p),
{
    if p.exists {
        Some(p.path.clone())
    } else {
        None
    }
}

/// The warnings for missing directories, in the order lib, ecom,
/// static_lib.
pub open spec fn missing_dir_warnings(lib: bool, ecom: bool, static_lib: bool) -> Seq<Seq<char>> {
    let a: Seq<Seq<char>> = if lib {
        seq![]
    } else {
        seq!["缺少lib 支持库目录"@]
    };
    let b: Seq<Seq<char>> = if ecom {
        seq![]
    } else {
        seq!["缺少ecom 模块目录"@]
    };
    let c: Seq<Seq<char>> = if static_lib {
        seq![]
    } else {
        seq!["缺少static_lib 静态库目录"@]
    };
    a + b + c
}

/// The report of an installation from what was found under its root.
/// A missing root gives an empty report with one warning; otherwise the
/// directories that exist are listed, the tools as found, the support
/// libraries and modules sorted by name (equal names keep the order in
/// which they were found) with their counts, the help pages
/// counted only when the help directory exists, a warning for each of
/// `lib`, `ecom` and `static_lib` that is missing, and the installation is
/// ready to compile when every required tool, `lib` and `static_lib` exist.
pub fn scan_easy_language_env(probe: &EnvProbe) -> (res: Result<EasyLanguageEnvScan, String>)
    ensures
        res is Ok,
        ({
            let out = res->Ok_0;
            &&& out.root == probe.root
            &&& out.exists == probe.exists
            &&& !probe.exists ==> {
                &&& !out.is_compile_ready
                &&& out.e_exe is None && out.el_exe is None && out.help_dir is None
                &&& out.lib_dir is None && out.ecom_dir is None && out.sdk_dir is None
                &&& out.tools_dir is None && out.linker_dir is None && out.static_lib_dir is None
                &&& out.tools@.len() == 0 && out.support_libraries@.len() == 0
                    && out.modules@.len() == 0
                &&& out.counts.support_library_files == 0 && out.counts.module_files == 0
                &&& out.counts.sample_e_files == 0 && out.counts.help_html_files == 0
                &&& str_views(out.warnings@) == seq!["未找到易语言安装目录："@ + probe.root@]
            }
            &&& probe.exists ==> {
                &&& out.is_compile_ready == (required_tools_exist(probe.tools@)
                    && probe.lib_dir.exists && probe.static_lib_dir.exists)
                &&& out.e_exe == present(probe.e_exe)
                &&& out.el_exe == present(probe.el_exe)
                &&& out.help_dir == present(probe.help_dir)
                &&& out.lib_dir == present(probe.lib_dir)
                &&& out.ecom_dir == present(probe.ecom_dir)
                &&& out.sdk_dir == present(probe.sdk_dir)
                &&& out.tools_dir == present(probe.tools_dir)
                &&& out.linker_dir == present(probe.linker_dir)
                &&& out.static_lib_dir == present(probe.static_lib_dir)
                &&& out.tools@ == probe.tools@
                &&& (exists|order: Seq<usize>|
                    {
                        &&& is_permutation(order, probe.support_libraries@.len())
                        &&& #[trigger] arranged(out.support_libraries@, probe.support_libraries@, order)
                        &&& forall|a: int, b: int|
                            0 <= a < b < out.support_libraries@.len() && out.support_libraries@[a].name@
                                == out.support_libraries@[b].name@ ==> order[a] < order[b]
                    })
                &&& forall|a: int, b: int|
                    0 <= a < b < out.support_libraries@.len() ==> !text_lt(
                        out.support_libraries@[b].name@,
                        out.support_libraries@[a].name@,
                    )
                &&& (exists|order: Seq<usize>|
                    {
                        &&& is_permutation(order, probe.modules@.len())
                        &&& #[trigger] arranged(out.modules@, probe.modules@, order)
                        &&& forall|a: int, b: int|
                            0 <= a < b < out.modules@.len() && out.modules@[a].name@
                                == out.modules@[b].name@ ==> order[a] < order[b]
                    })
                &&& forall|a: int, b: int|
                    0 <= a < b < out.modules@.len() ==> !text_lt(
                        out.modules@[b].name@,
                        out.modules@[a].name@,
                    )
                &&& out.counts.support_library_files == probe.support_libraries@.len()
                &&& out.counts.module_files == probe.modules@.len()
                &&& out.counts.sample_e_files == probe.sample_e_files
                &&& out.counts.help_html_files == (if probe.help_dir.exists {
                    probe.help_html_files
                } else {
                    0
                })
                &&& str_views(out.warnings@) == missing_dir_warnings(
                    probe.lib_dir.exists,
                    probe.ecom_dir.exists,
                    probe.static_lib_dir.exists,
                )
            }
        }),
{
    if !probe.exists {
        let mut m = chars_of("未找到易语言安装目录：");
        append_str(&mut m, probe.root.as_str());
        let mut warnings: Vec<String> = Vec::new();
        warnings.push(string_of(m.as_slice()));
        assert(str_views(warnings@) =~= seq![m@]);
        return Ok(
            EasyLanguageEnvScan {
                root: probe.root.clone(),
                exists: false,
                is_compile_ready: false,
                e_exe: None,
                el_exe: None,
                help_dir: None,
                lib_dir: None,
                ecom_dir: None,
                sdk_dir: None,
                tools_dir: None,
                linker_dir: None,
                static_lib_dir: None,
                tools: Vec::new(),
                support_libraries: Vec::new(),
                modules: Vec::new(),
                counts: EasyLanguageEnvCounts {
                    support_library_files: 0,
                    module_files: 0,
                    sample_e_files: 0,
                    help_html_files: 0,
                },
                warnings,
            },
        );
    }
    let mut tools: Vec<EasyLanguageToolInfo> = Vec::new();
    let mut all_required = true;
    let mut i: usize = 0;
    while i < probe.tools.len()
        invariant
            i <= probe.tools@.len(),
            tools@ == probe.tools@.take(i as int),
            all_required == (forall|j: int|
                0 <= j < i && is_required_tool(#[trigger] probe.tools@[j].name@)
                    ==> probe.tools@[j].exists),
        decreases probe.tools@.len() - i,
    {
        let t = &probe.tools[i];
        let n = chars_of(t.name.as_str());
        let required = crate::text::eq_str(n.as_slice(), "e.exe") || crate::text::eq_str(
            n.as_slice(),
            "el.exe",
        ) || crate::text::eq_str(n.as_slice(), "link.dll") || crate::text::eq_str(
            n.as_slice(),
            "VC98 link.exe",
        );
        if required && !t.exists {
            all_required = false;
        }
        tools.push(copy_tool(t));
        assert(probe.tools@.take(i + 1) =~= probe.tools@.take(i as int).push(probe.tools@[i as int]));
        i += 1;
    }
    assert(probe.tools@.take(probe.tools@.len() as int) == probe.tools@);
    let is_compile_ready = all_required && probe.lib_dir.exists && probe.static_lib_dir.exists;
    let mut warnings: Vec<String> = Vec::new();
    if !probe.lib_dir.exists {
        warnings.push("缺少lib 支持库目录".to_owned());
    }
    if !probe.ecom_dir.exists {
        warnings.push("缺少ecom 模块目录".to_owned());
    }
    if !probe.static_lib_dir.exists {
        warnings.push("缺少static_lib 静态库目录".to_owned());
    }
    assert(str_views(warnings@) =~= missing_dir_warnings(
        probe.lib_dir.exists,
        probe.ecom_dir.exists,
        probe.static_lib_dir.exists,
    ));
    let support_libraries = sort_libraries(&probe.support_libraries);
    let modules = sort_modules(&probe.modules);
    let ghost o1 = choose|order: Seq<usize>|
            {
                &&& is_permutation(order, probe.support_libraries@.len())
                &&& #[trigger] arranged(support_libraries@, probe.support_libraries@, order)
                &&& forall|a: int, b: int|
                    0 <= a < b < support_libraries@.len() && support_libraries@[a].name@ == support_libraries@[b].name@
                        ==> order[a] < order[b]
            };
    let ghost o2 = choose|order: Seq<usize>|
            {
                &&& is_permutation(order, probe.modules@.len())
                &&& #[trigger] arranged(modules@, probe.modules@, order)
                &&& forall|a: int, b: int|
                    0 <= a < b < modules@.len() && modules@[a].name@ == modules@[b].name@
                        ==> order[a] < order[b]
            };
    let out = EasyLanguageEnvScan {
            root: probe.root.clone(),
            exists: true,
            is_compile_ready,
            e_exe: present_exec(&probe.e_exe),
            el_exe: present_exec(&probe.el_exe),
            help_dir: present_exec(&probe.help_dir),
            lib_dir: present_exec(&probe.lib_dir),
            ecom_dir: present_exec(&probe.ecom_dir),
            sdk_dir: present_exec(&probe.sdk_dir),
            tools_dir: present_exec(&probe.tools_dir),
            linker_dir: present_exec(&probe.linker_dir),
            static_lib_dir: present_exec(&probe.static_lib_dir),
            counts: EasyLanguageEnvCounts {
                support_library_files: probe.support_libraries.len(),
                module_files: probe.modules.len(),
                sample_e_files: probe.sample_e_files,
                help_html_files: if probe.help_dir.exists {
                    probe.help_html_files
                } else {
                    0
                },
            },
            tools,
            support_libraries,
            modules,
            warnings,
        };
    assert(arranged(out.support_libraries@, probe.support_libraries@, o1));
    assert(arranged(out.modules@, probe.modules@, o2));
    Ok(out)
}

} // verus!
