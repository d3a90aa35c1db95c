use eaicoding_mcp::easy_language_sdk::{
    pick_root, scan_easy_language_env, EasyLanguageLibraryInfo, EasyLanguageModuleInfo,
    EnvProbe, PathProbe,
};

fn probe(path: &str, exists: bool) -> PathProbe {
    PathProbe { path: path.to_string(), exists }
}

#[test]
fn picks_given_or_first_found_root() {
    assert_eq!(pick_root(Some("  E:\\易语言  ".to_string()), &vec![false; 4]), "E:\\易语言");
    assert_eq!(pick_root(Some("   ".to_string()), &vec![false, true, true, false]), "C:\\e");
    assert_eq!(pick_root(None, &vec![false; 4]), "D:\\e");
}

#[test]
fn missing_root_is_reported() {
    let p = EnvProbe {
        root: "X:\\e".to_string(),
        exists: false,
        e_exe: probe("", false),
        el_exe: probe("", false),
        help_dir: probe("", false),
        lib_dir: probe("", false),
        ecom_dir: probe("", false),
        sdk_dir: probe("", false),
        tools_dir: probe("", false),
        linker_dir: probe("", false),
        static_lib_dir: probe("", false),
        tools: Vec::new(),
        support_libraries: Vec::new(),
        modules: Vec::new(),
        sample_e_files: 0,
        help_html_files: 0,
    };
    let scan = scan_easy_language_env(&p).unwrap();
    assert!(!scan.is_compile_ready);
    assert_eq!(scan.warnings, vec!["未找到易语言安装目录：X:\\e".to_string()]);
}

#[test]
fn found_root_is_sorted_and_checked() {
    let lib = |n: &str| EasyLanguageLibraryInfo {
        name: n.to_string(),
        fne_path: format!("lib/{}.fne", n),
        help_dir: None,
        command_doc_count: 0,
        has_const_doc: false,
    };
    let p = EnvProbe {
        root: "D:\\e".to_string(),
        exists: true,
        e_exe: probe("D:\\e\\e.exe", true),
        el_exe: probe("D:\\e\\el.exe", false),
        help_dir: probe("D:\\e\\help", false),
        lib_dir: probe("D:\\e\\lib", true),
        ecom_dir: probe("D:\\e\\ecom", false),
        sdk_dir: probe("D:\\e\\sdk", false),
        tools_dir: probe("D:\\e\\tools", false),
        linker_dir: probe("D:\\e\\VC98linker", false),
        static_lib_dir: probe("D:\\e\\static_lib", true),
        tools: Vec::new(),
        support_libraries: vec![lib("spec"), lib("krnln"), lib("eAPI")],
        modules: vec![EasyLanguageModuleInfo { name: "b".into(), path: "b.ec".into(), bytes: 1 }],
        sample_e_files: 7,
        help_html_files: 9,
    };
    let scan = scan_easy_language_env(&p).unwrap();
    let names: Vec<&str> = scan.support_libraries.iter().map(|l| l.name.as_str()).collect();
    assert_eq!(names, vec!["eAPI", "krnln", "spec"]);
    assert_eq!(scan.e_exe.as_deref(), Some("D:\\e\\e.exe"));
    assert_eq!(scan.el_exe, None);
    assert_eq!(scan.counts.support_library_files, 3);
    assert_eq!(scan.counts.help_html_files, 0);
    assert_eq!(scan.counts.sample_e_files, 7);
    assert_eq!(scan.warnings, vec!["缺少ecom 模块目录".to_string()]);
}
