use ruda::config::{
    canonicalize_dependencies, fix_path, merge_global, temp_into_config, DependencySource, GlobalConfig,
    ProjectKind, Runtime, TempConfig, TempDependencyTable, TempProfile, _3rdparty,
};
use ruda::lens::{searched, File, FileType, Lens, Message, Navigation, States};
use ruda::remote::{is_parse_safe, is_remote, package_dir, package_path};
use ruda::sum::{lines, sum_line, sums_agree, sums_text};
use ruda::context::Context;

fn s(x: &str) -> String {
    x.to_string()
}

#[test]
fn reads_runtime_versions() {
    assert_eq!(Runtime::from_str("latest"), Runtime::Latest);
    assert_eq!(Runtime::from_str("1.2.3"), Runtime::Version(1, 2, 3));
    assert_eq!(Runtime::from_str("+1.02.3.9"), Runtime::Version(1, 2, 3));
    assert_eq!(Runtime::from_str("0.10.0"), Runtime::Version(0, 10, 0));
}

#[test]
fn writes_runtime_versions() {
    assert_eq!(Runtime::Version(1, 20, 3).to_string(), "1.20.3");
    assert_eq!(Runtime::Latest.to_string(), "0.0.0");
    assert_eq!(Runtime::latest(), Runtime::Version(0, 0, 0));
    assert_eq!(Runtime::Version(usize::MAX, 0, 7).to_string(), format!("{}.0.7", usize::MAX));
}

#[test]
fn tells_remote_places() {
    assert!(is_remote("github.com/x/y"));
    assert!(is_remote("https://example.com/lib"));
    assert!(is_remote("libs/thing.git"));
    assert!(!is_remote("../local/lib"));
    assert!(!is_remote("gi"));
}

#[test]
fn fixes_dependency_places() {
    assert_eq!(fix_path("/project", "https://host/x.git"), "https://host/x.git");
    let local = fix_path("/project", "libs/a");
    assert!(local.ends_with("libs/a") || local.ends_with("libs\\a"));
    assert!(local.starts_with("/project"));
    let joined = fix_path("proj", "lib");
    assert!(joined == "proj/lib" || joined == "proj\\lib");
    assert_eq!(fix_path("proj/", "lib"), "proj/lib");
    assert_eq!(fix_path("", "lib"), "lib");
    assert_eq!(fix_path("proj", "./lib"), format!("proj{}./lib", std::path::MAIN_SEPARATOR));
}

fn table(version: Option<&str>, path: &str) -> TempDependencyTable {
    TempDependencyTable {
        version: version.map(s),
        path: Some(s(path)),
        profile: None,
        _3rdparty: Some(_3rdparty::Deny),
        args: Some(vec![s("-O")]),
    }
}

#[test]
fn resolves_dependencies() {
    let deps = vec![
        (s("net"), DependencySource::String(s("https://host/net.git"))),
        (s("math"), DependencySource::Struct(table(Some("1.0"), "git@host:math"))),
        (s("gfx"), DependencySource::Struct(table(None, "https://host/gfx"))),
    ];
    let out = canonicalize_dependencies("/p", &deps);
    assert_eq!(out.len(), 3);
    assert_eq!(out[0].0, "net");
    assert_eq!(out[0].1.version, "latest");
    assert_eq!(out[0].1.path, "https://host/net.git");
    assert_eq!(out[0].1.profile, "default");
    assert_eq!(out[0].1._3rdparty, _3rdparty::Allow);
    assert!(out[0].1.args.is_empty());
    assert_eq!(out[1].1.version, "1.0");
    assert_eq!(out[1].1.path, "git@host:math");
    assert_eq!(out[1].1._3rdparty, _3rdparty::Deny);
    assert_eq!(out[1].1.args, vec![s("-O")]);
    assert_eq!(out[2].1.version, "latest");
}

fn temp() -> TempConfig {
    TempConfig {
        name: Some(s("demo")),
        version: None,
        kind: Some(ProjectKind::Bin),
        author: None,
        license: Some(s("MIT")),
        description: None,
        runtime: None,
        _3rdparty: None,
        dependencies: vec![(s("net"), DependencySource::String(s("https://host/net.git")))],
        binaries: vec![(s("win"), s("win.dll"))],
        profile: vec![(
            s("default"),
            TempProfile {
                runtime: None,
                _3rdparty: Some(_3rdparty::Std),
                dependencies: vec![(s("net"), DependencySource::String(s("git://other/net")))],
                binaries: vec![],
            },
        )],
    }
}

fn global() -> GlobalConfig {
    GlobalConfig {
        author: s("someone"),
        license: s("GPL"),
        name: s("unnamed"),
        runtime: s("1.2.3"),
        version: s("0.1.0"),
        kind: ProjectKind::Lib,
        description: s("none"),
        _3rdparty: _3rdparty::Sandboxed,
    }
}

#[test]
fn fills_in_the_global_configuration() {
    let merged = merge_global(temp(), global());
    assert_eq!(merged.name, Some(s("demo")));
    assert_eq!(merged.license, Some(s("MIT")));
    assert_eq!(merged.author, Some(s("someone")));
    assert_eq!(merged.kind, Some(ProjectKind::Bin));
    assert_eq!(merged.runtime, Some(s("1.2.3")));
    assert_eq!(merged._3rdparty, Some(_3rdparty::Sandboxed));
    let p = &merged.profile[0].1;
    assert_eq!(p.runtime, Some(s("1.2.3")));
    assert_eq!(p._3rdparty, Some(_3rdparty::Std));
    assert_eq!(p.dependencies.len(), 1);
    assert!(matches!(&p.dependencies[0].1, DependencySource::String(x) if x == "git://other/net"));
    assert_eq!(p.binaries, vec![(s("win"), s("win.dll"))]);
}

#[test]
fn builds_the_configuration() {
    let c = temp_into_config("/p", merge_global(temp(), global()));
    assert_eq!(c.name, "demo");
    assert_eq!(c.version, "0.1.0");
    assert_eq!(c.runtime, Runtime::Version(1, 2, 3));
    assert_eq!(c._3rdparty, _3rdparty::Sandboxed);
    assert_eq!(c.dependencies.len(), 1);
    assert_eq!(c.dependencies[0].1.path, "https://host/net.git");
    assert_eq!(c.profile.len(), 1);
    assert_eq!(c.profile[0].0, "default");
    assert_eq!(c.profile[0].1.runtime, "1.2.3");
    assert_eq!(c.profile[0].1.dependencies[0].1.path, "git://other/net");
}

fn file(name: &str) -> File {
    File { name: s(name), file_type: FileType::Rd }
}

fn lens() -> Lens {
    Lens { objects: Context::new(vec![], vec![]), state: States::Main, history: (0, vec![]), project_name: s("demo") }
}

fn is_file(state: &States, name: &str) -> bool {
    matches!(state, States::File(f) if f.name == name)
}

#[test]
fn opening_a_page_and_going_back_returns() {
    let mut l = lens();
    l.update(Message::Page(States::File(file("a.rd"))));
    assert!(is_file(&l.state, "a.rd"));
    assert_eq!(l.history.0, 1);
    l.update(Message::Page(States::File(file("b.rd"))));
    assert_eq!(l.history.0, 2);
    l.update(Message::Navigation(Navigation::Back));
    assert!(is_file(&l.state, "a.rd"));
    assert_eq!(l.history.0, 1);
    l.update(Message::Navigation(Navigation::Back));
    assert!(matches!(l.state, States::Main));
    assert_eq!(l.history.0, 0);
    l.update(Message::Navigation(Navigation::Back));
    assert!(matches!(l.state, States::Main));
    l.update(Message::Navigation(Navigation::Forward));
    assert!(is_file(&l.state, "a.rd"));
    assert_eq!(l.history.0, 1);
    l.update(Message::Navigation(Navigation::Forward));
    assert!(is_file(&l.state, "a.rd"));
    assert_eq!(l.history.0, 1);
}

#[test]
fn opening_a_page_drops_the_pages_ahead() {
    let mut l = lens();
    l.open_page(States::File(file("a.rd")));
    l.open_page(States::File(file("b.rd")));
    l.back();
    l.back();
    l.open_page(States::File(file("c.rd")));
    assert_eq!(l.history.1.len(), 1);
    assert!(matches!(l.history.1[0], States::Main));
    assert_eq!(l.history.0, 1);
}

#[test]
fn places_of_pages() {
    assert_eq!(States::Main.into_path("demo"), "demo");
    assert_eq!(States::File(file("a.rd")).into_path("demo"), "demo:/a.rd");
    assert_eq!(States::Struct { file: file("a.rd"), ident: s("Point") }.into_path("demo"), "demo:/a.rd/Point");
    assert_eq!(
        States::Function { file: file("a.rd"), block: Some(s("Point")), ident: s("len") }.into_path("demo"),
        "demo:/a.rd/Point:len"
    );
    assert_eq!(States::Function { file: file("a.rd"), block: None, ident: s("go") }.into_path("p"), "p:/a.rd/go");
}

#[test]
fn sums_of_a_file() {
    let line = sum_line(b"abc", "src/main.rd");
    assert_eq!(
        line,
        "ba7816bf8f01cfea414140de5dae2223b00361a396177a9cb410ff61f20015ad \
ddaf35a193617abacc417349ae20413112e6fa4e89a97ea20a9eeee64b55d39a2192992a274fc1a836ba3c23a3feebbd454d4423643ce80e2a9ac94fa54ca49f \
src/main.rd"
    );
}

#[test]
fn lines_of_text() {
    assert_eq!(lines("a\nb\r\nc"), vec![s("a"), s("b"), s("c")]);
    assert_eq!(lines("a\n\nb\n"), vec![s("a"), s(""), s("b")]);
    assert_eq!(lines(""), Vec::<String>::new());
    assert_eq!(lines("x\r"), vec![s("x\r")]);
}

#[test]
fn written_sums_read_back() {
    let sums = vec![s("1 2 a.rd"), s("3 4 b.rd")];
    let text = sums_text(&sums);
    assert_eq!(text, "1 2 a.rd\n3 4 b.rd\n");
    assert_eq!(lines(&text), sums);
    assert!(sums_agree(&sums, &lines(&text)));
    assert!(!sums_agree(&sums, &vec![s("1 2 a.rd")]));
    assert!(!sums_agree(&sums, &vec![s("1 2 a.rd"), s("3 5 b.rd")]));
}

#[test]
fn imports_are_sorted_and_unique() {
    let mut imports = vec![s("b"), s("a")];
    ruda::new_imports(&mut imports, vec![s("c"), s("a"), s("ab")]);
    assert_eq!(imports, vec![s("a"), s("ab"), s("b"), s("c")]);
    let mut none = Vec::new();
    ruda::new_imports(&mut none, vec![]);
    assert!(none.is_empty());
}

#[test]
fn places_of_packages() {
    assert_eq!(package_path("/ruda", "libs/a"), Some("libs/a".to_string()));
    let p = package_path("/ruda", "https://github.com/someone/thing.git").unwrap();
    let sep = std::path::MAIN_SEPARATOR;
    assert_eq!(p, format!("/ruda{sep}packages{sep}someone{sep}thing"));
    let q = package_dir("/ruda/", &None, "thing");
    assert_eq!(q, format!("/ruda/packages{sep}thing"));
    assert!(is_parse_safe("https://github.com/someone/thing.git"));
    assert!(!is_parse_safe("https://dev.AZURE.com/x"));
    assert!(!is_parse_safe("https://host/%41"));
    assert!(!is_parse_safe("https://h\u{f6}st/x"));
    assert!(is_parse_safe("ssh://host/"));
    assert_eq!(package_path("/ruda", "ssh://host/"), None);
    assert!(!is_parse_safe("ssh:x"));
    assert!(!is_parse_safe("ssh://host/a/./b"));
    assert!(!is_parse_safe("ssh://host/a?b"));
    assert!(!is_parse_safe("https://host/.git"));
    assert!(is_parse_safe("git@github.com:user/repo.git"));
    assert!(is_parse_safe("ssh://host/ab/"));
}

#[test]
fn printed_versions_read_back() {
    for v in [Runtime::Version(1, 22, 333), Runtime::Version(0, 0, 0), Runtime::Version(10, 0, 7)] {
        assert_eq!(Runtime::from_str(&v.to_string()), v);
    }
    assert_eq!(Runtime::from_str("latest"), Runtime::Latest);
    assert_eq!(Runtime::from_str("1.2.3.4"), Runtime::Version(1, 2, 3));
}

#[test]
fn ranks_of_searched_objects() {
    assert_eq!(searched("", "anything"), Some(i32::MAX));
    assert_eq!(searched("abc", "abc"), Some(i32::MAX));
    assert_eq!(searched("ABC", "abc"), Some(i32::MAX / 2));
    assert_eq!(searched("bc", "abcd"), Some(i32::MAX / 3));
    assert_eq!(searched("BC", "abcd"), Some(i32::MAX / 4));
    assert_eq!(searched("axc", "abc"), Some(4));
    assert_eq!(searched("aXc", "axcd"), Some(i32::MAX / 4));
    assert_eq!(searched("Xbd", "xbc"), Some(1 + 3));
    assert_eq!(searched("zz", "ab"), None);
}
