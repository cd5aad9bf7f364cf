use monodeps::cli::{Opts, OutputFormat};
use monodeps::config::{Config, DepPattern, Depsfile, Language};
use monodeps::files::{is_hidden, is_walked, scan_lines, EntryKind, FileEntry, FileTree};
use monodeps::output::{
    output, print_services, service_loc, service_locations, skip_first_line, validation,
};
use monodeps::path::PathInfo;
use monodeps::service::{AutoDependency, BuildTrigger, Service};
use monodeps::text::{
    between_quotes, chars_eq_ignore_ascii_case, from_chars, split_chars, split_lines,
    to_chars, trim_chars,
};

fn opts(format: OutputFormat, verbose: bool, relative: bool) -> Opts {
    Opts {
        target: PathInfo::new("/repo", "").unwrap(),
        config: Config::default(),
        output: format,
        verbose,
        relative,
        all: false,
        supported_roots: vec![],
    }
}

fn service(name: &str, trigger: Option<BuildTrigger>) -> Service {
    Service {
        path: PathInfo::new(name, "/repo").unwrap(),
        depsfile: Depsfile {
            dependencies: vec![],
            languages: vec![],
        },
        auto_dependencies: vec![],
        trigger,
    }
}

fn services() -> Vec<Service> {
    vec![
        service("svc/a", Some(BuildTrigger::FileChange)),
        service(
            "svc \"b\"",
            Some(BuildTrigger::Dependency("lib/x".to_string(), true)),
        ),
        service("/outside", None),
    ]
}

#[test]
fn plain_output() {
    let text = output(&services(), &opts(OutputFormat::Plain, false, false));

    assert_eq!(text, "/repo/svc/a\n/repo/svc \"b\"\n/outside\n");
}

#[test]
fn plain_output_verbose_and_relative() {
    let text = print_services(&services(), &opts(OutputFormat::Plain, true, true));

    assert_eq!(
        text,
        "./svc/a [FileChange]\n./svc \"b\" [Auto-Dependency(lib/x)]\n/outside []\n"
    );
}

#[test]
fn json_output() {
    let text = output(&services(), &opts(OutputFormat::Json, true, false));

    assert_eq!(text, "[\"/repo/svc/a\",\"/repo/svc \\\"b\\\"\",\"/outside\"]");
    assert_eq!(output(&vec![], &opts(OutputFormat::Json, false, false)), "[]");
}

#[test]
fn yaml_output_has_no_document_start() {
    let text = output(&services(), &opts(OutputFormat::Yaml, false, true));

    assert_eq!(text, "- \"./svc/a\"\n- \"./svc \\\"b\\\"\"\n- /outside\n");
}

#[test]
fn service_locations_follow_the_options() {
    let all = services();

    assert_eq!(
        service_loc(&all[0], &opts(OutputFormat::Plain, false, true)),
        "./svc/a"
    );
    assert_eq!(
        service_loc(&all[0], &opts(OutputFormat::Plain, false, false)),
        "/repo/svc/a"
    );
    assert_eq!(
        service_locations(&all, &opts(OutputFormat::Plain, false, true)),
        vec!["./svc/a", "./svc \"b\"", "/outside"]
    );
}

#[test]
fn first_line_is_skipped() {
    assert_eq!(skip_first_line("---\n- a\n- b"), "- a\n- b\n");
    assert_eq!(skip_first_line("---\r\n- a\r\n"), "- a\n");
    assert_eq!(skip_first_line("only"), "");
    assert_eq!(skip_first_line(""), "");
}

fn rich_service() -> Service {
    Service {
        path: PathInfo::new("svc", "/repo").unwrap(),
        depsfile: Depsfile {
            dependencies: vec![
                DepPattern::new("lib", "/repo").unwrap(),
                DepPattern::new("docs/*.md", "/repo").unwrap(),
            ],
            languages: vec![Language::Golang],
        },
        auto_dependencies: vec![
            AutoDependency {
                language: Language::Golang,
                pattern: DepPattern::new("pkg/some", "/repo").unwrap(),
            },
            AutoDependency {
                language: Language::Kustomize,
                pattern: DepPattern::new("k8s/base", "/repo").unwrap(),
            },
        ],
        trigger: None,
    }
}

#[test]
fn service_text() {
    assert_eq!(
        rich_service().to_text(),
        "Service{'/repo/svc',dependencies:['/repo/lib','docs/[^/\\\\]+\\.md'],auto_dependencies:['/repo/pkg/some [go]','/repo/k8s/base [kustomize]']}"
    );
    assert_eq!(
        service("a", None).to_text(),
        "Service{'/repo/a',dependencies:[],auto_dependencies:[]}"
    );
}

#[test]
fn validation_lists_dependencies() {
    let mut declared_only = rich_service();
    declared_only.auto_dependencies.clear();

    assert_eq!(
        validation(&rich_service()),
        "Dependencies (configured):\n  - /repo/lib\n  - docs/[^/\\\\]+\\.md\nDependencies (auto-discovered):\n  - /repo/pkg/some [go]\n  - /repo/k8s/base [kustomize]\n"
    );
    assert_eq!(
        validation(&declared_only),
        "Dependencies (configured):\n  - /repo/lib\n  - docs/[^/\\\\]+\\.md\n"
    );
    assert_eq!(validation(&service("a", None)), "");
}

#[test]
fn paths_are_equal_by_canonical_form() {
    let a = PathInfo::new("svc/../lib", "/repo").unwrap();
    let b = PathInfo::new("lib/", "/repo").unwrap();
    let c = PathInfo::new("lib2", "/repo").unwrap();

    assert_eq!(a == b, true);
    assert_eq!(a == c, false);
    assert_ne!(a.display_path, b.display_path);
}

#[test]
fn auto_dependency_text() {
    let dependency = AutoDependency {
        language: Language::Dotnet,
        pattern: DepPattern::new("lib", "/repo").unwrap(),
    };

    assert_eq!(dependency.to_text(), "/repo/lib [C#]");
}

fn text(chars: Vec<char>) -> String {
    from_chars(&chars)
}

fn texts(parts: Vec<Vec<char>>) -> Vec<String> {
    parts.iter().map(from_chars).collect()
}

#[test]
fn text_is_split_and_trimmed() {
    assert_eq!(texts(split_chars(&to_chars("a  b "), ' ')), vec!["a", "", "b", ""]);
    assert_eq!(texts(split_chars(&to_chars(""), ' ')), vec![""]);
    assert_eq!(texts(split_lines(&to_chars("a\r\nb\n\nc"))), vec!["a", "b", "", "c"]);
    assert_eq!(texts(split_lines(&to_chars("a\n"))), vec!["a"]);
    assert_eq!(texts(split_lines(&to_chars(""))).len(), 0);
    assert_eq!(texts(split_lines(&to_chars("\n"))), vec![""]);
    assert_eq!(texts(split_lines(&to_chars("a\r\nb\r"))), vec!["a", "b\r"]);
    assert_eq!(texts(split_lines(&to_chars("a\r\r\n"))), vec!["a\r"]);
    assert_eq!(text(trim_chars(&to_chars("//a/b//"), '/')), "a/b");
    assert_eq!(text(trim_chars(&to_chars("///"), '/')), "");
    assert_eq!(
        between_quotes(&to_chars("x 'a' 'b'"), '\'').map(text),
        Some("a".to_string())
    );
    assert_eq!(between_quotes(&to_chars("x 'a"), '\'').map(text), None);
    assert_eq!(
        chars_eq_ignore_ascii_case(&to_chars("WorkSpace"), &to_chars("workspace")),
        true
    );
    assert_eq!(
        chars_eq_ignore_ascii_case(&to_chars("workspace"), &to_chars("workspaces")),
        false
    );
    assert_eq!(text(to_chars("héllo → wörld")), "héllo → wörld");
}

#[test]
fn lines_are_read_up_to_the_limit() {
    let mut content = String::new();
    for i in 0..400 {
        content.push_str(&format!("line {}\n", i));
    }

    let lines = scan_lines(&content);

    assert_eq!(lines.len(), 300);
    assert_eq!(from_chars(&lines[299]), "line 299");
}

#[test]
fn walk_passes_over_hidden_entries() {
    let entry = |path: &str, kind: EntryKind| FileEntry {
        path: path.to_string(),
        kind,
        content: None,
        package: None,
    };
    let tree = FileTree {
        entries: vec![
            entry("/repo", EntryKind::Directory),
            entry("/repo/a", EntryKind::File),
            entry("/repo/.git", EntryKind::Directory),
            entry("/repo/.git/config", EntryKind::File),
            entry("/repo/node_modules", EntryKind::Directory),
            entry("/repo/node_modules/x/y", EntryKind::File),
            entry("/repo/sub", EntryKind::Directory),
            entry("/repo/sub/.env", EntryKind::File),
            entry("/repo/sub/b", EntryKind::File),
            entry("/repository/c", EntryKind::File),
            entry("/repo/sub/node_modules_2", EntryKind::File),
        ],
    };

    assert_eq!(tree.walk("/repo"), vec![0, 1, 6, 8, 10]);
    assert_eq!(tree.walk("/repo/sub"), vec![6, 8, 10]);
    assert_eq!(tree.walk("/repo/.git").len(), 0);
    assert_eq!(tree.walk("/missing").len(), 0);
    assert_eq!(tree.is_file("/repo/a"), true);
    assert_eq!(tree.is_file("/repo/sub"), false);
    assert_eq!(tree.is_dir("/repo/sub"), true);
    assert_eq!(tree.contains_path("/repo/nothing"), false);
    assert_eq!(tree.find("/repo/sub/b"), Some(8));
    assert_eq!(tree.read("/repo/a"), None);
    assert_eq!(is_hidden(&to_chars(".x")), true);
    assert_eq!(is_hidden(&to_chars("node_modules")), true);
    assert_eq!(is_hidden(&to_chars("x.y")), false);
    assert_eq!(is_walked(&to_chars("/a/b/c"), &to_chars("/a")), true);
    assert_eq!(is_walked(&to_chars("/a/.b/c"), &to_chars("/a")), false);
}
