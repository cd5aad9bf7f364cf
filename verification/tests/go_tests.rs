use monodeps::cli::{Opts, OutputFormat};
use monodeps::config::{AutoDiscoveryConfig, Config, DotnetConfig, GoDepsConfig};
use monodeps::files::{EntryKind, FileEntry, FileTree};
use monodeps::path::PathInfo;
use monodeps::service::go::{extract_from_line, find_imports, GoAnalyzer};
use monodeps::service::AnalyzerError;

const GO_IMPORT01: &str = r#"package main

import (
	"fmt"
	"os"

	"dev.azure.com/foo/bar/pkg/some"
	retry "dev.azure.com/foo/bar/pkg/retry"
	"github.com/other/lib"
)

func main() {
	fmt.Println("dev.azure.com/foo/bar/pkg/ignored")
}
"#;

const GO_IMPORT02: &str = r#"package main

import "fmt"
import "dev.azure.com/foo/bar/pkg/some"
import retry "dev.azure.com/foo/bar/pkg/retry"

func main() {}
"#;

fn config(prefix: &str) -> GoDepsConfig {
    GoDepsConfig {
        package_prefixes: vec![String::from(prefix)],
    }
}

fn lines(text: &str) -> Vec<String> {
    text.lines().map(String::from).collect()
}

#[test]
fn grouped_imports_with_matching_prefix() {
    let imports = find_imports(lines(GO_IMPORT01), &config("dev.azure.com/foo/bar")).unwrap();

    assert_eq!(imports, vec!["pkg/some", "pkg/retry"]);
}

#[test]
fn grouped_imports_without_matching_prefix() {
    let imports = find_imports(lines(GO_IMPORT01), &config("dev.azure.com/bar/foo")).unwrap();

    assert_eq!(imports.len(), 0);
}

#[test]
fn single_imports_with_matching_prefix() {
    let imports = find_imports(lines(GO_IMPORT02), &config("dev.azure.com/foo/bar")).unwrap();

    assert_eq!(imports, vec!["pkg/some", "pkg/retry"]);
}

#[test]
fn import_line_strips_prefix_once_and_slashes() {
    let cfg = config("example.com/");

    assert_eq!(
        extract_from_line("import \"example.com/example.com//a/b/\"", &cfg),
        Some("example.com//a/b".to_string())
    );
    assert_eq!(
        extract_from_line("import \"example.com//a/b/\"", &cfg),
        Some("a/b".to_string())
    );
    assert_eq!(
        extract_from_line("import \"foo/foo/bar\"", &config("foo/")),
        Some("foo/bar".to_string())
    );
    assert_eq!(extract_from_line("import \"other.org/a\"", &cfg), None);
    assert_eq!(extract_from_line("import \"example.com/a", &cfg), None);
    assert_eq!(extract_from_line("import example.com/a", &cfg), None);
}

#[test]
fn first_matching_prefix_counts() {
    let cfg = GoDepsConfig {
        package_prefixes: vec!["a/b".to_string(), "a".to_string()],
    };

    assert_eq!(
        extract_from_line("import \"a/b/c\"", &cfg),
        Some("c".to_string())
    );
    assert_eq!(
        extract_from_line("import \"a/x\"", &cfg),
        Some("x".to_string())
    );
}

#[test]
fn imports_beyond_the_line_limit_are_ignored() {
    let mut text: Vec<String> = Vec::new();
    for _ in 0..299 {
        text.push(String::new());
    }
    text.push("import \"p/first\"".to_string());
    text.push("import \"p/second\"".to_string());

    let imports = find_imports(text, &config("p")).unwrap();

    assert_eq!(imports, vec!["first"]);
}

fn opts(prefixes: Vec<String>) -> Opts {
    Opts {
        target: PathInfo::new("/repo", "").unwrap(),
        config: Config {
            auto_discovery: AutoDiscoveryConfig {
                go: GoDepsConfig {
                    package_prefixes: prefixes,
                },
                dotnet: DotnetConfig {
                    package_namespaces: vec![],
                },
            },
            global_dependencies: vec![],
        },
        output: OutputFormat::Plain,
        verbose: false,
        relative: false,
        all: false,
        supported_roots: vec![],
    }
}

fn file(path: &str, content: Option<&str>) -> FileEntry {
    FileEntry {
        path: path.to_string(),
        kind: EntryKind::File,
        content: content.map(String::from),
        package: None,
    }
}

#[test]
fn go_dependencies_are_unique_and_below_the_root() {
    let tree = FileTree {
        entries: vec![
            file("/repo/svc/a.go", Some("import \"p/lib/x\"\nimport \"p/lib/y\"\n")),
            file("/repo/svc/b.go", Some("import (\n\"p/lib/y\"\n\"p/lib/z\"\n)\n")),
        ],
    };
    let analyzer = GoAnalyzer {};

    let deps = analyzer
        .dependencies(&tree, &vec![0, 1], &opts(vec!["p".to_string()]))
        .unwrap();
    let found: Vec<Option<&str>> = deps.iter().map(|d| d.hash()).collect();

    assert_eq!(
        found,
        vec![
            Some("/repo/lib/x"),
            Some("/repo/lib/y"),
            Some("/repo/lib/z")
        ]
    );
    assert_eq!(analyzer.file_relevant("main.go"), true);
    assert_eq!(analyzer.file_relevant("main.rs"), false);
}

#[test]
fn go_dependencies_are_literal_patterns() {
    let tree = FileTree {
        entries: vec![file("/repo/svc/a.go", Some("import \"p/lib/x*\"\n"))],
    };

    let deps = (GoAnalyzer {})
        .dependencies(&tree, &vec![0], &opts(vec!["p".to_string()]))
        .unwrap();

    assert_eq!(deps.len(), 1);
    assert_eq!(deps[0].hash(), Some("/repo/lib/x*"));
}

#[test]
fn go_dependencies_fail_on_unreadable_source() {
    let tree = FileTree {
        entries: vec![file("/repo/svc/a.go", None)],
    };

    let result = (GoAnalyzer {}).dependencies(&tree, &vec![0], &opts(vec!["p".to_string()]));

    assert_eq!(result.unwrap_err(), AnalyzerError::Unreadable);
}
