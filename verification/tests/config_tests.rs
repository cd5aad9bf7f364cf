use monodeps::config::{
    AutoDiscoveryConfig, Config, DepPattern, Depsfile, DepsfileType, DotnetConfig, GoDepsConfig,
    Language, PatternError,
};
use monodeps::utils::{load_yaml, yaml_str_list, LoadError, YamlNode};

fn absolute(path: &str) -> String {
    std::path::absolute(path)
        .unwrap()
        .to_str()
        .unwrap()
        .to_owned()
}

#[test]
fn load_config() {
    let content = r#"
auto_discovery:
  go:
    package_prefixes:
      - foo/bar
  dotnet:
    package_namespaces:
      - Foo.Bar
global_dependencies:
  - justfile
"#;

    let result = Config::new(Some(content)).unwrap();

    assert_eq!(
        Config {
            auto_discovery: AutoDiscoveryConfig {
                go: GoDepsConfig {
                    package_prefixes: vec!["foo/bar".to_string()]
                },
                dotnet: DotnetConfig {
                    package_namespaces: vec!["Foo.Bar".to_string()]
                }
            },
            global_dependencies: vec!["justfile".to_string()]
        },
        result
    );
}

#[test]
fn load_config_missing_file() {
    assert_eq!(Config::new(None).unwrap_err(), LoadError::NotFound);
}

#[test]
fn load_config_malformed() {
    assert_eq!(
        Config::new(Some("a: [1, 2")).unwrap_err(),
        LoadError::Parse
    );
}

#[test]
fn load_config_empty_document() {
    let config = Config::new(Some("")).unwrap();

    assert_eq!(config, Config::default());
}

#[test]
fn load_depsfile_empty() {
    let depsfile = Depsfile::depsfile_from_yaml(&YamlNode::Text(String::new()), "");

    assert_eq!(depsfile.dependencies.is_empty(), true);
    assert_eq!(depsfile.languages.is_empty(), true);

    let loaded = Depsfile::load(DepsfileType::Depsfile, Some(""), "");

    assert_eq!(loaded.is_ok(), true);
}

#[test]
fn load_depsfile() {
    let content = r#"
languages:
  - go
  - dotnet
dependencies:
  - ../shared/auth
"#;

    let depsfile = Depsfile::load(DepsfileType::Depsfile, Some(content), ".").unwrap();

    assert_eq!(vec![Language::Golang, Language::Dotnet], depsfile.languages);
    assert_eq!(1, depsfile.dependencies.len());
}

#[test]
fn load_buildfile() {
    let content = r#"
spec:
  dependsOn:
    - ../shared/auth
metadata:
  builder: go
"#;

    let depsfile = Depsfile::load(DepsfileType::Buildfile, Some(content), ".").unwrap();

    assert_eq!(vec![Language::Golang], depsfile.languages);
    assert_eq!(1, depsfile.dependencies.len());
}

#[test]
fn load_buildfile_unknown_language() {
    let content = r#"
spec:
  dependsOn:
    - ../shared/auth
metadata:
  builder: whatever
"#;

    let depsfile = Depsfile::load(DepsfileType::Buildfile, Some(content), ".").unwrap();

    assert_eq!(true, depsfile.languages.is_empty());
    assert_eq!(1, depsfile.dependencies.len());
}

#[test]
fn load_config_no_dependencies() {
    let document = load_yaml(Some("spec:")).unwrap();
    let config = Depsfile::depsfile_from_yaml(&document, "");

    assert_eq!(config.dependencies.is_empty(), true);
    assert_eq!(config.languages.is_empty(), true);
}

#[test]
fn dep_pattern_basic() {
    let pat = DepPattern::new("domains/foo", ".").unwrap();

    assert_eq!(pat.is_match(&absolute("./domains/foo/something")), true);
    assert_eq!(pat.is_match("./domains/else/foo"), false);
}

#[test]
fn dep_pattern_wildcard() {
    let pat = DepPattern::new("domains/foo/services/*/proto", ".").unwrap();

    assert_eq!(pat.is_match("./domains/foo/services/bar/proto"), true);
    assert_eq!(pat.is_match("./domains/bar/services/bar/proto"), false);
}

#[test]
fn dep_pattern_dot() {
    let pat = DepPattern::new("domains/foo/services/.hidden", ".").unwrap();

    assert_eq!(
        pat.is_match(&absolute("./domains/foo/services/.hidden/stuff")),
        true
    );
    assert_eq!(pat.is_match("./domains/foo/services/xhidden/stuff"), false);
}

#[test]
fn dep_pattern_wildcard_dot() {
    let pat = DepPattern::new("domains/foo/*/.hidden", ".").unwrap();

    assert_eq!(pat.is_match("./domains/foo/services/.hidden/stuff"), true);
    assert_eq!(pat.is_match("./domains/foo/services/xhidden/stuff"), false);
}

#[test]
fn dep_pattern_wildcard_question_mark() {
    let pat = DepPattern::new("domains/foo/??hidden", ".").unwrap();

    assert_eq!(pat.is_match("./domains/foo/.xhidden/stuff"), true);
    assert_eq!(pat.is_match("./domains/foo/.hidden/stuff"), false);
}

fn compiled(glob: &str) -> DepPattern {
    let source: Vec<char> = monodeps::config::to_glob_regex(&glob.chars().collect());

    DepPattern {
        raw: monodeps::path::PathInfo::new(glob, "/").unwrap(),
        pattern: Some(source.into_iter().collect()),
    }
}

#[test]
fn glob_compilation() {
    assert_eq!(compiled("a.b").to_text(), "a\\.b");
    assert_eq!(compiled("a.b").is_match("a.b"), true);
    assert_eq!(compiled("a.b").is_match("axb"), false);
    assert_eq!(compiled("a/*/c").is_match("a/x/c"), true);
    assert_eq!(compiled("a/*/c").is_match("a/x/y/c"), false);
    assert_eq!(compiled("a/**/c").is_match("a/x/y/c"), true);
}

#[test]
fn glob_literal_dot() {
    let pat = DepPattern::new("a.b*", "/").unwrap();

    assert_eq!(pat.to_text(), "a\\.b[^/\\\\]+");
    assert_eq!(pat.is_match("a.bc"), true);
    assert_eq!(pat.is_match("axbc"), false);
}

#[test]
fn glob_single_star_stays_in_component() {
    let pat = DepPattern::new("a/*/c", "/").unwrap();

    assert_eq!(pat.to_text(), "a/[^/\\\\]+/c");
    assert_eq!(pat.is_match("a/x/c"), true);
    assert_eq!(pat.is_match("a/x/y/c"), false);
}

#[test]
fn glob_double_star_crosses_components() {
    let pat = DepPattern::new("a/**/c", "/").unwrap();

    assert_eq!(pat.to_text(), "a/.+/c");
    assert_eq!(pat.is_match("a/x/y/c"), true);
    assert_eq!(pat.is_match("a//c"), false);
}

#[test]
fn glob_question_mark_is_one_character() {
    let pat = DepPattern::new("a?c", "/").unwrap();

    assert_eq!(pat.to_text(), "a.c");
    assert_eq!(pat.is_match("abc"), true);
    assert_eq!(pat.is_match("ac"), false);
}

#[test]
fn glob_three_stars() {
    let pat = DepPattern::new("***", "/").unwrap();

    assert_eq!(pat.to_text(), ".+[^/\\\\]+");
}

#[test]
fn glob_that_does_not_compile_is_rejected() {
    let result = DepPattern::new("a(*", "/");

    assert_eq!(result.unwrap_err(), PatternError::InvalidPattern);
}

#[test]
fn literal_with_bracket_is_accepted() {
    let pat = DepPattern::new("a(b", "/repo").unwrap();

    assert_eq!(pat.hash(), Some("/repo/a(b"));
    assert_eq!(pat.is_match("/repo/a(b/c"), true);
}

#[test]
fn plain_pattern_keeps_wildcards_literal() {
    let pat = DepPattern::plain("src/*", "/repo").unwrap();

    assert_eq!(pat.hash(), Some("/repo/src/*"));
    assert_eq!(pat.is_match("/repo/src/*/x"), true);
    assert_eq!(pat.is_match("/repo/src/a/x"), false);
}

#[test]
fn pattern_child_of_and_hash() {
    let literal = DepPattern::new("svc/lib", "/repo").unwrap();
    let glob = DepPattern::new("svc/*", "/repo").unwrap();

    assert_eq!(literal.is_child_of("/repo/svc"), true);
    assert_eq!(literal.is_child_of("/repo/other"), false);
    assert_eq!(literal.hash(), Some("/repo/svc/lib"));
    assert_eq!(glob.is_child_of("/repo/svc"), false);
    assert_eq!(glob.hash(), None);
    assert_eq!(literal.to_text(), "/repo/svc/lib");
}

#[test]
fn pattern_matches_anywhere_for_globs() {
    let glob = DepPattern::new("b?d", "/repo").unwrap();

    assert_eq!(glob.is_match("/x/abcde"), true);
}

#[test]
fn depsfile_drops_invalid_dependencies_and_unknown_languages() {
    let content = r#"
languages:
  - go
  - cobol
  - flutter
  - csharp
  - kustomize
dependencies:
  - shared
  - "bad(*"
  - ""
  - lib/*
unknown: value
"#;

    let depsfile = Depsfile::load(DepsfileType::Depsfile, Some(content), "/repo").unwrap();

    assert_eq!(
        depsfile.languages,
        vec![
            Language::Golang,
            Language::Flutter,
            Language::Dotnet,
            Language::Kustomize
        ]
    );
    assert_eq!(depsfile.dependencies.len(), 2);
    assert_eq!(depsfile.dependencies[0].hash(), Some("/repo/shared"));
    assert_eq!(depsfile.dependencies[1].to_text(), "lib/[^/\\\\]+");
}

#[test]
fn depsfile_missing_and_malformed() {
    let missing = Depsfile::load(DepsfileType::Depsfile, None, "/repo");
    let malformed = Depsfile::load(DepsfileType::Buildfile, Some("a: [1"), "/repo");

    assert_eq!(missing.unwrap_err(), LoadError::NotFound);
    assert_eq!(malformed.unwrap_err(), LoadError::Parse);
}

#[test]
fn justfile_and_makefile_markers_declare_nothing() {
    let justfile = Depsfile::load(DepsfileType::Justfile, None, "/repo").unwrap();
    let makefile =
        Depsfile::load(DepsfileType::Makefile, Some("dependencies: [a]"), "/repo").unwrap();

    assert_eq!(justfile.dependencies.len(), 0);
    assert_eq!(justfile.languages.len(), 0);
    assert_eq!(makefile.dependencies.len(), 0);
    assert_eq!(makefile.languages.len(), 0);
}

#[test]
fn language_names() {
    assert_eq!(Language::from_name("go"), Some(Language::Golang));
    assert_eq!(Language::from_name("golang"), Some(Language::Golang));
    assert_eq!(Language::from_name("dotnet"), Some(Language::Dotnet));
    assert_eq!(Language::from_name("csharp"), Some(Language::Dotnet));
    assert_eq!(Language::from_name("dart"), Some(Language::Flutter));
    assert_eq!(Language::from_name("flutter"), Some(Language::Flutter));
    assert_eq!(Language::from_name("kustomize"), Some(Language::Kustomize));
    assert_eq!(Language::from_name("Go"), None);
    assert_eq!(Language::from_name(""), None);
    assert_eq!(Language::Dotnet.label(), "C#");
    assert_eq!(Language::Golang.label(), "go");
}

#[test]
fn auto_discovery_of_go_needs_prefixes() {
    let mut config = Config::default();

    assert_eq!(config.auto_discovery_enabled(&Language::Golang), false);
    assert_eq!(config.auto_discovery_enabled(&Language::Dotnet), true);
    assert_eq!(config.auto_discovery_enabled(&Language::Kustomize), true);

    config.auto_discovery.go.package_prefixes = vec!["example.com".to_string()];

    assert_eq!(config.auto_discovery_enabled(&Language::Golang), true);
}

#[test]
fn yaml_string_lists() {
    let document = load_yaml(Some("items: [a, '', 3, b]\nname: x")).unwrap();

    assert_eq!(
        yaml_str_list(document.get("items").unwrap()),
        vec!["a".to_string(), "b".to_string()]
    );
    assert_eq!(yaml_str_list(document.get("name").unwrap()).len(), 0);
    assert_eq!(document.get("missing").is_none(), true);
    assert_eq!(document.get("name").unwrap().as_str(), Some("x"));
}

#[test]
fn yaml_first_document_only() {
    let document = load_yaml(Some("a: 1\n---\nb: 2\n")).unwrap();

    assert_eq!(document.get("a").is_some(), true);
    assert_eq!(document.get("b").is_none(), true);
}

#[test]
fn marker_warnings() {
    let document = load_yaml(Some(
        "languages: [go, cobol, rust]\ndependencies: [ok, 'a[*', 'b(?']\nname: x\n3: y\n",
    ))
    .unwrap();

    let depsfile = Depsfile::warnings(DepsfileType::Depsfile, &document);
    let buildfile = Depsfile::warnings(DepsfileType::Buildfile, &document);
    let justfile = Depsfile::warnings(DepsfileType::Justfile, &document);
    let texts: Vec<String> = depsfile.iter().map(|w| w.to_text()).collect();

    assert_eq!(
        texts,
        vec![
            "unknown language: cobol",
            "unknown language: rust",
            "invalid dependency 'a[*'",
            "invalid dependency 'b(?'",
            "unknown configuration 'name'",
        ]
    );
    assert_eq!(buildfile.len(), 0);
    assert_eq!(justfile.len(), 0);
}

#[test]
fn buildfile_warnings() {
    let document =
        load_yaml(Some("spec:\n  dependsOn: ['x(*']\nmetadata:\n  builder: cobol\n")).unwrap();

    let warnings = Depsfile::warnings(DepsfileType::Buildfile, &document);

    assert_eq!(
        warnings,
        vec![monodeps::config::MarkerWarning::InvalidDependency(
            "x(*".to_string()
        )]
    );
    assert_eq!(monodeps::config::is_compilable("x(*"), false);
    assert_eq!(monodeps::config::is_compilable("x(("), true);
}
