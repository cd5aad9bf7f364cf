use monodeps::cli::{Opts, OutputFormat};
use monodeps::config::{
    AutoDiscoveryConfig, Config, DepPattern, DotnetConfig, GoDepsConfig, Language, PatternError,
};
use monodeps::discovery::Analyzer;
use monodeps::files::{EntryKind, FileEntry, FileTree, PackageJson};
use monodeps::path::PathInfo;
use monodeps::service::dotnet::{
    extract_project_dir, find_all_directory_files, parents_until_root, to_directory_file,
    DirectoryFile, DotnetAnalyzer,
};
use monodeps::service::finder::{LineRule, ReferenceFinder};
use monodeps::service::flutter::{
    find_assets, find_fonts, find_local_dependencies, try_parse_workspace_pubspec,
    FlutterAnalyzer,
};
use monodeps::service::javascript::{load_packages, JavaScriptAnalyzer};
use monodeps::service::justfile::{extract_from_line, JustfileAnalyzer};
use monodeps::service::kustomize::{parse_kustomization, KustomizeAnalyzer};
use monodeps::service::makefile::MakefileAnalyzer;
use monodeps::service::proto::{find_all_proto_files, is_proto, ProtoAnalyzer};
use monodeps::service::{try_determine_language, AnalyzerError};
use monodeps::utils::load_yaml;

const CSPROJ01: &str = r#"<Project Sdk="Microsoft.NET.Sdk">

  <PropertyGroup>
    <TargetFramework>net8.0</TargetFramework>
  </PropertyGroup>

  <ItemGroup>
    <PackageReference Include="Newtonsoft.Json" Version="13.0.1" />
    <ProjectReference Include="..\Common.Tracing\Common.Tracing.csproj" />
    <ProjectReference Include="..\Common.Logging\Common.Logging.csproj" />
    <ProjectReference />
  </ItemGroup>

</Project>
"#;

fn dir(path: &str) -> FileEntry {
    FileEntry {
        path: path.to_string(),
        kind: EntryKind::Directory,
        content: None,
        package: None,
    }
}

fn file(path: &str, content: &str) -> FileEntry {
    FileEntry {
        path: path.to_string(),
        kind: EntryKind::File,
        content: Some(content.to_string()),
        package: None,
    }
}

fn manifest(path: &str, name: &str, dev: Vec<&str>, deps: Vec<&str>) -> FileEntry {
    FileEntry {
        path: path.to_string(),
        kind: EntryKind::File,
        content: None,
        package: Some(PackageJson {
            name: name.to_string(),
            dev_dependencies: dev.iter().map(|d| d.to_string()).collect(),
            dependencies: deps.iter().map(|d| d.to_string()).collect(),
        }),
    }
}

fn empty_tree() -> FileTree {
    FileTree { entries: vec![] }
}

fn opts(root: &str, namespaces: Vec<&str>) -> Opts {
    Opts {
        target: PathInfo::new(root, "").unwrap(),
        config: Config {
            auto_discovery: AutoDiscoveryConfig {
                go: GoDepsConfig {
                    package_prefixes: vec![],
                },
                dotnet: DotnetConfig {
                    package_namespaces: namespaces.iter().map(|n| n.to_string()).collect(),
                },
            },
            global_dependencies: vec![],
        },
        output: OutputFormat::Plain,
        verbose: false,
        relative: false,
        all: false,
        supported_roots: vec![],
    }
}

fn hashes(patterns: &Vec<DepPattern>) -> Vec<String> {
    patterns
        .iter()
        .map(|p| p.hash().unwrap_or("<glob>").to_string())
        .collect()
}

// .NET

#[test]
fn extract_references() {
    let namespaces = vec![];
    let root = PathInfo::new(".", ".").unwrap();
    let analyzer = DotnetAnalyzer::new(root, &empty_tree()).unwrap();
    let mut extracted = analyzer
        .extract_project_references(CSPROJ01, &namespaces)
        .unwrap();

    // for stable comparison
    extracted.sort();

    assert_eq!(extracted.len(), 2, "number of project references");
    assert_eq!(
        extracted,
        vec![
            String::from("../Common.Logging"),
            String::from("../Common.Tracing"),
        ]
    );
}

#[test]
fn filter_references_by_namespaces() {
    let root = PathInfo::new(".", ".").unwrap();
    let namespaces = vec![String::from("Common.Logging")];
    let analyzer = DotnetAnalyzer::new(root, &empty_tree()).unwrap();
    let mut extracted = analyzer
        .extract_project_references(CSPROJ01, &namespaces)
        .unwrap();

    // for stable comparison
    extracted.sort();

    assert_eq!(extracted.len(), 1, "number of project references");
    assert_eq!(extracted, vec![String::from("../Common.Logging"),]);
}

#[test]
fn references_come_in_document_order() {
    let root = PathInfo::new("/repo", "").unwrap();
    let analyzer = DotnetAnalyzer::new(root, &empty_tree()).unwrap();

    let extracted = analyzer
        .extract_project_references(CSPROJ01, &vec![])
        .unwrap();

    assert_eq!(
        extracted,
        vec![
            String::from("../Common.Tracing"),
            String::from("../Common.Logging"),
        ]
    );
}

#[test]
fn filter_references_by_other_namespace_gives_nothing() {
    let root = PathInfo::new("/repo", "").unwrap();
    let analyzer = DotnetAnalyzer::new(root, &empty_tree()).unwrap();

    let extracted = analyzer
        .extract_project_references(CSPROJ01, &vec![String::from("Other")])
        .unwrap();

    assert_eq!(extracted.len(), 0);
}

#[test]
fn malformed_project_file_is_an_error() {
    let root = PathInfo::new("/repo", "").unwrap();
    let analyzer = DotnetAnalyzer::new(root, &empty_tree()).unwrap();

    let result = analyzer.extract_project_references("<Project><ItemGroup>", &vec![]);

    assert_eq!(result.unwrap_err(), AnalyzerError::Parse);
}

#[test]
fn project_directory_and_name() {
    let import = extract_project_dir("..\\Common.Logging\\Common.Logging.csproj").unwrap();

    assert_eq!(import.service_dir, "../Common.Logging");
    assert_eq!(import.name, "Common.Logging");
    assert_eq!(extract_project_dir("Local.csproj").is_none(), true);
    assert_eq!(extract_project_dir("").is_none(), true);
    assert_eq!(extract_project_dir("a/..").is_none(), true);

    let mixed = extract_project_dir("../lib/sub\\Lib.Core.csproj").unwrap();

    assert_eq!(mixed.service_dir, "../lib/sub");
    assert_eq!(mixed.name, "Lib.Core");
}

#[test]
fn dotnet_dependencies_with_directory_files() {
    let tree = FileTree {
        entries: vec![
            dir("/repo"),
            file("/repo/Directory.Build.props", "<Project/>"),
            file("/repo/Directory.Packages.props", "<Project/>"),
            dir("/repo/src"),
            file("/repo/src/Directory.Build.props", "<Project/>"),
            dir("/repo/src/App"),
            file("/repo/src/App/App.csproj", &format!("\u{feff}{}", CSPROJ01)),
            dir("/repo/src/Common.Logging"),
            dir("/repo/other"),
            file("/repo/other/Directory.Build.targets", "<Project/>"),
        ],
    };
    let options = opts("/repo", vec!["Common.Logging"]);
    let analyzer = DotnetAnalyzer::new(PathInfo::new("/repo", "").unwrap(), &tree).unwrap();

    let deps = analyzer
        .dependencies(&tree, &vec![6], "/repo/src/App", &options)
        .unwrap();

    assert_eq!(
        hashes(&deps),
        vec![
            "/repo/src/Common.Logging",
            "/repo/src/Directory.Build.props",
            "/repo/Directory.Packages.props",
        ]
    );
    assert_eq!(analyzer.file_relevant("app.csproj"), true);
    assert_eq!(analyzer.file_relevant("app.csproj.user"), false);
}

#[test]
fn one_byte_order_mark_is_taken_off() {
    let tree = FileTree {
        entries: vec![
            file("/repo/App/App.csproj", &format!("\u{feff}\u{feff}{}", CSPROJ01)),
            file("/repo/Lib/Lib.csproj", &format!("\u{feff}{}", CSPROJ01)),
        ],
    };
    let analyzer = DotnetAnalyzer::new(PathInfo::new("/repo", "").unwrap(), &tree).unwrap();

    let twice = analyzer.dependencies(&tree, &vec![0], "/repo/App", &opts("/repo", vec![]));
    let once = analyzer.dependencies(&tree, &vec![1], "/repo/Lib", &opts("/repo", vec![]));

    assert_eq!(twice.unwrap_err(), AnalyzerError::Parse);
    assert_eq!(once.unwrap().len(), 2);
}

#[test]
fn dotnet_dependencies_fail_on_unreadable_project() {
    let tree = FileTree {
        entries: vec![FileEntry {
            path: "/repo/App/App.csproj".to_string(),
            kind: EntryKind::File,
            content: None,
            package: None,
        }],
    };
    let analyzer = DotnetAnalyzer::new(PathInfo::new("/repo", "").unwrap(), &tree).unwrap();

    let result = analyzer.dependencies(&tree, &vec![0], "/repo/App", &opts("/repo", vec![]));

    assert_eq!(result.unwrap_err(), AnalyzerError::Unreadable);
}

#[test]
fn directory_files_and_parents() {
    let tree = FileTree {
        entries: vec![
            dir("/repo"),
            file("/repo/Directory.Build.props", ""),
            dir("/repo/a"),
            file("/repo/a/Directory.Packages.props", ""),
            file("/repo/a/directory.build.props", ""),
        ],
    };

    let found = find_all_directory_files(&tree, "/repo");
    let parents = parents_until_root("/repo/a/b", &PathInfo::new("/repo", "").unwrap());
    let outside = parents_until_root("/other/x", &PathInfo::new("/repo", "").unwrap());

    assert_eq!(found.len(), 2);
    assert_eq!(found[0].kind, DirectoryFile::BuildProps);
    assert_eq!(found[0].dir, "/repo");
    assert_eq!(found[1].kind, DirectoryFile::PackagesProps);
    assert_eq!(found[1].dir, "/repo/a");
    assert_eq!(parents, vec!["/repo/a/b", "/repo/a", "/repo"]);
    assert_eq!(outside, vec!["/other/x", "/other", "/"]);
    assert_eq!(DirectoryFile::BuildTargets.filename(), "Directory.Build.targets");
    assert_eq!(to_directory_file("/x/Directory.Build.targets").is_some(), true);
    assert_eq!(to_directory_file("/x/Other.props").is_none(), true);
}

// justfile

fn extract(line: &str, dir: &str) -> Option<String> {
    let pattern = extract_from_line(line, dir, &empty_tree())?;
    let hash = pattern.hash()?;

    Some(hash.to_string())
}

#[test]
fn no_match_invalid() {
    assert_eq!(None, extract("whatever this is", "/tmp"));
}

#[test]
fn no_match_import_not_beginning() {
    assert_eq!(None, extract("whatever this import is", "/tmp"));
}

#[test]
fn no_match_import_no_content() {
    assert_eq!(None, extract("import '", "/tmp"));
}

#[test]
fn match_some_import() {
    assert_eq!(
        Some("/tmp/some/usr/share/justfile".to_string()),
        extract("import '../usr/share/justfile'", "/tmp/some/where")
    );
}

#[test]
fn submodule_with_path() {
    assert_eq!(
        Some("/repo/tools/build.just".to_string()),
        extract("mod build '../tools/build.just'", "/repo/svc")
    );
}

#[test]
fn submodule_by_name_takes_first_candidate_that_is_a_file() {
    let tree = FileTree {
        entries: vec![
            dir("/repo/svc/foo"),
            file("/repo/svc/foo/justfile", ""),
            file("/repo/svc/foo/.justfile", ""),
            dir("/repo/svc/bar.just"),
            file("/repo/svc/bar/mod.just", ""),
        ],
    };

    let foo = extract_from_line("mod foo", "/repo/svc", &tree).unwrap();
    let bar = extract_from_line("mod bar", "/repo/svc", &tree).unwrap();

    assert_eq!(foo.hash(), Some("/repo/svc/foo/justfile"));
    assert_eq!(foo.raw.display_path, "/repo/svc/./foo/justfile");
    assert_eq!(bar.hash(), Some("/repo/svc/bar/mod.just"));
    assert_eq!(extract_from_line("mod baz", "/repo/svc", &tree).is_none(), true);
    assert_eq!(extract_from_line("mod foo bar", "/repo/svc", &tree).is_none(), true);
}

#[test]
fn justfile_imports_are_followed_children_first() {
    let tree = FileTree {
        entries: vec![
            file("/repo/svc/justfile", "import 'a.just'\nimport '../b.just'\nimport 'a.just'\n"),
            file("/repo/svc/a.just", "import '../b.just'\nimport 'justfile'\n"),
            file("/repo/b.just", "import 'missing.just'\n"),
        ],
    };

    let deps = (JustfileAnalyzer {}).dependencies(&tree, &vec![0]).unwrap();

    assert_eq!(
        hashes(&deps),
        vec![
            "/repo/missing.just",
            "/repo/b.just",
            "/repo/svc/justfile",
            "/repo/svc/a.just",
            "/repo/b.just",
            "/repo/svc/a.just",
        ]
    );
    assert_eq!((JustfileAnalyzer {}).file_relevant("justfile"), true);
    assert_eq!((JustfileAnalyzer {}).file_relevant("lib.just"), true);
    assert_eq!((JustfileAnalyzer {}).file_relevant("justfile.txt"), false);
}

#[test]
fn following_fails_on_unreadable_file() {
    let tree = FileTree {
        entries: vec![
            file("/repo/svc/justfile", "import 'a.just'\n"),
            FileEntry {
                path: "/repo/svc/a.just".to_string(),
                kind: EntryKind::File,
                content: None,
                package: None,
            },
        ],
    };

    let result = (JustfileAnalyzer {}).dependencies(&tree, &vec![0]);

    assert_eq!(result.unwrap_err(), AnalyzerError::Unreadable);
}

#[test]
fn following_the_root_path_has_no_parent() {
    let tree = FileTree {
        entries: vec![file("/repo/svc/justfile", "import '/'\n")],
    };
    let mut finder = ReferenceFinder::new(&tree);

    let result = finder.extract_from(&tree, &LineRule::Justfile, "/repo/svc/justfile");

    assert_eq!(result.unwrap_err(), AnalyzerError::NoParent);
}

#[test]
fn following_reads_no_more_than_the_line_limit() {
    let mut content = String::new();
    for _ in 0..299 {
        content.push('\n');
    }
    content.push_str("import 'first.just'\nimport 'second.just'\n");
    let tree = FileTree {
        entries: vec![file("/repo/svc/justfile", &content)],
    };

    let deps = (JustfileAnalyzer {}).dependencies(&tree, &vec![0]).unwrap();

    assert_eq!(hashes(&deps), vec!["/repo/svc/first.just"]);
}

// Makefile

fn from_line(line: &str) -> Vec<DepPattern> {
    let analyzer = MakefileAnalyzer::new().unwrap();

    analyzer.extract_from_line(line, ".")
}

#[test]
fn extract_no_include() {
    let extract = from_line(".PHONY: test");

    assert_eq!(0, extract.len());
}

#[test]
fn extract_basic_include() {
    let extract = from_line("include ../foo.mk");

    assert_eq!(1, extract.len());
}

#[test]
fn extract_multiple_includes() {
    let extract = from_line("include ../foo.mk ../bar/Makefile");

    assert_eq!(2, extract.len());
}

#[test]
fn extract_exclude_variables() {
    let extract = from_line("include $(ROOT_DIR)/include.mk");

    assert_eq!(0, extract.len());
}

#[test]
fn makefile_includes_are_literal_patterns_below_the_directory() {
    let analyzer = MakefileAnalyzer::new().unwrap();

    let extract = analyzer.extract_from_line("include ../a.mk $(X)/b.mk c/*.mk", "/repo/svc");

    assert_eq!(hashes(&extract), vec!["/repo/a.mk", "/repo/svc/c/*.mk"]);
    assert_eq!(analyzer.file_relevant("makefile"), true);
    assert_eq!(analyzer.file_relevant("Makefile"), false);
}

#[test]
fn makefile_includes_are_followed() {
    let tree = FileTree {
        entries: vec![
            file("/repo/svc/Makefile", "include ../common.mk\nall:\n"),
            file("/repo/common.mk", "include base.mk $(GEN).mk\n"),
        ],
    };
    let analyzer = MakefileAnalyzer::new().unwrap();

    let deps = analyzer.dependencies(&tree, &vec![0]).unwrap();

    assert_eq!(hashes(&deps), vec!["/repo/base.mk", "/repo/common.mk"]);
}

// Kustomize

fn kustomize(tree: &FileTree, base_dir: &str) -> Result<Vec<DepPattern>, AnalyzerError> {
    let files = Analyzer::gather_file_candidates(Language::Kustomize, tree, base_dir);

    (KustomizeAnalyzer {}).dependencies(tree, &files)
}

#[test]
fn test_simple_kustomization() {
    let tree = FileTree {
        entries: vec![
            dir("/tmp/mdtest"),
            file(
                "/tmp/mdtest/kustomization.yaml",
                r#"
resources:
  - resource1.yaml
  - resource2.yaml
"#,
            ),
            file("/tmp/mdtest/resource1.yaml", ""),
            file("/tmp/mdtest/resource2.yaml", ""),
        ],
    };

    let deps = kustomize(&tree, "/tmp/mdtest").unwrap();

    assert_eq!(deps.len(), 2);
}

#[test]
fn test_directory_dependencies() {
    let tree = FileTree {
        entries: vec![
            dir("/tmp/mdtest"),
            file(
                "/tmp/mdtest/kustomization.yaml",
                r#"
resources:
  - sub
"#,
            ),
            dir("/tmp/mdtest/sub"),
            file(
                "/tmp/mdtest/sub/kustomization.yaml",
                r#"
resources:
  - sub_resource.yaml
"#,
            ),
            file("/tmp/mdtest/sub/sub_resource.yaml", ""),
        ],
    };

    let deps = kustomize(&tree, "/tmp/mdtest").unwrap();

    assert_eq!(deps.len(), 2);
}

#[test]
fn test_bases_and_components() {
    let tree = FileTree {
        entries: vec![
            dir("/tmp/mdtest"),
            file(
                "/tmp/mdtest/kustomization.yaml",
                r#"
bases:
  - base

components:
  - component
"#,
            ),
            dir("/tmp/mdtest/base"),
            file(
                "/tmp/mdtest/base/kustomization.yaml",
                r#"
resources:
  - base_resource.yaml
"#,
            ),
            file("/tmp/mdtest/base/base_resource.yaml", ""),
            dir("/tmp/mdtest/component"),
            file(
                "/tmp/mdtest/component/kustomization.yaml",
                r#"
resources:
  - component_resource.yaml
"#,
            ),
            file("/tmp/mdtest/component/component_resource.yaml", ""),
        ],
    };

    let deps = kustomize(&tree, "/tmp/mdtest").unwrap();

    assert_eq!(deps.len(), 4);
}

#[test]
fn test_patches_and_config_map_generator() {
    let tree = FileTree {
        entries: vec![
            dir("/tmp/mdtest"),
            file(
                "/tmp/mdtest/kustomization.yaml",
                r#"
patches:
  - path: patch1.yaml
  - path: patch2.yaml

configMapGenerator:
  - name: my-config
    files:
      - config.properties
"#,
            ),
            file("/tmp/mdtest/patch1.yaml", ""),
            file("/tmp/mdtest/patch2.yaml", ""),
            file("/tmp/mdtest/config.properties", ""),
        ],
    };

    let deps = kustomize(&tree, "/tmp/mdtest").unwrap();

    assert_eq!(deps.len(), 3);
}

#[test]
fn test_cyclic_dependency() {
    let tree = FileTree {
        entries: vec![
            dir("/tmp/mdtest"),
            file(
                "/tmp/mdtest/kustomization.yaml",
                r#"
resources:
  - sub
"#,
            ),
            dir("/tmp/mdtest/sub"),
            file(
                "/tmp/mdtest/sub/kustomization.yaml",
                &format!(
                    r#"
resources:
  - {}
"#,
                    "/tmp/mdtest"
                ),
            ),
        ],
    };

    let result = (KustomizeAnalyzer {}).dependencies(&tree, &vec![1]);

    assert!(result.is_err());
    assert!(result
        .unwrap_err()
        .describe()
        .contains("cyclic dependency"));
}

#[test]
fn kustomization_visited_before_changes_nothing() {
    let tree = FileTree {
        entries: vec![
            dir("/tmp/mdtest"),
            file(
                "/tmp/mdtest/kustomization.yaml",
                "resources:\n  - resource1.yaml\n",
            ),
            file("/tmp/mdtest/resource1.yaml", ""),
        ],
    };
    let mut visited = vec![false, true, false];
    let mut found = vec![DepPattern::new("earlier", "/tmp/mdtest").unwrap()];

    let result = parse_kustomization(
        &tree,
        "/tmp/mdtest/./kustomization.yaml",
        &mut visited,
        &mut found,
    );

    assert_eq!(result, Err(AnalyzerError::Cycle));
    assert!(AnalyzerError::Cycle.describe().contains("cyclic dependency"));
    assert_eq!(visited, vec![false, true, false]);
    assert_eq!(found.len(), 1);
    assert_eq!(found[0].hash(), Some("/tmp/mdtest/earlier"));
}

#[test]
fn kustomization_that_gives_up_keeps_what_was_found() {
    let tree = FileTree {
        entries: vec![
            dir("/tmp/mdtest"),
            file(
                "/tmp/mdtest/kustomization.yaml",
                "resources:\n  - resource1.yaml\n  - sub\n",
            ),
            file("/tmp/mdtest/resource1.yaml", ""),
            dir("/tmp/mdtest/sub"),
            file(
                "/tmp/mdtest/sub/kustomization.yaml",
                "resources:\n  - /tmp/mdtest\n",
            ),
        ],
    };
    let mut visited = vec![false, false, false, false, false];
    let mut found = Vec::new();

    let result = parse_kustomization(
        &tree,
        "/tmp/mdtest/kustomization.yaml",
        &mut visited,
        &mut found,
    );

    assert_eq!(result, Err(AnalyzerError::Cycle));
    assert_eq!(visited, vec![false, true, false, false, true]);
    assert_eq!(found.len(), 1);
    assert_eq!(found[0].hash(), Some("/tmp/mdtest/resource1.yaml"));
}

#[test]
fn test_missing_kustomization() {
    let tree = FileTree {
        entries: vec![
            dir("/tmp/mdtest"),
            file(
                "/tmp/mdtest/kustomization.yaml",
                r#"
resources:
  - sub
"#,
            ),
            dir("/tmp/mdtest/sub"),
        ],
    };

    let deps = kustomize(&tree, "/tmp/mdtest").unwrap();

    assert!(deps.is_empty());
}

#[test]
fn test_empty_kustomization() {
    let tree = FileTree {
        entries: vec![dir("/tmp/mdtest"), file("/tmp/mdtest/kustomization.yaml", "")],
    };

    let deps = kustomize(&tree, "/tmp/mdtest").unwrap();

    assert!(deps.is_empty());
}

#[test]
fn test_non_existent_file() {
    let tree = FileTree {
        entries: vec![
            dir("/tmp/mdtest"),
            file(
                "/tmp/mdtest/kustomization.yaml",
                r#"
resources:
  - non-existent-resource.yaml
"#,
            ),
        ],
    };

    let deps = kustomize(&tree, "/tmp/mdtest").unwrap();

    assert!(deps.is_empty());
}

#[test]
fn kustomization_order_and_uppercase_name() {
    let tree = FileTree {
        entries: vec![
            dir("/repo/svc"),
            file(
                "/repo/svc/Kustomization.YAML",
                "configMapGenerator:\n  - files: [c.env]\npatches:\n  - path: p.yaml\n  - target: x\ncomponents: [../comp]\nbases: [b.yaml]\nresources: [r.yaml]\n",
            ),
            file("/repo/svc/r.yaml", ""),
            file("/repo/svc/b.yaml", ""),
            file("/repo/svc/p.yaml", ""),
            file("/repo/svc/c.env", ""),
            dir("/repo/comp"),
            file("/repo/comp/kustomization.yml", "resources: [inner.yaml]\n"),
            file("/repo/comp/inner.yaml", ""),
        ],
    };

    let deps = kustomize(&tree, "/repo/svc").unwrap();

    assert_eq!(
        hashes(&deps),
        vec![
            "/repo/svc/r.yaml",
            "/repo/svc/b.yaml",
            "/repo/comp/inner.yaml",
            "/repo/svc/p.yaml",
            "/repo/svc/c.env",
        ]
    );
    assert_eq!(deps[2].raw.display_path, "/repo/svc/../comp/inner.yaml");
}

#[test]
fn kustomization_that_is_not_where_it_says_is_not_found() {
    let tree = FileTree {
        entries: vec![file("/repo/a/../svc/kustomization.yaml", "resources: []\n")],
    };

    let result = (KustomizeAnalyzer {}).dependencies(&tree, &vec![0]);

    assert_eq!(result.unwrap_err(), AnalyzerError::NotFound);
    assert_eq!(AnalyzerError::NotFound.describe(), "cannot find file");
}

#[test]
fn kustomization_errors() {
    let malformed = FileTree {
        entries: vec![file("/repo/svc/kustomization.yaml", "resources: [a\n")],
    };
    let unreadable = FileTree {
        entries: vec![dir("/repo/svc/kustomization.yaml")],
    };
    let glob = FileTree {
        entries: vec![
            file("/repo/svc/kustomization.yaml", "resources: ['a(*.yaml']\n"),
            file("/repo/svc/a(*.yaml", ""),
        ],
    };
    let analyzer = KustomizeAnalyzer {};
    let literal = analyzer.dependencies(&glob, &vec![0]).unwrap();

    assert_eq!(
        analyzer.dependencies(&malformed, &vec![0]).unwrap_err(),
        AnalyzerError::Parse
    );
    assert_eq!(
        analyzer.dependencies(&unreadable, &vec![0]).unwrap_err(),
        AnalyzerError::Unreadable
    );
    assert_eq!(hashes(&literal), vec!["/repo/svc/a(*.yaml"]);
    assert_eq!(literal[0].is_match("/repo/svc/a(*.yaml"), true);
    assert_eq!(literal[0].is_match("/repo/svc/a(b.yaml"), false);
}

// Flutter

const PUBSPEC: &str = r#"
name: app
resolution: Workspace
dependencies:
  flutter:
    sdk: flutter
  http: ^1.0.0
  core:
    path: ../core
dev_dependencies:
  test_kit:
    path: ../test_kit
fonts:
  - family: Main
    fonts:
      - asset: fonts/Main-Regular.ttf
      - asset: fonts/Main-Bold.ttf
        weight: 700
flutter:
  assets:
    - assets/logo.png
    - 12
    - images/
"#;

#[test]
fn pubspec_parts() {
    let document = load_yaml(Some(PUBSPEC)).unwrap();

    assert_eq!(
        find_local_dependencies(document.get("dependencies")),
        vec!["../core"]
    );
    assert_eq!(
        find_local_dependencies(document.get("dev_dependencies")),
        vec!["../test_kit"]
    );
    assert_eq!(
        find_fonts(document.get("fonts")),
        vec!["fonts/Main-Regular.ttf", "fonts/Main-Bold.ttf"]
    );
    assert_eq!(
        find_assets(document.get("flutter").unwrap().get("assets")),
        vec!["assets/logo.png", "images/"]
    );
    assert_eq!(find_local_dependencies(document.get("name")).len(), 0);
}

#[test]
fn malformed_fonts_give_nothing() {
    let document = load_yaml(Some(
        "fonts:\n  - family: A\n    fonts:\n      - asset: a.ttf\n  - family: B\n    fonts:\n      - weight: 1\n",
    ))
    .unwrap();

    assert_eq!(find_fonts(document.get("fonts")).len(), 0);
}

#[test]
fn flutter_dependencies_with_workspace() {
    let tree = FileTree {
        entries: vec![
            dir("/repo"),
            file("/repo/pubspec.yaml", "name: root\nworkspace:\n  - app\n  - core\n"),
            dir("/repo/app"),
            file("/repo/app/pubspec.yaml", PUBSPEC),
            dir("/repo/other"),
            file("/repo/other/pubspec.yaml", "name: other\nflutter:\n  assets: [a.png]\n"),
        ],
    };
    let root = PathInfo::new("/repo", "").unwrap();
    let analyzer = FlutterAnalyzer::new(&root, &tree);

    let deps = analyzer.dependencies(&tree, &vec![3, 5]).unwrap();

    assert_eq!(try_parse_workspace_pubspec(&root, &tree).is_some(), true);
    assert_eq!(
        hashes(&deps),
        vec![
            "/repo/pubspec.yaml",
            "/repo/pubspec.lock",
            "/repo/core",
            "/repo/test_kit",
            "/repo/app/fonts/Main-Regular.ttf",
            "/repo/app/fonts/Main-Bold.ttf",
            "/repo/app/assets/logo.png",
            "/repo/app/images",
            "/repo/other/a.png",
        ]
    );
    assert_eq!(analyzer.file_relevant("pubspec.yaml"), true);
    assert_eq!(analyzer.file_relevant("pubspec.lock"), false);
}

#[test]
fn flutter_without_workspace() {
    let tree = FileTree {
        entries: vec![
            dir("/repo"),
            file("/repo/pubspec.yaml", "name: root\n"),
            dir("/repo/app"),
            file("/repo/app/pubspec.yaml", PUBSPEC),
            file("/repo/bad/pubspec.yaml", "a: [1\n"),
        ],
    };
    let root = PathInfo::new("/repo", "").unwrap();
    let analyzer = FlutterAnalyzer::new(&root, &tree);

    let deps = analyzer.dependencies(&tree, &vec![3]).unwrap();

    assert_eq!(analyzer.workspace.is_none(), true);
    assert_eq!(deps.len(), 6);
    assert_eq!(deps[0].hash(), Some("/repo/core"));
    assert_eq!(
        analyzer.dependencies(&tree, &vec![3, 4]).unwrap_err(),
        AnalyzerError::Parse
    );
}

// JavaScript

#[test]
fn javascript_workspace_packages() {
    let tree = FileTree {
        entries: vec![
            dir("/repo"),
            dir("/repo/packages"),
            dir("/repo/packages/ui"),
            manifest("/repo/packages/ui/package.json", "@acme/ui", vec![], vec!["react"]),
            dir("/repo/packages/util"),
            manifest("/repo/packages/util/package.json", "@acme/util", vec![], vec![]),
            dir("/repo/packages/nameless"),
            manifest("/repo/packages/nameless/package.json", "", vec![], vec![]),
            dir("/repo/app"),
            manifest(
                "/repo/app/package.json",
                "app",
                vec!["@acme/util", "jest"],
                vec!["@acme/ui", "react", "@acme/util"],
            ),
            dir("/repo/node_modules"),
            dir("/repo/node_modules/react"),
            manifest("/repo/node_modules/react/package.json", "react", vec![], vec![]),
        ],
    };
    let analyzer = JavaScriptAnalyzer::new(PathInfo::new("/repo", "").unwrap(), &tree);

    let deps = analyzer.dependencies(&tree, &vec![9]).unwrap();
    let names: Vec<&str> = analyzer.packages.iter().map(|p| p.name.as_str()).collect();

    assert_eq!(names, vec!["@acme/ui", "@acme/util", "app"]);
    assert_eq!(
        hashes(&deps),
        vec![
            "/repo/packages/util",
            "/repo/packages/ui",
            "/repo/packages/util",
        ]
    );
    assert_eq!(analyzer.file_relevant("package.json"), true);
    assert_eq!(analyzer.file_relevant("package-lock.json"), false);
}

#[test]
fn javascript_malformed_manifest() {
    let tree = FileTree {
        entries: vec![
            dir("/repo"),
            dir("/repo/app"),
            manifest("/repo/app/package.json", "app", vec![], vec![]),
            dir("/repo/bad"),
            file("/repo/bad/package.json", "{"),
        ],
    };
    let good = FileTree {
        entries: vec![
            dir("/repo"),
            dir("/repo/app"),
            manifest("/repo/app/package.json", "app", vec![], vec![]),
            file("/repo/app/sub/package.json", "{"),
        ],
    };
    let broken = JavaScriptAnalyzer::new(PathInfo::new("/repo", "").unwrap(), &tree);
    let working = JavaScriptAnalyzer::new(PathInfo::new("/repo", "").unwrap(), &good);

    assert_eq!(load_packages(&tree, "/repo").unwrap_err(), AnalyzerError::Parse);
    assert_eq!(broken.packages.len(), 0);
    assert_eq!(broken.dependencies(&tree, &vec![4]).unwrap().len(), 0);
    assert_eq!(working.packages.len(), 0);
}

#[test]
fn javascript_package_directory_that_does_not_compile() {
    let tree = FileTree {
        entries: vec![
            dir("/repo"),
            dir("/repo/a(*"),
            manifest("/repo/a(*/package.json", "lib", vec![], vec![]),
        ],
    };

    assert_eq!(
        load_packages(&tree, "/repo").unwrap_err(),
        AnalyzerError::InvalidPattern
    );
    assert_eq!(
        DepPattern::new("/repo/a(*", "/repo").unwrap_err(),
        PatternError::InvalidPattern
    );
}

#[test]
fn dotnet_directory_file_whose_path_does_not_compile() {
    let tree = FileTree {
        entries: vec![
            dir("/repo"),
            dir("/repo/a(*"),
            file("/repo/a(*/Directory.Build.props", "<Project/>"),
            dir("/repo/a(*/App"),
        ],
    };
    let analyzer = DotnetAnalyzer::new(PathInfo::new("/repo", "").unwrap(), &tree).unwrap();

    let result = analyzer.collect_directory_file_dependencies("/repo/a(*/App");

    assert_eq!(result.unwrap_err(), AnalyzerError::InvalidPattern);
}

#[test]
fn go_and_proto_dependencies_are_literal() {
    let tree = FileTree {
        entries: vec![
            dir("/repo"),
            file("/repo/a*.proto", ""),
            dir("/repo/svc"),
            file("/repo/svc/x.proto", "import \"a*.proto\";\n"),
        ],
    };
    let analyzer = ProtoAnalyzer::new(PathInfo::new("/repo", "").unwrap(), &tree);

    let deps = analyzer.dependencies(&tree, &vec![3]).unwrap();

    assert_eq!(hashes(&deps), vec!["/repo/a*.proto"]);
}

#[test]
fn javascript_later_package_of_same_name_counts() {
    let tree = FileTree {
        entries: vec![
            dir("/repo"),
            dir("/repo/a"),
            manifest("/repo/a/package.json", "lib", vec![], vec![]),
            dir("/repo/b"),
            manifest("/repo/b/package.json", "lib", vec![], vec![]),
            dir("/repo/app"),
            manifest("/repo/app/package.json", "app", vec![], vec!["lib"]),
        ],
    };
    let analyzer = JavaScriptAnalyzer::new(PathInfo::new("/repo", "").unwrap(), &tree);

    let deps = analyzer.dependencies(&tree, &vec![6]).unwrap();

    assert_eq!(hashes(&deps), vec!["/repo/b"]);
}

#[test]
fn javascript_dependencies_fail_on_malformed_manifest_of_service() {
    let tree = FileTree {
        entries: vec![
            dir("/repo"),
            dir("/repo/a"),
            manifest("/repo/a/package.json", "lib", vec![], vec![]),
        ],
    };
    let with_bad = FileTree {
        entries: vec![file("/elsewhere/package.json", "{")],
    };
    let analyzer = JavaScriptAnalyzer::new(PathInfo::new("/repo", "").unwrap(), &tree);

    let result = analyzer.dependencies(&with_bad, &vec![0]);

    assert_eq!(result.unwrap_err(), AnalyzerError::Parse);
}

// Protobuf

#[test]
fn proto_files_are_found_by_extension() {
    let tree = FileTree {
        entries: vec![
            dir("/repo"),
            file("/repo/a.proto", ""),
            file("/repo/b.PROTO", ""),
            file("/repo/c.protobuf", ""),
            dir("/repo/.git"),
            file("/repo/.git/d.proto", ""),
        ],
    };

    let found = find_all_proto_files(&tree, "/repo");
    let paths: Vec<&str> = found.iter().map(|p| p.canonicalized.as_str()).collect();

    assert_eq!(paths, vec!["/repo/a.proto", "/repo/b.PROTO"]);
    assert_eq!(is_proto("/x/y.proto"), true);
    assert_eq!(is_proto("/x/proto"), false);
}

#[test]
fn proto_imports_are_followed() {
    let tree = FileTree {
        entries: vec![
            dir("/repo"),
            dir("/repo/proto"),
            file("/repo/proto/common.proto", "syntax = \"proto3\";\n"),
            file("/repo/proto/types.proto", "import \"common.proto\";\n"),
            dir("/repo/svc-g"),
            file(
                "/repo/svc-g/api.proto",
                "syntax = \"proto3\";\nimport \"common.proto\";\nimport \"proto/types.proto\";\nimport \"google/protobuf/empty.proto\";\n  import \"common.proto\";\n",
            ),
        ],
    };
    let analyzer = ProtoAnalyzer::new(PathInfo::new("/repo", "").unwrap(), &tree);

    let deps = analyzer.dependencies(&tree, &vec![5]).unwrap();

    assert_eq!(
        hashes(&deps),
        vec![
            "/repo/proto/common.proto",
            "/repo/proto/common.proto",
            "/repo/proto/types.proto",
        ]
    );
    assert_eq!(analyzer.file_relevant("api.proto"), true);
    assert_eq!(analyzer.file_relevant("api.go"), false);
}

// languages

#[test]
fn language_votes() {
    let vote = |path: &str| try_determine_language(path).map(|m| (m.language, m.score));

    assert_eq!(vote("/r/a.cs"), Some((Language::Dotnet, 1)));
    assert_eq!(vote("/r/a.csproj"), Some((Language::Dotnet, 5)));
    assert_eq!(vote("/r/a.go"), Some((Language::Golang, 1)));
    assert_eq!(vote("/r/a.dart"), Some((Language::Flutter, 1)));
    assert_eq!(vote("/r/a.proto"), Some((Language::Protobuf, 3)));
    assert_eq!(vote("/r/a.just"), Some((Language::Justfile, 3)));
    assert_eq!(vote("/r/a.js"), Some((Language::JavaScript, 1)));
    assert_eq!(vote("/r/a.jsx"), Some((Language::JavaScript, 1)));
    assert_eq!(vote("/r/a.ts"), Some((Language::JavaScript, 1)));
    assert_eq!(vote("/r/a.tsx"), Some((Language::JavaScript, 1)));
    assert_eq!(vote("/r/pubspec.yaml"), Some((Language::Flutter, 5)));
    assert_eq!(vote("/r/pubspec.lock"), Some((Language::Flutter, 5)));
    assert_eq!(vote("/r/go.mod"), Some((Language::Golang, 5)));
    assert_eq!(vote("/r/go.sum"), Some((Language::Golang, 5)));
    assert_eq!(vote("/r/kustomization.yaml"), Some((Language::Kustomize, 5)));
    assert_eq!(vote("/r/kustomization.yml"), Some((Language::Kustomize, 5)));
    assert_eq!(vote("/r/package.json"), Some((Language::JavaScript, 5)));
    assert_eq!(vote("/r/justfile"), Some((Language::Justfile, 5)));
    assert_eq!(vote("/r/README.md"), None);
    assert_eq!(vote("/r/.go"), None);
}

#[test]
fn candidates_are_found_by_lower_case_name() {
    let tree = FileTree {
        entries: vec![
            dir("/repo/svc"),
            file("/repo/svc/JUSTFILE", ""),
            file("/repo/svc/Build.JUST", ""),
            file("/repo/svc/main.GO", ""),
            dir("/repo/svc/.cache"),
            file("/repo/svc/.cache/justfile", ""),
            file("/repo/other/justfile", ""),
        ],
    };

    let just = Analyzer::gather_file_candidates(Language::Justfile, &tree, "/repo/svc");
    let go = Analyzer::gather_file_candidates(Language::Golang, &tree, "/repo/svc");

    assert_eq!(just, vec![1, 2]);
    assert_eq!(go, vec![3]);
}
