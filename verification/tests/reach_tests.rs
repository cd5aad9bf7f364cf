use monodeps::cli::{Opts, OutputFormat};
use monodeps::config::{AutoDiscoveryConfig, Config, DotnetConfig, GoDepsConfig};
use monodeps::files::{EntryKind, FileEntry, FileTree};
use monodeps::path::PathInfo;
use monodeps::reach::{candidate_markers, unresolved};
use monodeps::service::justfile::JustfileAnalyzer;

fn folder(path: &str) -> FileEntry {
    FileEntry {
        path: path.to_string(),
        kind: EntryKind::Directory,
        content: None,
        package: None,
    }
}

fn text_file(path: &str, content: &str) -> FileEntry {
    FileEntry {
        path: path.to_string(),
        kind: EntryKind::File,
        content: Some(content.to_string()),
        package: None,
    }
}

fn opts_for(target: &str) -> Opts {
    Opts {
        target: PathInfo::new(target, "").unwrap(),
        config: Config {
            auto_discovery: AutoDiscoveryConfig {
                go: GoDepsConfig {
                    package_prefixes: vec![],
                },
                dotnet: DotnetConfig {
                    package_namespaces: vec![],
                },
            },
            global_dependencies: vec![],
        },
        output: OutputFormat::Plain,
        verbose: false,
        relative: false,
        supported_roots: vec![],
        all: false,
    }
}

#[test]
fn nothing_is_unresolved_in_a_tree_without_references() {
    let tree = FileTree {
        entries: vec![
            folder("/repo"),
            text_file("/repo/justfile", "build:\n\techo hello\n"),
            text_file("/repo/main.go", "package main\n"),
        ],
    };

    assert_eq!(unresolved(&tree), Vec::<String>::new());
}

#[test]
fn submodule_candidates_that_are_not_held_are_unresolved() {
    let tree = FileTree {
        entries: vec![
            folder("/repo"),
            text_file("/repo/justfile", "mod tools\n"),
            text_file("/repo/tools.just", "lint:\n"),
        ],
    };

    assert_eq!(
        unresolved(&tree),
        vec![
            "/repo/tools/mod.just".to_string(),
            "/repo/tools/justfile".to_string(),
            "/repo/tools/.justfile".to_string(),
        ]
    );
}

#[test]
fn imports_and_includes_outside_the_tree_are_unresolved() {
    let tree = FileTree {
        entries: vec![
            folder("/repo/svc"),
            text_file(
                "/repo/svc/justfile",
                "import '../../shared/common.just'\nmod other 'local.just'\n",
            ),
            text_file("/repo/svc/local.just", ""),
            text_file(
                "/repo/svc/Makefile",
                "include ../make/base.mk /opt/make/$(NAME).mk\n",
            ),
        ],
    };

    assert_eq!(
        unresolved(&tree),
        vec![
            "/shared/common.just".to_string(),
            "/repo/make/base.mk".to_string(),
            "/opt/make/$(NAME).mk".to_string(),
        ]
    );
}

#[test]
fn kustomization_references_are_unresolved_with_their_kustomizations() {
    let tree = FileTree {
        entries: vec![
            folder("/repo/k8s"),
            text_file(
                "/repo/k8s/Kustomization.yaml",
                "resources:\n  - ../../base\n  - deployment.yaml\n",
            ),
            text_file("/repo/k8s/deployment.yaml", "kind: Deployment\n"),
            text_file("/repo/k8s/other.yaml", "resources:\n  - ../elsewhere\n"),
        ],
    };

    assert_eq!(
        unresolved(&tree),
        vec![
            "/base".to_string(),
            "/base/kustomization.yaml".to_string(),
            "/base/kustomization.yml".to_string(),
            "/repo/k8s/deployment.yaml/kustomization.yaml".to_string(),
            "/repo/k8s/deployment.yaml/kustomization.yml".to_string(),
        ]
    );
}

#[test]
fn references_are_followed_from_file_to_file() {
    let tree = FileTree {
        entries: vec![
            folder("/repo/svc"),
            text_file("/repo/svc/third.mk", "include /elsewhere/fourth.mk
"),
            text_file("/repo/svc/second.mk", "include third.mk
"),
            text_file("/repo/svc/Makefile", "include second.mk
"),
            text_file("/repo/svc/notes.txt", "include /never/read.mk
"),
        ],
    };

    assert_eq!(unresolved(&tree), vec!["/elsewhere/fourth.mk".to_string()]);
}

#[test]
fn only_justfiles_makefiles_and_kustomizations_start_a_traversal() {
    let tree = FileTree {
        entries: vec![
            folder("/repo"),
            text_file("/repo/index.js", "import './missing'
"),
            text_file("/repo/recipes.JUST", "import 'a.just'
"),
            text_file("/repo/makefile", "include b.mk
"),
            text_file("/repo/kustomization.yml", "bases:\n  - c\n"),
        ],
    };

    assert_eq!(
        unresolved(&tree),
        vec![
            "/repo/a.just".to_string(),
            "/repo/b.mk".to_string(),
            "/repo/c".to_string(),
            "/repo/c/kustomization.yaml".to_string(),
            "/repo/c/kustomization.yml".to_string(),
        ]
    );
}

#[test]
fn files_without_text_and_directories_refer_to_nothing() {
    let tree = FileTree {
        entries: vec![
            folder("/repo"),
            FileEntry {
                path: "/repo/justfile".to_string(),
                kind: EntryKind::File,
                content: None,
                package: None,
            },
            FileEntry {
                path: "/repo/sub".to_string(),
                kind: EntryKind::Directory,
                content: Some("mod tools\n".to_string()),
                package: None,
            },
        ],
    };

    assert_eq!(unresolved(&tree), Vec::<String>::new());
}

#[test]
fn hidden_submodule_justfile_is_found_once_it_is_held() {
    let mut tree = FileTree {
        entries: vec![
            folder("/repo"),
            text_file("/repo/justfile", "mod tools\n"),
        ],
    };
    assert!(unresolved(&tree).contains(&"/repo/tools/.justfile".to_string()));

    tree.entries
        .push(text_file("/repo/tools/.justfile", "lint:\n"));
    let found = (JustfileAnalyzer {})
        .dependencies(&tree, &vec![1])
        .unwrap();

    assert_eq!(found.len(), 1);
    assert_eq!(found[0].raw.canonicalized, "/repo/tools/.justfile");
    assert!(!unresolved(&tree).contains(&"/repo/tools/.justfile".to_string()));
}

#[test]
fn marker_candidates_are_the_path_and_the_four_markers_below_it() {
    let opts = opts_for("/repo");

    assert_eq!(
        candidate_markers("services/../svc", &opts),
        vec![
            "/repo/svc".to_string(),
            "/repo/svc/Depsfile".to_string(),
            "/repo/svc/Buildfile.yaml".to_string(),
            "/repo/svc/justfile".to_string(),
            "/repo/svc/Makefile".to_string(),
        ]
    );
}
