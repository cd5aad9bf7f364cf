use monodeps::cli::{Opts, OutputFormat};
use monodeps::config::{AutoDiscoveryConfig, Config, DepsfileType, DotnetConfig, GoDepsConfig};
use monodeps::dependency;
use monodeps::discovery::DiscoverError;
use monodeps::files::{EntryKind, FileEntry, FileTree};
use monodeps::output::{output, print_services};
use monodeps::path::PathInfo;
use monodeps::service::{BuildTrigger, Service, ServiceContext};

const ROOT: &str = "/repo/full";

fn dir(path: &str) -> FileEntry {
    FileEntry {
        path: format!("{}{}", ROOT, path),
        kind: EntryKind::Directory,
        content: None,
        package: None,
    }
}

fn file(path: &str, content: &str) -> FileEntry {
    FileEntry {
        path: format!("{}{}", ROOT, path),
        kind: EntryKind::File,
        content: Some(content.to_string()),
        package: None,
    }
}

fn full_tree() -> FileTree {
    FileTree {
        entries: vec![
            dir(""),
            dir("/.gitlab"),
            file("/.gitlab/pipeline.yml", "stages: []\n"),
            dir("/just"),
            file("/just/lib.just", "default:\n\techo lib\n"),
            dir("/k8s"),
            dir("/k8s/base"),
            file(
                "/k8s/base/kustomization.yaml",
                "resources:\n  - deployment.yaml\npatches:\n  - path: patch.yaml\n",
            ),
            file("/k8s/base/deployment.yaml", "kind: Deployment\n"),
            file("/k8s/base/patch.yaml", "kind: Patch\n"),
            dir("/pkg"),
            dir("/pkg/some"),
            file("/pkg/some/some.go", "package some\n"),
            dir("/proto"),
            file(
                "/proto/api.proto",
                "syntax = \"proto3\";\nimport \"common.proto\";\nimport \"model.proto\";\n",
            ),
            file("/proto/common.proto", "syntax = \"proto3\";\n"),
            file("/proto/model.proto", "syntax = \"proto3\";\n"),
            dir("/service-a"),
            file("/service-a/go.mod", "module dev.azure.com/foo/bar/service-a\n"),
            file("/service-a/justfile", "import '../shared/something'\n\nbuild:\n\tgo build\n"),
            file(
                "/service-a/main.go",
                "package main\n\nimport \"dev.azure.com/foo/bar/pkg/some\"\n\nfunc main() {}\n",
            ),
            dir("/service-b"),
            file("/service-b/Makefile", "build:\n\ttrue\n"),
            dir("/service-c"),
            file("/service-c/Depsfile", "dependencies:\n  - shared\n"),
            file("/service-c/something", "x\n"),
            dir("/service-d"),
            file("/service-d/justfile", "deploy:\n\tkubectl apply -k .\n"),
            file(
                "/service-d/kustomization.yaml",
                "resources:\n  - ../k8s/base\n  - ../k8s/base/kustomization.yaml\n",
            ),
            dir("/service-e"),
            file("/service-e/justfile", "import '../just/lib.just'\nimport '../file-does-not-exist'\nmod f '../service-f'\n"),
            file("/service-e/Depsfile", "dependencies:\n  - service-f\n"),
            dir("/service-f"),
            file("/service-f/justfile", "build:\n\ttrue\n"),
            dir("/service-g"),
            file("/service-g/Makefile", "build:\n\tprotoc service.proto\n"),
            file("/service-g/service.proto", "syntax = \"proto3\";\nimport \"api.proto\";\n"),
            dir("/shared"),
            file("/shared/justfile", "build:\n\ttrue\n"),
            file("/shared/something", "x\n"),
        ],
    }
}

fn expect_output(services: Vec<Service>, expected_services: Vec<&str>) {
    let opts = mk_opts(ROOT);
    let output = print_services(&services, &opts);

    for expected in expected_services {
        assert!(output.contains(expected), "output contains '{}'", expected);
    }
}

fn get_service(services: Vec<Service>, name: &str) -> Option<Service> {
    services
        .into_iter()
        .find(|svc| svc.path.display_path.ends_with(name))
}

fn mk_opts(target: &str) -> Opts {
    Opts {
        target: PathInfo::new(target, "").unwrap(),
        config: Config {
            auto_discovery: AutoDiscoveryConfig {
                go: GoDepsConfig {
                    package_prefixes: vec!["dev.azure.com/foo/bar".to_string()],
                },
                dotnet: DotnetConfig {
                    package_namespaces: vec![],
                },
            },
            global_dependencies: vec![],
        },
        output: OutputFormat::Plain,
        verbose: true,
        relative: false,
        all: false,
        supported_roots: vec![],
    }
}

fn contains_auto_deps(service: &Service, deps: &[&str]) {
    for dep in deps {
        assert!(
            service
                .auto_dependencies
                .iter()
                .any(|auto_dep| auto_dep.pattern.to_text().contains(dep)),
            "auto-dependencies does not contains '{}'",
            dep
        );
    }
}

#[test]
fn discover_services_not_exist() {
    let opts = mk_opts("does_not_exist");
    let services = Service::discover(&full_tree(), &opts).unwrap();

    assert_eq!(true, services.is_empty());
}

#[test]
fn discover_services_depsfile() {
    let opts = mk_opts(ROOT);
    let services = Service::discover(&full_tree(), &opts).unwrap();

    // just 2 Depsfile
    assert_eq!(2, services.len());
}

#[test]
fn discover_services_duplicate_files() {
    let opts = mk_opts(ROOT);
    let justfile_opts = Opts {
        supported_roots: vec![DepsfileType::Justfile],
        ..opts
    };
    let services = Service::discover(&full_tree(), &justfile_opts).unwrap();

    // 2 Depsfile + 4 justfiles
    //
    // technically we have 2 Depsfiles and 5! justfiles,
    // however we want the Depsfile in service-e to take precedence
    assert_eq!(6, services.len());

    let service_e = get_service(services, "service-e");

    assert!(service_e.is_some(), "service-e was not discovered");

    // - service-f
    assert_eq!(1, service_e.unwrap().depsfile.dependencies.len());
}

#[test]
fn discover_services_proto() {
    let opts = mk_opts(ROOT);
    let makefile_opts = Opts {
        supported_roots: vec![DepsfileType::Makefile],
        ..opts
    };
    let services = Service::discover(&full_tree(), &makefile_opts).unwrap();

    // 2 Depsfile + 2 Makefiles
    assert_eq!(4, services.len());

    let service_g = get_service(services, "service-g").expect("missing service-g");

    // - proto/api.proto
    // - proto/common.proto
    // - proto/model.proto
    assert_eq!(3, service_g.auto_dependencies.len());

    contains_auto_deps(&service_g, &vec!["api.proto", "common.proto", "model.proto"]);
}

#[test]
fn discover_services_justfile() {
    let opts = mk_opts(ROOT);
    let justfile_opts = Opts {
        supported_roots: vec![DepsfileType::Justfile],
        ..opts
    };
    let services = Service::discover(&full_tree(), &justfile_opts).unwrap();

    // 2 Depsfile + 4 justfiles
    assert_eq!(6, services.len());

    let service_a = get_service(services, "service-a").expect("service-a not found");

    // - shared/something
    // - pkg/some
    assert_eq!(2, service_a.auto_dependencies.len());

    contains_auto_deps(&service_a, &vec!["shared/something", "pkg/some"]);
}

#[test]
fn discover_services_justfile_transitive() {
    let opts = mk_opts(ROOT);
    let justfile_opts = Opts {
        supported_roots: vec![DepsfileType::Justfile],
        ..opts
    };
    let services = Service::discover(&full_tree(), &justfile_opts).unwrap();

    // 2 Depsfile + 4 justfiles
    assert_eq!(6, services.len());

    let service_e = get_service(services, "service-e").expect("service-e not found");

    // - service-f
    // - just/lib.just
    // - file-does-not-exist
    assert_eq!(3, service_e.auto_dependencies.len());

    contains_auto_deps(
        &service_e,
        &vec!["service-f", "file-does-not-exist", "just/lib.just"],
    );
}

#[test]
fn discover_services_makefile() {
    let opts = mk_opts(ROOT);
    let makefile_opts = Opts {
        supported_roots: vec![DepsfileType::Makefile],
        ..opts
    };
    let services = Service::discover(&full_tree(), &makefile_opts).unwrap();

    // 2 Depsfile + 2 Makefile
    assert_eq!(4, services.len());
}

#[test]
fn resolve_dependencies_shared() {
    let opts = mk_opts(ROOT);
    let all_opts = Opts {
        supported_roots: vec![DepsfileType::Makefile, DepsfileType::Justfile],
        ..opts
    };
    let services = Service::discover(&full_tree(), &all_opts).unwrap();

    // 2 Depsfile + 2 Makefile + 4 justfile
    assert_eq!(8, services.len());

    let deps =
        dependency::resolve(services, vec!["shared/something".to_string()], &all_opts).unwrap();

    // - shared
    // - service-a
    // - service-c
    assert_eq!(3, deps.len());
    expect_output(deps, vec!["service-a", "service-c", "shared"]);
}

#[test]
fn resolve_dependencies_k8s_patch() {
    let opts = mk_opts(ROOT);
    let justfile_opts = Opts {
        supported_roots: vec![DepsfileType::Justfile],
        ..opts
    };
    let services = Service::discover(&full_tree(), &justfile_opts).unwrap();

    // 2 Depsfile + 4 justfile
    assert_eq!(6, services.len());

    let deps = dependency::resolve(
        services,
        vec!["k8s/base/patch.yaml".to_string()],
        &justfile_opts,
    )
    .unwrap();

    // - service-d
    assert_eq!(1, deps.len());
    expect_output(deps, vec!["service-d"]);
}

#[test]
fn resolve_dependencies_justfile_imports() {
    let opts = mk_opts(ROOT);
    let justfile_opts = Opts {
        supported_roots: vec![DepsfileType::Justfile],
        ..opts
    };
    let services = Service::discover(&full_tree(), &justfile_opts).unwrap();

    // 2 Depsfile + 4 justfile
    assert_eq!(6, services.len());

    let deps = dependency::resolve(
        services,
        vec!["service-f/justfile".to_string()],
        &justfile_opts,
    )
    .unwrap();

    // - service-e
    // - service-f
    assert_eq!(2, deps.len());
    expect_output(deps, vec!["service-e", "service-f"]);
}

#[test]
fn resolve_dependencies_k8s() {
    let opts = mk_opts(ROOT);
    let justfile_opts = Opts {
        supported_roots: vec![DepsfileType::Justfile],
        ..opts
    };
    let services = Service::discover(&full_tree(), &justfile_opts).unwrap();

    // 2 Depsfile + 4 justfile
    assert_eq!(6, services.len());

    let deps = dependency::resolve(
        services,
        vec!["k8s/base/kustomization.yaml".to_string()],
        &justfile_opts,
    )
    .unwrap();

    // - service-d
    assert_eq!(1, deps.len());
    expect_output(deps, vec!["service-d"]);
}

#[test]
fn merge_correct_filetype_order() {
    assert_eq!(true, DepsfileType::Depsfile < DepsfileType::Buildfile);
    assert_eq!(true, DepsfileType::Depsfile < DepsfileType::Justfile);
    assert_eq!(true, DepsfileType::Depsfile < DepsfileType::Makefile);
    assert_eq!(true, DepsfileType::Buildfile < DepsfileType::Justfile);
}

#[test]
fn merge_overwrites_justfile() {
    let opts = mk_opts(ROOT);
    let all_opts = Opts {
        supported_roots: vec![DepsfileType::Makefile, DepsfileType::Justfile],
        ..opts
    };

    let mut justfile_ctx = ServiceContext {
        filetype: DepsfileType::Justfile,
        depsfile_location: PathInfo::new(".", ".").unwrap(),
        service_location: PathInfo::new(".", ".").unwrap(),
        root_dir: ".",
    };

    let depsfile_ctx = ServiceContext {
        filetype: DepsfileType::Depsfile,
        depsfile_location: PathInfo::new(".", ".").unwrap(),
        service_location: PathInfo::new(".", ".").unwrap(),
        root_dir: ".",
    };

    justfile_ctx.merge(depsfile_ctx, &all_opts);

    assert_eq!(DepsfileType::Depsfile, justfile_ctx.filetype);
}

#[test]
fn resolve_dependencies_one_service() {
    let opts = mk_opts(ROOT);
    let all_opts = Opts {
        supported_roots: vec![DepsfileType::Makefile, DepsfileType::Justfile],
        ..opts
    };
    let services = Service::discover(&full_tree(), &all_opts).unwrap();

    // 2 Depsfile + 2 Makefile + 4 justfile
    assert_eq!(8, services.len());

    let deps = dependency::resolve(
        services,
        vec![
            "service-c/something".to_string(),
            "non-existing-folder/something".to_string(),
        ],
        &all_opts,
    )
    .unwrap();

    // - service-c
    assert_eq!(1, deps.len());
    expect_output(deps, vec!["service-c"]);
}

#[test]
fn resolve_dependencies_global() {
    let opts = mk_opts(ROOT);
    let all_opts = Opts {
        supported_roots: vec![DepsfileType::Makefile, DepsfileType::Justfile],
        config: Config {
            auto_discovery: Default::default(),
            global_dependencies: vec![".gitlab".to_string()],
        },
        ..opts
    };
    let services = Service::discover(&full_tree(), &all_opts).unwrap();

    // 2 Depsfile + 2 Makefile + 4 justfile
    assert_eq!(8, services.len());

    let deps = dependency::resolve(
        services,
        vec![".gitlab/pipeline.yml".to_string()],
        &all_opts,
    )
    .unwrap();

    // - service-a
    // - service-b
    // - service-c
    // - service-d
    // - service-e
    // - service-f
    // - service-g
    // - shared
    assert_eq!(8, deps.len());
    assert!(deps
        .iter()
        .all(|svc| svc.trigger == Some(BuildTrigger::GlobalDependency)));
    expect_output(
        deps,
        vec![
            "service-a",
            "service-b",
            "service-c",
            "service-d",
            "service-e",
            "service-f",
            "service-g",
            "shared",
        ],
    );
}

#[test]
fn merge_keeps_marker_of_lower_rank() {
    let opts = Opts {
        supported_roots: vec![
            DepsfileType::Makefile,
            DepsfileType::Justfile,
            DepsfileType::Buildfile,
        ],
        ..mk_opts(ROOT)
    };
    let ctx = |kind: DepsfileType, name: &str| ServiceContext {
        filetype: kind,
        depsfile_location: PathInfo::new(name, "/repo/full/svc").unwrap(),
        service_location: PathInfo::new("svc", ROOT).unwrap(),
        root_dir: ROOT,
    };

    let mut makefile = ctx(DepsfileType::Makefile, "Makefile");
    makefile.merge(ctx(DepsfileType::Justfile, "justfile"), &opts);
    assert_eq!(makefile.filetype, DepsfileType::Justfile);
    assert_eq!(makefile.depsfile_location.canonicalized, "/repo/full/svc/justfile");

    let mut justfile = ctx(DepsfileType::Justfile, "justfile");
    justfile.merge(ctx(DepsfileType::Makefile, "Makefile"), &opts);
    assert_eq!(justfile.filetype, DepsfileType::Justfile);

    let mut depsfile = ctx(DepsfileType::Depsfile, "Depsfile");
    depsfile.merge(ctx(DepsfileType::Buildfile, "Buildfile.yaml"), &opts);
    assert_eq!(depsfile.filetype, DepsfileType::Depsfile);

    let mut buildfile = ctx(DepsfileType::Buildfile, "Buildfile.yaml");
    buildfile.merge(ctx(DepsfileType::Depsfile, "Depsfile"), &opts);
    assert_eq!(buildfile.filetype, DepsfileType::Depsfile);
}

#[test]
fn merge_ignores_unsupported_marker() {
    let opts = mk_opts(ROOT);
    let ctx = |kind: DepsfileType| ServiceContext {
        filetype: kind,
        depsfile_location: PathInfo::new("marker", "/repo/full/svc").unwrap(),
        service_location: PathInfo::new("svc", ROOT).unwrap(),
        root_dir: ROOT,
    };

    let mut makefile = ctx(DepsfileType::Makefile);
    makefile.merge(ctx(DepsfileType::Justfile), &opts);
    assert_eq!(makefile.filetype, DepsfileType::Makefile);

    let mut unsupported = ctx(DepsfileType::Makefile);
    unsupported.merge(ctx(DepsfileType::Depsfile), &opts);
    assert_eq!(unsupported.filetype, DepsfileType::Depsfile);
}

#[test]
fn marker_precedence_is_a_total_order() {
    let kinds = vec![
        DepsfileType::Depsfile,
        DepsfileType::Buildfile,
        DepsfileType::Justfile,
        DepsfileType::Makefile,
    ];

    for (i, a) in kinds.iter().enumerate() {
        for (j, b) in kinds.iter().enumerate() {
            assert_eq!(a < b, i < j);
            assert_eq!(a.precedes(b), i < j);
            assert_eq!(a == b, i == j);
        }
    }
}

#[test]
fn discovery_skips_marker_in_root_and_hidden_directories() {
    let mut tree = full_tree();
    tree.entries.push(file("/Depsfile", "dependencies: []\n"));
    tree.entries.push(dir("/.hidden"));
    tree.entries.push(file("/.hidden/Depsfile", ""));
    tree.entries.push(dir("/node_modules"));
    tree.entries.push(dir("/node_modules/pkg"));
    tree.entries.push(file("/node_modules/pkg/Depsfile", ""));

    let services = Service::discover(&tree, &mk_opts(ROOT)).unwrap();

    assert_eq!(2, services.len());
    assert!(services.iter().all(|svc| svc.path.canonicalized != ROOT));
    assert!(services.iter().all(|svc| svc.trigger.is_none()));
}

#[test]
fn discovery_is_stable() {
    let opts = Opts {
        supported_roots: vec![DepsfileType::Makefile, DepsfileType::Justfile],
        ..mk_opts(ROOT)
    };
    let describe = |services: &Vec<Service>| -> Vec<String> {
        services
            .iter()
            .map(|svc| {
                let autos: Vec<String> =
                    svc.auto_dependencies.iter().map(|a| a.to_text()).collect();
                format!("{} {:?} {:?}", svc.path.canonicalized, svc.depsfile.languages, autos)
            })
            .collect()
    };

    let first = Service::discover(&full_tree(), &opts).unwrap();
    let second = Service::discover(&full_tree(), &opts).unwrap();

    assert_eq!(describe(&first), describe(&second));
}

#[test]
fn discovery_fails_on_malformed_marker() {
    let mut tree = full_tree();
    tree.entries.push(dir("/service-x"));
    tree.entries.push(file("/service-x/Depsfile", "dependencies: [a\n"));

    let result = Service::discover(&tree, &mk_opts(ROOT));

    assert_eq!(result.unwrap_err(), DiscoverError::Parse);
}

#[test]
fn discovery_fails_on_unreadable_marker() {
    let mut tree = full_tree();
    tree.entries.push(dir("/service-x"));
    tree.entries.push(FileEntry {
        path: format!("{}/service-x/Depsfile", ROOT),
        kind: EntryKind::File,
        content: None,
        package: None,
    });

    let result = Service::discover(&tree, &mk_opts(ROOT));

    assert_eq!(result.unwrap_err(), DiscoverError::NotFound);
}

#[test]
fn try_determine_finds_marker_in_directory() {
    let opts = Opts {
        supported_roots: vec![DepsfileType::Justfile],
        ..mk_opts(ROOT)
    };

    let by_directory = Service::try_determine("service-e", &full_tree(), &opts).unwrap();
    let by_marker = Service::try_determine("service-a/justfile", &full_tree(), &opts).unwrap();
    let missing = Service::try_determine("service-b", &full_tree(), &opts);

    assert_eq!(by_directory.path.canonicalized, "/repo/full/service-e");
    assert_eq!(by_directory.depsfile.dependencies.len(), 1);
    assert_eq!(by_marker.path.canonicalized, "/repo/full/service-a");
    assert_eq!(by_marker.auto_dependencies.len(), 2);
    assert_eq!(missing.unwrap_err(), DiscoverError::NoServiceRoot);
    assert_eq!(DiscoverError::NoServiceRoot.describe(), "cannot find service root");
}

#[test]
fn auto_dependencies_are_unique_and_outside_the_service() {
    let mut tree = full_tree();
    tree.entries.push(dir("/service-h"));
    tree.entries.push(file(
        "/service-h/justfile",
        "import '../shared/something'\nimport 'local.just'\nimport '../shared/something'\nimport '../shared/./something'\n",
    ));
    tree.entries.push(file("/service-h/local.just", "build:\n"));
    let opts = Opts {
        supported_roots: vec![DepsfileType::Justfile],
        ..mk_opts(ROOT)
    };

    let service = Service::try_determine("service-h", &tree, &opts).unwrap();
    let found: Vec<Option<&str>> = service
        .auto_dependencies
        .iter()
        .map(|a| a.pattern.hash())
        .collect();

    assert_eq!(found, vec![Some("/repo/full/shared/something")]);
}

#[test]
fn validate_does_not_fail() {
    // we just test that is does not fail
    let opts = Opts {
        target: PathInfo::new("/repo", "").unwrap(),
        ..mk_opts(ROOT)
    };

    let service = Service::try_determine("./full/service-c", &full_tree(), &opts);

    assert!(service.is_ok());
}

fn run_dependencies(input: &str, opts: Opts) -> String {
    let changed_files: Vec<String> = input.lines().map(String::from).collect();
    let services = Service::discover(&full_tree(), &opts).unwrap();
    let result = dependency::resolve(services, changed_files, &opts).unwrap();

    output(&result, &opts)
}

#[test]
fn test_dependencies() {
    // we just test that is does not fail
    let text = run_dependencies("some/file\nanother file\n", mk_opts(ROOT));

    assert_eq!(text, "");
}

#[test]
fn test_dependencies_json() {
    let json_opts = Opts {
        output: OutputFormat::Json,
        ..mk_opts(ROOT)
    };

    // we just test that is does not fail
    let text = run_dependencies("some/file\nanother file\n", json_opts);

    assert_eq!(text, "[]");
}

#[test]
fn test_dependencies_yaml() {
    let yaml_opts = Opts {
        output: OutputFormat::Yaml,
        ..mk_opts(ROOT)
    };

    // we just test that is does not fail
    let text = run_dependencies("service-c/x\nanother file\n", yaml_opts);

    assert_eq!(text, "- /repo/full/service-c\n");
}

fn markers_tree(order: Vec<&str>) -> FileTree {
    let mut entries = vec![dir(""), dir("/svc")];
    for name in order {
        let content = match name {
            "Depsfile" => "dependencies: [from-depsfile]\n",
            "Buildfile.yaml" => "spec:\n  dependsOn: [from-buildfile]\nmetadata:\n  builder: dart\n",
            _ => "",
        };
        entries.push(file(&format!("/svc/{}", name), content));
    }
    FileTree { entries }
}

fn declared(services: &Vec<Service>) -> Vec<String> {
    services[0]
        .depsfile
        .dependencies
        .iter()
        .map(|d| d.to_text())
        .collect()
}

#[test]
fn marker_of_lowest_rank_declares_the_service_whatever_the_order() {
    let all = Opts {
        supported_roots: vec![
            DepsfileType::Makefile,
            DepsfileType::Justfile,
            DepsfileType::Buildfile,
        ],
        ..mk_opts(ROOT)
    };
    let orders = vec![
        vec!["Depsfile", "Buildfile.yaml", "justfile", "Makefile"],
        vec!["Makefile", "justfile", "Buildfile.yaml", "Depsfile"],
        vec!["justfile", "Depsfile", "Makefile", "Buildfile.yaml"],
    ];

    for order in orders {
        let services = Service::discover(&markers_tree(order), &all).unwrap();

        assert_eq!(services.len(), 1);
        assert_eq!(declared(&services), vec!["/repo/full/from-depsfile"]);
    }

    let without_depsfile = vec![
        vec!["Buildfile.yaml", "justfile", "Makefile"],
        vec!["Makefile", "justfile", "Buildfile.yaml"],
    ];

    for order in without_depsfile {
        let services = Service::discover(&markers_tree(order), &all).unwrap();

        assert_eq!(services.len(), 1);
        assert_eq!(declared(&services), vec!["/repo/full/from-buildfile"]);
        assert_eq!(
            services[0].depsfile.languages,
            vec![monodeps::config::Language::Flutter]
        );
    }
}

#[test]
fn markers_that_were_not_asked_for_declare_nothing() {
    let tree = markers_tree(vec!["Buildfile.yaml", "justfile", "Makefile"]);

    let services = Service::discover(&tree, &mk_opts(ROOT)).unwrap();

    assert_eq!(services.len(), 0);
}

#[test]
fn languages_are_inferred_from_the_files_of_the_service() {
    let mut tree = markers_tree(vec!["Depsfile"]);
    tree.entries.push(file("/svc/a.go", "package a\n"));
    tree.entries.push(file("/svc/b.go", "package a\n"));
    tree.entries.push(file("/svc/c.cs", ""));
    tree.entries.push(file("/svc/d.cs", ""));
    tree.entries.push(file("/svc/e.cs", ""));
    tree.entries.push(file("/svc/api.proto", ""));
    tree.entries.push(dir("/svc/.git"));
    tree.entries.push(file("/svc/.git/go.mod", ""));
    tree.entries.push(file("/elsewhere/go.mod", ""));

    let services = Service::discover(&tree, &mk_opts(ROOT)).unwrap();

    assert_eq!(
        services[0].depsfile.languages,
        vec![
            monodeps::config::Language::Dotnet,
            monodeps::config::Language::Protobuf
        ]
    );
}

#[test]
fn dependencies_operation_reports_what_was_passed_over() {
    let mut tree = full_tree();
    tree.entries.push(dir("/service-x"));
    tree.entries.push(file(
        "/service-x/Depsfile",
        "languages: [go, cobol]\ndependencies: [shared, 'bad(*']\nowner: team\n",
    ));
    tree.entries.push(FileEntry {
        path: format!("{}/service-x/main.go", ROOT),
        kind: EntryKind::File,
        content: None,
        package: None,
    });
    let opts = mk_opts(ROOT);

    let impact = monodeps::operation::dependencies(
        &tree,
        vec![
            "shared/something".to_string(),
            "nowhere/file".to_string(),
            "service-c/x".to_string(),
        ],
        &opts,
    )
    .unwrap();
    let messages: Vec<String> = impact.diagnostics.iter().map(|d| d.to_text()).collect();
    let names: Vec<&str> = impact
        .services
        .iter()
        .map(|s| s.path.canonicalized.as_str())
        .collect();

    assert_eq!(
        names,
        vec!["/repo/full/service-c", "/repo/full/service-x"]
    );
    assert_eq!(impact.unowned, vec!["shared/something", "nowhere/file"]);
    assert_eq!(
        messages,
        vec![
            "/repo/full/service-x/Depsfile: unknown language: cobol",
            "/repo/full/service-x/Depsfile: invalid dependency 'bad(*'",
            "/repo/full/service-x/Depsfile: unknown configuration 'owner'",
            "go: failed to auto-discover dependencies: cannot read file [/repo/full/service-x]",
        ]
    );
}

#[test]
fn dependencies_operation_lists_all_services_when_asked() {
    let opts = Opts {
        all: true,
        supported_roots: vec![DepsfileType::Makefile, DepsfileType::Justfile],
        ..mk_opts(ROOT)
    };

    let impact = monodeps::operation::dependencies(&full_tree(), vec![], &opts).unwrap();

    assert_eq!(impact.services.len(), 8);
    assert!(impact.services.iter().all(|s| s.trigger.is_none()));
    assert_eq!(impact.unowned.len(), 0);
    assert_eq!(impact.diagnostics.len(), 0);
}

#[test]
fn dependencies_operation_fails_on_malformed_marker() {
    let mut tree = full_tree();
    tree.entries.push(dir("/service-x"));
    tree.entries.push(file("/service-x/Depsfile", "dependencies: [a\n"));

    let result = monodeps::operation::dependencies(&tree, vec![], &mk_opts(ROOT));

    assert_eq!(result.unwrap_err(), DiscoverError::Parse);
}

#[test]
fn no_file_is_reported_as_unowned_when_a_global_dependency_changed() {
    let opts = Opts {
        config: Config {
            auto_discovery: Default::default(),
            global_dependencies: vec![".gitlab".to_string()],
        },
        ..mk_opts(ROOT)
    };

    let impact = monodeps::operation::dependencies(
        &full_tree(),
        vec![".gitlab/pipeline.yml".to_string(), "nowhere".to_string()],
        &opts,
    )
    .unwrap();

    assert_eq!(impact.unowned.len(), 0);
    assert_eq!(impact.services.len(), 2);
}

#[test]
fn validate_operation_shows_dependencies() {
    let opts = Opts {
        supported_roots: vec![DepsfileType::Justfile],
        ..mk_opts(ROOT)
    };

    let shown = monodeps::operation::validate("service-e", &full_tree(), &opts).unwrap();
    let missing = monodeps::operation::validate("service-b", &full_tree(), &opts);

    assert_eq!(shown.diagnostics.len(), 0);
    assert_eq!(
        shown.text,
        "Dependencies (configured):\n  - /repo/full/service-f\nDependencies (auto-discovered):\n  - /repo/full/just/lib.just [justfile]\n  - /repo/full/file-does-not-exist [justfile]\n  - /repo/full/service-f [justfile]\n"
    );
    assert_eq!(missing.unwrap_err(), DiscoverError::NoServiceRoot);
}

#[test]
fn validate_operation_reports_what_was_passed_over() {
    let mut tree = full_tree();
    tree.entries.push(dir("/service-x"));
    tree.entries.push(file(
        "/service-x/Depsfile",
        "languages: [go, cobol]\ndependencies: [shared, 'bad(*']\nowner: team\n",
    ));
    tree.entries.push(FileEntry {
        path: format!("{}/service-x/main.go", ROOT),
        kind: EntryKind::File,
        content: None,
        package: None,
    });

    let shown = monodeps::operation::validate("service-x", &tree, &mk_opts(ROOT)).unwrap();
    let messages: Vec<String> = shown.diagnostics.iter().map(|d| d.to_text()).collect();
    let mut collected = Vec::new();
    let service =
        Service::try_determine_reporting("service-x/Depsfile", &tree, &mk_opts(ROOT), &mut collected)
            .unwrap();

    assert_eq!(shown.text, "Dependencies (configured):\n  - /repo/full/shared\n");
    assert_eq!(
        messages,
        vec![
            "/repo/full/service-x/Depsfile: unknown language: cobol",
            "/repo/full/service-x/Depsfile: invalid dependency 'bad(*'",
            "/repo/full/service-x/Depsfile: unknown configuration 'owner'",
            "go: failed to auto-discover dependencies: cannot read file [/repo/full/service-x]",
        ]
    );
    assert_eq!(collected.len(), 4);
    assert_eq!(service.path.canonicalized, "/repo/full/service-x");
}
