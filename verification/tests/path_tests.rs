use monodeps::path::{
    canonical_from, extension, file_name, file_stem, join, parent, strip_base, under, PathError,
    PathInfo,
};
use monodeps::text::{from_chars, to_chars};

fn absolute(path: &str) -> String {
    std::path::absolute(path).unwrap().to_str().unwrap().to_owned()
}

#[test]
fn new_path_info_non_existing_file() {
    let info = PathInfo::new("dir/does/not/exist", ".");

    assert_eq!(info.is_ok(), true);
    assert_eq!(
        info.unwrap().canonicalized,
        absolute("./dir/does/not/exist")
    );
}

#[test]
fn new_path_info_existing_file() {
    let info = PathInfo::new("src/cli.rs", ".");

    assert_eq!(info.is_ok(), true);
    assert_eq!(info.unwrap().display_path, "src/cli.rs");
}

#[test]
fn new_path_info_existing_file_unknown_root_dir() {
    let info = PathInfo::new("src/cli.rs", "/tmp/some/where");

    assert_eq!(info.is_ok(), true);
    assert_eq!(info.unwrap().canonicalized, "/tmp/some/where/src/cli.rs");
}

#[test]
fn new_path_info_wildcard_path() {
    let info = PathInfo::new("src/*", ".");

    assert_eq!(info.is_ok(), true);
    assert_eq!(info.unwrap().canonicalized, absolute("./src/*"));
}

#[test]
fn canonical_form_of_absolute_path_is_cleaned() {
    assert_eq!(
        monodeps::path::canonicalize("/a/./b/../c//d/"),
        Ok("/a/c/d".to_string())
    );
    assert_eq!(monodeps::path::canonicalize("/.."), Ok("/".to_string()));
}

#[test]
fn canonical_form_of_relative_path_is_absolute() {
    let canonical = monodeps::path::canonicalize("some/../dir").unwrap();

    assert_eq!(canonical, absolute("dir"));
    assert_eq!(canonical.starts_with('/'), true);
}

#[test]
fn canonical_form_of_empty_path_does_not_exist() {
    assert_eq!(
        monodeps::path::canonicalize(""),
        Err(monodeps::path::PathError::Unresolvable)
    );
}

#[test]
fn canonicalization_is_idempotent() {
    let inputs = vec!["/a/b/../c", "/", "/x//y/./z/", "rel/../path", "."];

    for input in inputs {
        let once = monodeps::path::canonicalize(input).unwrap();
        let twice = monodeps::path::canonicalize(&once).unwrap();

        assert_eq!(once, twice);
    }
}

#[test]
fn canonical_from_takes_the_resolved_path() {
    assert_eq!(
        canonical_from("a/b", Some("/cwd/a/../b".to_string())),
        Ok("/cwd/b".to_string())
    );
    assert_eq!(canonical_from("a/b", None), Err(PathError::Unresolvable));
    assert_eq!(
        canonical_from("/x/../y", Some("/ignored".to_string())),
        Ok("/y".to_string())
    );
}

#[test]
fn path_info_of_empty_path_keeps_the_root() {
    let info = PathInfo::new("", "/repo/svc").unwrap();

    assert_eq!(info.display_path, "");
    assert_eq!(info.canonicalized, "/repo/svc");
}

#[test]
fn path_info_absolute_path_replaces_root() {
    let info = PathInfo::new("/other/place", "/repo").unwrap();

    assert_eq!(info.canonicalized, "/other/place");
    assert_eq!(info.display_path, "/other/place");
}

#[test]
fn relative_to_strips_origin() {
    let origin = PathInfo::new("/repo", "").unwrap();
    let inside = PathInfo::new("svc/a", "/repo").unwrap();
    let outside = PathInfo::new("/elsewhere/svc", "/repo").unwrap();
    let sibling = PathInfo::new("/repository/svc", "/repo").unwrap();

    assert_eq!(inside.relative_to(&origin), "./svc/a");
    assert_eq!(origin.relative_to(&origin), "./");
    assert_eq!(outside.relative_to(&origin), "/elsewhere/svc");
    assert_eq!(sibling.relative_to(&origin), "/repository/svc");
}

#[test]
fn lexical_path_parts() {
    let text = |v: Option<Vec<char>>| v.map(|c| from_chars(&c));

    assert_eq!(text(parent(&to_chars("/a/b/c.txt"))), Some("/a/b".to_string()));
    assert_eq!(text(parent(&to_chars("/a"))), Some("/".to_string()));
    assert_eq!(text(parent(&to_chars("/"))), None);
    assert_eq!(text(parent(&to_chars("a"))), Some("".to_string()));
    assert_eq!(text(parent(&to_chars(""))), None);
    assert_eq!(from_chars(&file_name(&to_chars("/a/b/c.txt"))), "c.txt");
    assert_eq!(text(extension(&to_chars("c.tar.gz"))), Some("gz".to_string()));
    assert_eq!(text(extension(&to_chars(".hidden"))), None);
    assert_eq!(text(extension(&to_chars("Makefile"))), None);
    assert_eq!(text(extension(&to_chars(".."))), None);
    assert_eq!(from_chars(&file_stem(&to_chars("Common.Logging.csproj"))), "Common.Logging");
    assert_eq!(from_chars(&file_stem(&to_chars(".profile"))), ".profile");
    assert_eq!(from_chars(&join(&to_chars("/a"), &to_chars("b"))), "/a/b");
    assert_eq!(from_chars(&join(&to_chars("/a/"), &to_chars("b"))), "/a/b");
    assert_eq!(from_chars(&join(&to_chars("/a"), &to_chars("/b"))), "/b");
    assert_eq!(from_chars(&join(&to_chars(""), &to_chars("b"))), "b");
    assert_eq!(from_chars(&join(&to_chars("/a"), &to_chars(""))), "/a/");
    assert_eq!(under(&to_chars("/a/b"), &to_chars("/a")), true);
    assert_eq!(under(&to_chars("/ab"), &to_chars("/a")), false);
    assert_eq!(under(&to_chars("/a"), &to_chars("/a")), true);
    assert_eq!(under(&to_chars("/a"), &to_chars("/")), true);
    assert_eq!(text(strip_base(&to_chars("/a/b/c"), &to_chars("/a"))), Some("b/c".to_string()));
    assert_eq!(text(strip_base(&to_chars("/a/b"), &to_chars("/x"))), None);
}
