//! JavaScript and TypeScript: the packages of the repository that the
//! `package.json` files of a service depend on.

use crate::config::{compilable, compiled_view, pattern_views, DepPattern, PatternView};
use crate::files::{lemma_walked_absolute, walked, FileTree};
use crate::path::{
    file_name, file_name_of, is_absolute, joined, lemma_parent_absolute, parent, parent_of,
    PathInfo,
};
use crate::service::finder::{is_outcome, lemma_pattern_views_push};
use crate::service::AnalyzerError;
use crate::text::{from_chars, str_eq, to_chars};
use crate::utils::{append_strings, views};
use vstd::prelude::*;

verus! {

/// A package of the repository: its name, and the pattern for its directory.
#[derive(Debug)]
pub struct Package {
    pub name: String,
    pub pattern: DepPattern,
}

/// The analyzer for `package.json` files.
#[derive(Debug)]
pub struct JavaScriptAnalyzer {
    /// The root of the repository.
    pub root: PathInfo,
    /// The packages of the repository; of two with one name the later counts.
    pub packages: Vec<Package>,
}

/// A package by its name and what its pattern says.
pub struct PackageView {
    pub name: Seq<char>,
    pub pattern: PatternView,
}

/// The packages by name and pattern.
pub open spec fn package_views(packages: Seq<Package>) -> Seq<PackageView> {
    packages.map_values(|p: Package| PackageView { name: p.name@, pattern: p.pattern@ })
}

/// Whether the entry at `path` is a manifest: its name is `package.json`.
pub open spec fn is_manifest(path: Seq<char>) -> bool {
    file_name_of(path) == "package.json"@
}

/// The packages that the manifests among the first `upto` entries of a
/// walk of `root` declare: each manifest with a name gives a package
/// whose pattern is the directory of the manifest. It is an error when a
/// manifest is not well-formed, has no directory above it, or stands in
/// a directory whose path does not compile as a pattern.
pub open spec fn packages_of(
    tree: FileTree,
    root: Seq<char>,
    upto: int,
) -> Result<Seq<PackageView>, AnalyzerError>
    decreases upto,
{
    if upto <= 0 {
        Ok(Seq::<PackageView>::empty())
    } else {
        match packages_of(tree, root, upto - 1) {
            Ok(before) => {
                let entry = tree.entries@[tree.walk_positions(root)[upto - 1]];
                if !is_manifest(entry.path@) {
                    Ok(before)
                } else {
                    match entry.package {
                        None => Err(AnalyzerError::Parse),
                        Some(manifest) => if manifest.name@.len() == 0 {
                            Ok(before)
                        } else {
                            match parent_of(entry.path@) {
                                None => Err(AnalyzerError::NoParent),
                                Some(dir) => if compilable(dir) {
                                    Ok(
                                        before.push(
                                            PackageView {
                                                name: manifest.name@,
                                                pattern: compiled_view(dir, root),
                                            },
                                        ),
                                    )
                                } else {
                                    Err(AnalyzerError::InvalidPattern)
                                },
                            }
                        },
                    }
                }
            },
            Err(e) => Err(e),
        }
    }
}

/// The packages of the repository at `root`; none where they cannot all be had.
pub open spec fn known_packages(tree: FileTree, root: Seq<char>) -> Seq<PackageView> {
    match packages_of(tree, root, tree.walk_positions(root).len() as int) {
        Ok(packages) => packages,
        Err(_) => Seq::<PackageView>::empty(),
    }
}

/// Position of the last of the first `upto` packages that is named
/// `name`; -1 when there is none.
pub open spec fn package_at(packages: Seq<PackageView>, name: Seq<char>, upto: int) -> int
    decreases upto,
{
    if upto <= 0 {
        -1
    } else if packages[upto - 1].name == name {
        upto - 1
    } else {
        package_at(packages, name, upto - 1)
    }
}

/// The patterns of the packages that the first `upto` of `names` name, in order.
pub open spec fn named_packages(
    packages: Seq<PackageView>,
    names: Seq<Seq<char>>,
    upto: int,
) -> Seq<PatternView>
    decreases upto,
{
    if upto <= 0 {
        Seq::<PatternView>::empty()
    } else {
        let before = named_packages(packages, names, upto - 1);
        let at = package_at(packages, names[upto - 1], packages.len() as int);
        if at >= 0 {
            before.push(packages[at].pattern)
        } else {
            before
        }
    }
}

/// What the manifest at position `at` gives: the packages of the
/// repository among its development dependencies and then among its
/// dependencies. An entry that is no manifest gives nothing; a manifest
/// that is not well-formed is an error.
pub open spec fn manifest_references(
    tree: FileTree,
    at: int,
    packages: Seq<PackageView>,
) -> Result<Seq<PatternView>, AnalyzerError> {
    let entry = tree.entries@[at];
    if !is_manifest(entry.path@) {
        Ok(Seq::<PatternView>::empty())
    } else {
        match entry.package {
            None => Err(AnalyzerError::Parse),
            Some(manifest) => {
                let names = views(manifest.dev_dependencies@) + views(manifest.dependencies@);
                Ok(named_packages(packages, names, names.len() as int))
            },
        }
    }
}

/// What the first `upto` of the manifests `files` give, one after the other.
pub open spec fn manifests_of(
    tree: FileTree,
    files: Seq<usize>,
    packages: Seq<PackageView>,
    upto: int,
) -> Result<Seq<PatternView>, AnalyzerError>
    decreases upto,
{
    if upto <= 0 {
        Ok(Seq::<PatternView>::empty())
    } else {
        match manifests_of(tree, files, packages, upto - 1) {
            Ok(before) => match manifest_references(tree, files[upto - 1] as int, packages) {
                Ok(references) => Ok(before + references),
                Err(e) => Err(e),
            },
            Err(e) => Err(e),
        }
    }
}

/// What the manifests `files` of a service give: nothing where the
/// repository has no packages, otherwise what each gives, one after
/// the other.
pub open spec fn javascript_references(
    tree: FileTree,
    files: Seq<usize>,
    packages: Seq<PackageView>,
) -> Result<Seq<PatternView>, AnalyzerError> {
    if packages.len() == 0 {
        Ok(Seq::<PatternView>::empty())
    } else {
        manifests_of(tree, files, packages, files.len() as int)
    }
}

/// Once a manifest could not be read, further files do not help.
proof fn lemma_failure_stays(
    tree: FileTree,
    files: Seq<usize>,
    packages: Seq<PackageView>,
    from: int,
    upto: int,
)
    requires
        0 <= from <= upto,
        manifests_of(tree, files, packages, from) is Err,
    ensures
        manifests_of(tree, files, packages, upto) == manifests_of(tree, files, packages, from),
    decreases upto - from,
{
    if from < upto {
        lemma_failure_stays(tree, files, packages, from, upto - 1);
    }
}

/// Once a manifest of the repository could not be had, further entries
/// do not help.
proof fn lemma_load_failure_stays(tree: FileTree, root: Seq<char>, from: int, upto: int)
    requires
        0 <= from <= upto,
        packages_of(tree, root, from) is Err,
    ensures
        packages_of(tree, root, upto) == packages_of(tree, root, from),
    decreases upto - from,
{
    if from < upto {
        lemma_load_failure_stays(tree, root, from, upto - 1);
    }
}

/// Whether the entry at `path` is a manifest.
fn names_manifest(path: &str) -> (r: bool)
    ensures
        r == is_manifest(path@),
{
    let name = from_chars(&file_name(&to_chars(path)));
    str_eq(name.as_str(), "package.json")
}

/// The packages that the manifests of the repository at `root` declare.
pub fn load_packages(tree: &FileTree, root: &str) -> (r: Result<Vec<Package>, AnalyzerError>)
    requires
        is_absolute(root@),
    ensures
        match packages_of(*tree, root@, tree.walk_positions(root@).len() as int) {
            Ok(packages) => r is Ok && package_views(r->Ok_0@) == packages,
            Err(e) => r == Err::<Vec<Package>, AnalyzerError>(e),
        },
{
    let walk = tree.walk(root);
    let ghost positions = tree.walk_positions(root@);
    let mut packages: Vec<Package> = Vec::new();
    let mut i: usize = 0;
    assert(package_views(packages@) =~= Seq::<PackageView>::empty());
    while i < walk.len()
        invariant
            i <= walk.len(),
            is_absolute(root@),
            positions == tree.walk_positions(root@),
            walk@.len() == positions.len(),
            forall|k: int| 0 <= k < walk@.len() ==> walk@[k] == positions[k],
            forall|k: int|
                0 <= k < walk@.len() ==> (#[trigger] walk@[k]) < tree.entries@.len() && walked(
                    tree.entries@[walk@[k] as int].path@,
                    root@,
                ),
            packages_of(*tree, root@, i as int) == Ok::<Seq<PackageView>, AnalyzerError>(
                package_views(packages@),
            ),
        decreases walk.len() - i,
    {
        assert(walk@[i as int] == positions[i as int]);
        let entry = &tree.entries[walk[i]];
        if names_manifest(entry.path.as_str()) {
            let from_package_json = match &entry.package {
                Some(manifest) => manifest,
                None => {
                    proof {
                        lemma_load_failure_stays(*tree, root@, i + 1, walk@.len() as int);
                    }
                    return Err(AnalyzerError::Parse);
                },
            };
            if from_package_json.name.as_str().unicode_len() > 0 {
                let dir = match parent(&to_chars(entry.path.as_str())) {
                    Some(dir) => from_chars(&dir),
                    None => {
                        proof {
                            lemma_load_failure_stays(*tree, root@, i + 1, walk@.len() as int);
                        }
                        return Err(AnalyzerError::NoParent);
                    },
                };
                proof {
                    lemma_walked_absolute(entry.path@, root@);
                    lemma_parent_absolute(entry.path@);
                    assert(joined(root@, dir@) == dir@);
                }
                let pattern = match DepPattern::new(dir.as_str(), root) {
                    Ok(pattern) => pattern,
                    Err(_) => {
                        proof {
                            lemma_load_failure_stays(*tree, root@, i + 1, walk@.len() as int);
                        }
                        return Err(AnalyzerError::InvalidPattern);
                    },
                };
                let package = Package { name: from_package_json.name.clone(), pattern };
                assert(package_views(packages@.push(package)) =~= package_views(packages@).push(
                    PackageView { name: package.name@, pattern: package.pattern@ },
                ));
                packages.push(package);
            }
        }
        i = i + 1;
    }
    Ok(packages)
}

/// The packages of the repository at `root`; none where they cannot all be had.
pub fn try_load_packages(tree: &FileTree, root: &str) -> (r: Vec<Package>)
    requires
        is_absolute(root@),
    ensures
        package_views(r@) == known_packages(*tree, root@),
{
    match load_packages(tree, root) {
        Ok(packages) => packages,
        Err(_) => {
            let nothing: Vec<Package> = Vec::new();
            assert(package_views(nothing@) =~= Seq::<PackageView>::empty());
            nothing
        },
    }
}

impl JavaScriptAnalyzer {
    /// The analyzer for the repository at `root`, with the packages
    /// that the manifests of the repository declare.
    pub fn new(root: PathInfo, tree: &FileTree) -> (r: JavaScriptAnalyzer)
        requires
            is_absolute(root.canonicalized@),
        ensures
            r.root == root,
            package_views(r.packages@) == known_packages(*tree, root.canonicalized@),
    {
        let packages = try_load_packages(tree, root.canonicalized.as_str());
        JavaScriptAnalyzer { root, packages }
    }

    /// Whether the analyzer reads a file of this name, given in lower case.
    pub fn file_relevant(&self, file_name: &str) -> (r: bool)
        ensures
            r == (file_name@ == "package.json"@),
    {
        str_eq(file_name, "package.json")
    }

    /// The pattern of the package named `name`.
    fn find_package(&self, name: &str) -> (r: Option<&DepPattern>)
        ensures
            match r {
                Some(pattern) => {
                    let at = package_at(
                        package_views(self.packages@),
                        name@,
                        self.packages@.len() as int,
                    );
                    at >= 0 && pattern@ == package_views(self.packages@)[at].pattern
                },
                None => package_at(
                    package_views(self.packages@),
                    name@,
                    self.packages@.len() as int,
                ) < 0,
            },
    {
        let ghost all = package_views(self.packages@);
        let mut i: usize = self.packages.len();
        while i > 0
            invariant
                i <= self.packages.len(),
                all == package_views(self.packages@),
                package_at(all, name@, i as int) == package_at(
                    all,
                    name@,
                    self.packages@.len() as int,
                ),
            decreases i,
        {
            assert(all[i - 1].name == self.packages@[i - 1].name@);
            if str_eq(self.packages[i - 1].name.as_str(), name) {
                return Some(&self.packages[i - 1].pattern);
            }
            i = i - 1;
        }
        None
    }

    /// Appends the patterns of the packages that `names` name.
    fn collect_named(&self, names: &Vec<String>, deps: &mut Vec<DepPattern>)
        ensures
            pattern_views(final(deps)@) == pattern_views(old(deps)@) + named_packages(
                package_views(self.packages@),
                views(names@),
                names@.len() as int,
            ),
    {
        let ghost before = pattern_views(deps@);
        let ghost all = package_views(self.packages@);
        let mut i: usize = 0;
        assert(before + Seq::<PatternView>::empty() =~= before);
        while i < names.len()
            invariant
                i <= names.len(),
                all == package_views(self.packages@),
                pattern_views(deps@) == before + named_packages(all, views(names@), i as int),
            decreases names.len() - i,
        {
            assert(views(names@)[i as int] == names@[i as int]@);
            let ghost so_far = named_packages(all, views(names@), i as int);
            match self.find_package(names[i].as_str()) {
                Some(found) => {
                    let copy = found.duplicate();
                    proof {
                        lemma_pattern_views_push(deps@, copy);
                        assert((before + so_far).push(copy@) =~= before + so_far.push(copy@));
                    }
                    deps.push(copy);
                },
                None => {},
            }
            i = i + 1;
        }
    }

    /// The dependencies that the manifests `files` of a service show:
    /// the directory of each package of the repository that one of them
    /// names among its development dependencies or its dependencies.
    /// Nothing where the repository has no packages. Fails where a
    /// manifest is not well-formed.
    pub fn dependencies(&self, tree: &FileTree, files: &Vec<usize>) -> (r: Result<
        Vec<DepPattern>,
        AnalyzerError,
    >)
        requires
            forall|k: int| 0 <= k < files@.len() ==> (#[trigger] files@[k]) < tree.entries@.len(),
        ensures
            is_outcome(r, javascript_references(*tree, files@, package_views(self.packages@))),
    {
        let mut deps: Vec<DepPattern> = Vec::new();
        assert(pattern_views(deps@) =~= Seq::<PatternView>::empty());
        if self.packages.len() == 0 {
            return Ok(deps);
        }
        let ghost all = package_views(self.packages@);
        let mut f: usize = 0;
        while f < files.len()
            invariant
                f <= files.len(),
                all == package_views(self.packages@),
                all.len() > 0,
                forall|k: int|
                    0 <= k < files@.len() ==> (#[trigger] files@[k]) < tree.entries@.len(),
                manifests_of(*tree, files@, all, f as int) == Ok::<Seq<PatternView>, AnalyzerError>(
                    pattern_views(deps@),
                ),
            decreases files.len() - f,
        {
            let entry = &tree.entries[files[f]];
            let ghost before = pattern_views(deps@);
            if names_manifest(entry.path.as_str()) {
                let package_json = match &entry.package {
                    Some(manifest) => manifest,
                    None => {
                        proof {
                            lemma_failure_stays(*tree, files@, all, f + 1, files@.len() as int);
                        }
                        return Err(AnalyzerError::Parse);
                    },
                };
                let mut names: Vec<String> = Vec::new();
                assert(views(names@) =~= Seq::<Seq<char>>::empty());
                append_strings(
                    &mut names,
                    &package_json.dev_dependencies,
                );
                append_strings(&mut names, &package_json.dependencies);
                assert(views(names@) =~= views(package_json.dev_dependencies@) + views(
                    package_json.dependencies@,
                ));
                self.collect_named(&names, &mut deps);
            } else {
                assert(before + Seq::<PatternView>::empty() =~= before);
            }
            f = f + 1;
        }
        Ok(deps)
    }
}

} // verus!
