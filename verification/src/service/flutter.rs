//! Flutter and Dart: the local packages, fonts and assets that the
//! `pubspec.yaml` files of a service name.

use crate::config::{literal_view, literal_views, pattern_views, plain_all, DepPattern, PatternView};
use crate::files::FileTree;
use crate::path::{cleaned, is_absolute, joined, lemma_parent_absolute, parent, parent_of, PathInfo};
use crate::service::finder::{append_patterns, is_outcome};
use crate::service::AnalyzerError;
use crate::text::{chars_eq_ignore_ascii_case, eq_ignore_ascii_case, from_chars, str_eq, to_chars};
use crate::utils::{
    append_strings, child_at, lemma_loaded_child, lemma_views_push, load_yaml, node_or_bad,
    str_list_at, top_level, views, yaml_documents, YamlEntry, YamlNode,
};
use vstd::prelude::*;

verus! {

/// What every package of a workspace depends on.
#[derive(Debug)]
pub struct Workspace {
    pub dependencies: Vec<DepPattern>,
}

/// The analyzer for `pubspec.yaml` files.
#[derive(Debug)]
pub struct FlutterAnalyzer {
    /// The workspace of the repository, where its root declares one.
    pub workspace: Option<Workspace>,
}

/// The `path` of each of `entries` whose value has one, in order.
pub open spec fn entry_paths(entries: Seq<YamlEntry>) -> Seq<Seq<char>>
    decreases entries.len(),
{
    if entries.len() == 0 {
        Seq::<Seq<char>>::empty()
    } else {
        let before = entry_paths(entries.drop_last());
        match entries.last().value.child("path"@).text() {
            Some(path) => before.push(path),
            None => before,
        }
    }
}

/// The local packages among the dependencies `node`: the `path` of each
/// entry that has one.
pub open spec fn local_paths(node: YamlNode) -> Seq<Seq<char>> {
    entry_paths(node.entries())
}

/// The `asset` of each of `fonts`; `None` where one of them has none.
pub open spec fn font_files(fonts: Seq<YamlNode>) -> Option<Seq<Seq<char>>>
    decreases fonts.len(),
{
    if fonts.len() == 0 {
        Some(Seq::<Seq<char>>::empty())
    } else {
        match (font_files(fonts.drop_last()), fonts.last().child("asset"@).text()) {
            (Some(before), Some(asset)) => Some(before.push(asset)),
            _ => None,
        }
    }
}

/// The assets of the fonts of each of `families`, one family after the
/// other; `None` where a family has no list of fonts, or a font no asset.
pub open spec fn family_files(families: Seq<YamlNode>) -> Option<Seq<Seq<char>>>
    decreases families.len(),
{
    if families.len() == 0 {
        Some(Seq::<Seq<char>>::empty())
    } else {
        match family_files(families.drop_last()) {
            Some(before) => if families.last().child("fonts"@) is Array {
                match font_files(families.last().child("fonts"@).items()) {
                    Some(files) => Some(before + files),
                    None => None,
                }
            } else {
                None
            },
            None => None,
        }
    }
}

/// The font files that the list of font families `node` names; none
/// where the list is malformed anywhere.
pub open spec fn font_paths(node: YamlNode) -> Seq<Seq<char>> {
    if node is Array {
        match family_files(node.items()) {
            Some(files) => files,
            None => Seq::<Seq<char>>::empty(),
        }
    } else {
        Seq::<Seq<char>>::empty()
    }
}

/// The strings among `items`, empty ones too, in order.
pub open spec fn strings_of(items: Seq<YamlNode>) -> Seq<Seq<char>>
    decreases items.len(),
{
    if items.len() == 0 {
        Seq::<Seq<char>>::empty()
    } else {
        let before = strings_of(items.drop_last());
        match items.last().text() {
            Some(s) => before.push(s),
            None => before,
        }
    }
}

/// What the pubspec with the text `text` names, relative to its own
/// directory: the local packages among its `dependencies` and
/// `dev_dependencies`, its font files, and its `flutter.assets`.
pub open spec fn pubspec_paths(text: Seq<char>) -> Seq<Seq<char>> {
    local_paths(top_level(text, "dependencies"@)) + local_paths(
        top_level(text, "dev_dependencies"@),
    ) + font_paths(top_level(text, "fonts"@)) + strings_of(
        top_level(text, "flutter"@).child("assets"@).items(),
    )
}

/// Whether the pubspec with the text `text` is resolved as part of a workspace.
pub open spec fn in_workspace(text: Seq<char>) -> bool {
    match top_level(text, "resolution"@).text() {
        Some(resolution) => eq_ignore_ascii_case(resolution, "workspace"@),
        None => false,
    }
}

/// Whether the root of the repository declares a workspace: its
/// `pubspec.yaml` is well-formed and lists at least one package under
/// `workspace`.
pub open spec fn declares_workspace(tree: FileTree, root: Seq<char>) -> bool {
    match tree.text(cleaned(joined(root, "pubspec.yaml"@))) {
        Some(text) => yaml_documents(text) is Some && top_level(
            text,
            "workspace"@,
        ).str_list().len() > 0,
        None => false,
    }
}

/// What every package of the workspace at `root` depends on: the
/// `pubspec.yaml` and the `pubspec.lock` of the root.
pub open spec fn workspace_files(root: Seq<char>) -> Seq<PatternView> {
    seq![literal_view("pubspec.yaml"@, root), literal_view("pubspec.lock"@, root)]
}

/// What the pubspec at position `at` gives: what every package of the
/// workspace depends on, where there is a workspace (`shared`) and the
/// pubspec is part of it, and then what the pubspec names. It is an
/// error when the pubspec cannot be read or is not well-formed; one
/// without a directory above it gives nothing.
pub open spec fn pubspec_references(
    tree: FileTree,
    at: int,
    shared: Option<Seq<PatternView>>,
) -> Result<Seq<PatternView>, AnalyzerError> {
    match parent_of(tree.entries@[at].path@) {
        None => Ok(Seq::<PatternView>::empty()),
        Some(dir) => match tree.entries@[at].content {
            None => Err(AnalyzerError::Unreadable),
            Some(content) => if yaml_documents(content@) is None {
                Err(AnalyzerError::Parse)
            } else {
                let common = match shared {
                    Some(dependencies) => if in_workspace(content@) {
                        dependencies
                    } else {
                        Seq::<PatternView>::empty()
                    },
                    None => Seq::<PatternView>::empty(),
                };
                Ok(common + literal_views(pubspec_paths(content@), dir))
            },
        },
    }
}

/// What the first `upto` of the pubspecs `files` give, one after the
/// other; the first error, where one cannot be read.
pub open spec fn pubspecs_of(
    tree: FileTree,
    files: Seq<usize>,
    shared: Option<Seq<PatternView>>,
    upto: int,
) -> Result<Seq<PatternView>, AnalyzerError>
    decreases upto,
{
    if upto <= 0 {
        Ok(Seq::<PatternView>::empty())
    } else {
        match pubspecs_of(tree, files, shared, upto - 1) {
            Ok(before) => match pubspec_references(tree, files[upto - 1] as int, shared) {
                Ok(references) => Ok(before + references),
                Err(e) => Err(e),
            },
            Err(e) => Err(e),
        }
    }
}

/// Once a pubspec could not be read, further files do not help.
proof fn lemma_failure_stays(
    tree: FileTree,
    files: Seq<usize>,
    shared: Option<Seq<PatternView>>,
    from: int,
    upto: int,
)
    requires
        0 <= from <= upto,
        pubspecs_of(tree, files, shared, from) is Err,
    ensures
        pubspecs_of(tree, files, shared, upto) == pubspecs_of(tree, files, shared, from),
    decreases upto - from,
{
    if from < upto {
        lemma_failure_stays(tree, files, shared, from, upto - 1);
    }
}

/// The strings among the items of `assets`, empty ones too.
pub fn find_assets(assets: Option<&YamlNode>) -> (r: Vec<String>)
    ensures
        views(r@) == strings_of(node_or_bad(assets).items()),
{
    let mut out: Vec<String> = Vec::new();
    assert(views(out@) =~= Seq::<Seq<char>>::empty());
    let items = match assets {
        Some(node) => match node.as_vec() {
            Some(items) => items,
            None => {
                return out;
            },
        },
        None => {
            return out;
        },
    };
    let mut i: usize = 0;
    assert(items@.take(0) =~= Seq::<YamlNode>::empty());
    while i < items.len()
        invariant
            i <= items.len(),
            views(out@) == strings_of(items@.take(i as int)),
        decreases items.len() - i,
    {
        assert(items@.take(i + 1).drop_last() =~= items@.take(i as int));
        assert(items@.take(i + 1).last() == items@[i as int]);
        match items[i].as_str() {
            Some(asset) => {
                let owned = asset.to_owned();
                proof {
                    lemma_views_push(out@, owned);
                }
                out.push(owned);
            },
            None => {},
        }
        i = i + 1;
    }
    assert(items@.take(items.len() as int) =~= items@);
    out
}

/// The `asset` of each of `fonts`; `None` where one of them has none.
fn find_font_files(fonts: &Vec<YamlNode>) -> (r: Option<Vec<String>>)
    ensures
        r is Some == font_files(fonts@) is Some,
        r is Some ==> views(r->0@) == font_files(fonts@)->0,
{
    let mut out: Vec<String> = Vec::new();
    assert(views(out@) =~= Seq::<Seq<char>>::empty());
    let mut i: usize = 0;
    assert(fonts@.take(0) =~= Seq::<YamlNode>::empty());
    while i < fonts.len()
        invariant
            i <= fonts.len(),
            font_files(fonts@.take(i as int)) == Some(views(out@)),
        decreases fonts.len() - i,
    {
        assert(fonts@.take(i + 1).drop_last() =~= fonts@.take(i as int));
        assert(fonts@.take(i + 1).last() == fonts@[i as int]);
        let asset = match child_at(Some(&fonts[i]), "asset") {
            Some(node) => node.as_str(),
            None => None,
        };
        match asset {
            Some(asset) => {
                let owned = asset.to_owned();
                proof {
                    lemma_views_push(out@, owned);
                }
                out.push(owned);
            },
            None => {
                proof {
                    lemma_fonts_stay_malformed(fonts@, i + 1, fonts@.len() as int);
                    assert(fonts@.take(fonts@.len() as int) =~= fonts@);
                }
                return None;
            },
        }
        i = i + 1;
    }
    assert(fonts@.take(fonts.len() as int) =~= fonts@);
    Some(out)
}

/// A list of fonts that is malformed stays so when it grows.
proof fn lemma_fonts_stay_malformed(fonts: Seq<YamlNode>, from: int, upto: int)
    requires
        0 <= from <= upto <= fonts.len(),
        font_files(fonts.take(from)) is None,
    ensures
        font_files(fonts.take(upto)) is None,
    decreases upto - from,
{
    if from < upto {
        lemma_fonts_stay_malformed(fonts, from, upto - 1);
        assert(fonts.take(upto).drop_last() =~= fonts.take(upto - 1));
    }
}

/// A list of families that is malformed stays so when it grows.
proof fn lemma_families_stay_malformed(families: Seq<YamlNode>, from: int, upto: int)
    requires
        0 <= from <= upto <= families.len(),
        family_files(families.take(from)) is None,
    ensures
        family_files(families.take(upto)) is None,
    decreases upto - from,
{
    if from < upto {
        lemma_families_stay_malformed(families, from, upto - 1);
        assert(families.take(upto).drop_last() =~= families.take(upto - 1));
    }
}

/// The font files that the list of font families `fonts` names.
pub fn find_fonts(fonts: Option<&YamlNode>) -> (r: Vec<String>)
    ensures
        views(r@) == font_paths(node_or_bad(fonts)),
{
    let mut out: Vec<String> = Vec::new();
    assert(views(out@) =~= Seq::<Seq<char>>::empty());
    let families = match fonts {
        Some(node) => match node.as_vec() {
            Some(items) => items,
            None => {
                return out;
            },
        },
        None => {
            return out;
        },
    };
    let mut i: usize = 0;
    assert(families@.take(0) =~= Seq::<YamlNode>::empty());
    while i < families.len()
        invariant
            i <= families.len(),
            node_or_bad(fonts) is Array,
            node_or_bad(fonts).items() == families@,
            family_files(families@.take(i as int)) == Some(views(out@)),
        decreases families.len() - i,
    {
        assert(families@.take(i + 1).drop_last() =~= families@.take(i as int));
        assert(families@.take(i + 1).last() == families@[i as int]);
        let family_fonts = match child_at(Some(&families[i]), "fonts") {
            Some(node) => node.as_vec(),
            None => None,
        };
        let files = match family_fonts {
            Some(items) => find_font_files(items),
            None => None,
        };
        match files {
            Some(files) => {
                append_strings(&mut out, &files);
            },
            None => {
                proof {
                    lemma_families_stay_malformed(families@, i + 1, families@.len() as int);
                    assert(families@.take(families@.len() as int) =~= families@);
                }
                let nothing: Vec<String> = Vec::new();
                assert(views(nothing@) =~= Seq::<Seq<char>>::empty());
                return nothing;
            },
        }
        i = i + 1;
    }
    assert(families@.take(families.len() as int) =~= families@);
    out
}

/// The local packages among the dependencies `dependencies`.
pub fn find_local_dependencies(dependencies: Option<&YamlNode>) -> (r: Vec<String>)
    ensures
        views(r@) == local_paths(node_or_bad(dependencies)),
{
    let mut collected: Vec<String> = Vec::new();
    assert(views(collected@) =~= Seq::<Seq<char>>::empty());
    let entries = match dependencies {
        Some(node) => match node.as_hash() {
            Some(entries) => entries,
            None => {
                return collected;
            },
        },
        None => {
            return collected;
        },
    };
    let mut i: usize = 0;
    assert(entries@.take(0) =~= Seq::<YamlEntry>::empty());
    while i < entries.len()
        invariant
            i <= entries.len(),
            views(collected@) == entry_paths(entries@.take(i as int)),
        decreases entries.len() - i,
    {
        assert(entries@.take(i + 1).drop_last() =~= entries@.take(i as int));
        assert(entries@.take(i + 1).last() == entries@[i as int]);
        match child_at(Some(&entries[i].value), "path") {
            Some(node) => match node.as_str() {
                Some(path) => {
                    let owned = path.to_owned();
                    proof {
                        lemma_views_push(collected@, owned);
                    }
                    collected.push(owned);
                },
                None => {},
            },
            None => {},
        }
        i = i + 1;
    }
    assert(entries@.take(entries.len() as int) =~= entries@);
    collected
}

/// What the pubspec `document` names, relative to its own directory.
fn find_pubspec_paths(document: &YamlNode) -> (r: Vec<String>)
    ensures
        views(r@) == local_paths(document.child("dependencies"@)) + local_paths(
            document.child("dev_dependencies"@),
        ) + font_paths(document.child("fonts"@)) + strings_of(
            document.child("flutter"@).child("assets"@).items(),
        ),
{
    let mut out = find_local_dependencies(document.get("dependencies"));
    let dev = find_local_dependencies(document.get("dev_dependencies"));
    append_strings(&mut out, &dev);
    let fonts = find_fonts(document.get("fonts"));
    append_strings(&mut out, &fonts);
    let assets = find_assets(child_at(document.get("flutter"), "assets"));
    append_strings(&mut out, &assets);
    out
}

/// What every package of the workspace at `root` depends on, where the
/// root declares a workspace.
pub fn try_parse_workspace_pubspec(root: &PathInfo, tree: &FileTree) -> (r: Option<Workspace>)
    requires
        is_absolute(root.canonicalized@),
    ensures
        r is Some == declares_workspace(*tree, root.canonicalized@),
        r is Some ==> pattern_views(r->0.dependencies@) == workspace_files(root.canonicalized@),
{
    let base = root.canonicalized.as_str();
    let path = PathInfo::locate("pubspec.yaml", base);
    let text = match tree.read(path.canonicalized.as_str()) {
        Some(text) => text,
        None => {
            return None;
        },
    };
    let yaml = match load_yaml(Some(text)) {
        Ok(document) => document,
        Err(_) => {
            return None;
        },
    };
    let references = str_list_at(yaml.get("workspace"));
    proof {
        lemma_loaded_child(yaml, text@, "workspace"@);
    }
    if references.len() == 0 {
        None
    } else {
        let mut dependencies: Vec<DepPattern> = Vec::new();
        dependencies.push(DepPattern::literal("pubspec.yaml", base));
        dependencies.push(DepPattern::literal("pubspec.lock", base));
        assert(pattern_views(dependencies@) =~= workspace_files(root.canonicalized@));
        Some(Workspace { dependencies })
    }
}

impl FlutterAnalyzer {
    /// The analyzer for the repository at `root`.
    pub fn new(root: &PathInfo, tree: &FileTree) -> (r: FlutterAnalyzer)
        requires
            is_absolute(root.canonicalized@),
        ensures
            r.workspace is Some == declares_workspace(*tree, root.canonicalized@),
            r.workspace is Some ==> pattern_views(r.workspace->0.dependencies@) == workspace_files(
                root.canonicalized@,
            ),
    {
        FlutterAnalyzer { workspace: try_parse_workspace_pubspec(root, tree) }
    }

    /// What every package of the workspace depends on, where there is a workspace.
    pub open spec fn shared(&self) -> Option<Seq<PatternView>> {
        match self.workspace {
            Some(workspace) => Some(pattern_views(workspace.dependencies@)),
            None => None,
        }
    }

    /// Whether the analyzer reads a file of this name, given in lower case.
    pub fn file_relevant(&self, file_name: &str) -> (r: bool)
        ensures
            r == (file_name@ == "pubspec.yaml"@),
    {
        str_eq(file_name, "pubspec.yaml")
    }

    /// The dependencies that the pubspecs `files` of a service show.
    /// Each gives the files of the workspace, where it is part of one,
    /// then the local packages among its dependencies and development
    /// dependencies, its font files, and its assets, each relative to
    /// the directory of the pubspec. Fails where a pubspec cannot be
    /// read or is not well-formed.
    pub fn dependencies(&self, tree: &FileTree, files: &Vec<usize>) -> (r: Result<
        Vec<DepPattern>,
        AnalyzerError,
    >)
        requires
            forall|k: int|
                0 <= k < files@.len() ==> (#[trigger] files@[k]) < tree.entries@.len()
                    && is_absolute(tree.entries@[files@[k] as int].path@),
        ensures
            is_outcome(r, pubspecs_of(*tree, files@, self.shared(), files@.len() as int)),
    {
        let mut dependencies: Vec<DepPattern> = Vec::new();
        let mut f: usize = 0;
        assert(pattern_views(dependencies@) =~= Seq::<PatternView>::empty());
        while f < files.len()
            invariant
                f <= files.len(),
                forall|k: int|
                    0 <= k < files@.len() ==> (#[trigger] files@[k]) < tree.entries@.len()
                        && is_absolute(tree.entries@[files@[k] as int].path@),
                pubspecs_of(*tree, files@, self.shared(), f as int) == Ok::<
                    Seq<PatternView>,
                    AnalyzerError,
                >(pattern_views(dependencies@)),
            decreases files.len() - f,
        {
            let entry = &tree.entries[files[f]];
            let ghost before = pattern_views(dependencies@);
            match parent(&to_chars(entry.path.as_str())) {
                None => {
                    assert(before + Seq::<PatternView>::empty() =~= before);
                },
                Some(dir) => {
                    let pubspec_dir = from_chars(&dir);
                    proof {
                        lemma_parent_absolute(entry.path@);
                    }
                    let text = match &entry.content {
                        Some(text) => text,
                        None => {
                            proof {
                                lemma_failure_stays(
                                    *tree,
                                    files@,
                                    self.shared(),
                                    f + 1,
                                    files@.len() as int,
                                );
                            }
                            return Err(AnalyzerError::Unreadable);
                        },
                    };
                    let yaml = match load_yaml(Some(text.as_str())) {
                        Ok(document) => document,
                        Err(_) => {
                            proof {
                                lemma_failure_stays(
                                    *tree,
                                    files@,
                                    self.shared(),
                                    f + 1,
                                    files@.len() as int,
                                );
                            }
                            return Err(AnalyzerError::Parse);
                        },
                    };
                    proof {
                        lemma_loaded_child(yaml, text@, "resolution"@);
                        lemma_loaded_child(yaml, text@, "dependencies"@);
                        lemma_loaded_child(yaml, text@, "dev_dependencies"@);
                        lemma_loaded_child(yaml, text@, "fonts"@);
                        lemma_loaded_child(yaml, text@, "flutter"@);
                    }
                    match &self.workspace {
                        Some(workspace) => {
                            let is_part_of_workspace = match yaml.get("resolution") {
                                Some(node) => match node.as_str() {
                                    Some(resolution) => chars_eq_ignore_ascii_case(
                                        &to_chars(resolution),
                                        &to_chars("workspace"),
                                    ),
                                    None => false,
                                },
                                None => false,
                            };
                            if is_part_of_workspace {
                                append_patterns(&mut dependencies, &workspace.dependencies);
                            } else {
                                assert(before + Seq::<PatternView>::empty() =~= before);
                            }
                        },
                        None => {
                            assert(before + Seq::<PatternView>::empty() =~= before);
                        },
                    }
                    let ghost common = match self.shared() {
                        Some(shared) => if in_workspace(text@) {
                            shared
                        } else {
                            Seq::<PatternView>::empty()
                        },
                        None => Seq::<PatternView>::empty(),
                    };
                    assert(pattern_views(dependencies@) == before + common);
                    let names = find_pubspec_paths(&yaml);
                    let own = plain_all(&names, pubspec_dir.as_str());
                    append_patterns(&mut dependencies, &own);
                    assert(pattern_views(dependencies@) =~= before + (common + literal_views(
                        pubspec_paths(text@),
                        pubspec_dir@,
                    )));
                },
            }
            f = f + 1;
        }
        Ok(dependencies)
    }
}

} // verus!
