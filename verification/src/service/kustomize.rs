//! Kustomize: the files that the kustomizations of a service pull in,
//! followed through the directories they refer to.

use crate::config::{literal_view, pattern_views, DepPattern, PatternView};
use crate::files::{lemma_entry_at, FileTree};
use crate::path::{
    canonicalize, cleaned, is_absolute, join, joined, lemma_parent_absolute, parent, parent_of,
};
use crate::service::finder::{
    is_outcome, lemma_more_visited, lemma_pattern_views_push, lemma_visit, merged, unvisited,
    ReferenceFinder,
};
use crate::service::AnalyzerError;
use crate::text::{from_chars, str_eq, to_chars};
use crate::utils::{
    append_strings, child_at, lemma_loaded_child, lemma_views_push, load_yaml, node_or_bad,
    str_list_at, top_level, views, yaml_documents, YamlNode,
};
use vstd::prelude::*;

verus! {

/// The analyzer for kustomizations.
#[derive(Debug)]
pub struct KustomizeAnalyzer {}

/// The non-empty `path` of each of `items`, in order.
pub open spec fn patch_paths(items: Seq<YamlNode>) -> Seq<Seq<char>>
    decreases items.len(),
{
    if items.len() == 0 {
        Seq::<Seq<char>>::empty()
    } else {
        let before = patch_paths(items.drop_last());
        match items.last().child("path"@).text() {
            Some(path) => if path.len() > 0 {
                before.push(path)
            } else {
                before
            },
            None => before,
        }
    }
}

/// The `files` of each of `items`, one list after the other.
pub open spec fn generator_files(items: Seq<YamlNode>) -> Seq<Seq<char>>
    decreases items.len(),
{
    if items.len() == 0 {
        Seq::<Seq<char>>::empty()
    } else {
        generator_files(items.drop_last()) + items.last().child("files"@).str_list()
    }
}

/// What the kustomization with the text `text` refers to: its
/// `resources`, `bases` and `components`, the `path` of each of its
/// `patches`, and the `files` of each `configMapGenerator`, in that order.
pub open spec fn kustomization_refs(text: Seq<char>) -> Seq<Seq<char>> {
    top_level(text, "resources"@).str_list() + top_level(text, "bases"@).str_list() + top_level(
        text,
        "components"@,
    ).str_list() + patch_paths(top_level(text, "patches"@).items()) + generator_files(
        top_level(text, "configMapGenerator"@).items(),
    )
}

/// Where the traversal of kustomizations stands: which entries were
/// visited, what was found, and why it gave up, if it did.
pub struct Walk {
    pub found: Seq<bool>,
    pub references: Seq<PatternView>,
    pub error: Option<AnalyzerError>,
}

/// The kustomization of the directory `dir`: `kustomization.yaml`,
/// or else `kustomization.yml`, where there is one.
pub open spec fn kustomization_in(tree: FileTree, dir: Seq<char>) -> Option<Seq<char>> {
    let yaml = joined(dir, "kustomization.yaml"@);
    let yml = joined(dir, "kustomization.yml"@);
    if tree.has(cleaned(yaml)) {
        Some(yaml)
    } else if tree.has(cleaned(yml)) {
        Some(yml)
    } else {
        None
    }
}

/// The traversal of the kustomization at `path`. It is an error when
/// the path has no directory above it, when the kustomization was
/// visited before (`Cycle`), when it is not there, cannot be read or is
/// not well-formed. Otherwise it is marked as visited and gives what
/// its references give.
pub open spec fn walk_file(tree: FileTree, path: Seq<char>, found: Seq<bool>) -> Walk
    decreases unvisited(found), 0nat,
{
    let at = tree.position(cleaned(path));
    let nothing = Walk { found, references: Seq::<PatternView>::empty(), error: None };
    if found.len() != tree.entries@.len() {
        nothing
    } else {
        match parent_of(path) {
            None => Walk { error: Some(AnalyzerError::NoParent), ..nothing },
            Some(dir) => if tree.has(cleaned(path)) && found[at] {
                Walk { error: Some(AnalyzerError::Cycle), ..nothing }
            } else if !tree.has(cleaned(path)) {
                Walk { error: Some(AnalyzerError::NotFound), ..nothing }
            } else {
                match tree.text(cleaned(path)) {
                    None => Walk { error: Some(AnalyzerError::Unreadable), ..nothing },
                    Some(text) => if yaml_documents(text) is None {
                        Walk { error: Some(AnalyzerError::Parse), ..nothing }
                    } else {
                        proof {
                            lemma_entry_at(tree.entries@, cleaned(path), 0);
                            lemma_visit(found, at);
                        }
                        walk_refs(tree, dir, kustomization_refs(text), 0, found.update(at, true))
                    },
                }
            },
        }
    }
}

/// The traversal of the references of a kustomization in `dir` from
/// reference `from` on. A reference to a file gives the file as a
/// literal pattern; a reference to a directory gives what the
/// kustomization of that directory gives; any other reference gives
/// nothing.
pub open spec fn walk_refs(
    tree: FileTree,
    dir: Seq<char>,
    refs: Seq<Seq<char>>,
    from: int,
    found: Seq<bool>,
) -> Walk
    decreases unvisited(found), refs.len() - from + 1,
{
    if from < 0 || from >= refs.len() {
        Walk { found, references: Seq::<PatternView>::empty(), error: None }
    } else {
        let path = joined(dir, refs[from]);
        let first = if tree.has_file(cleaned(path)) {
            Walk { found, references: seq![literal_view(path, path)], error: None }
        } else if tree.has_dir(cleaned(path)) {
            match kustomization_in(tree, path) {
                Some(inner) => walk_file(tree, inner, found),
                None => Walk { found, references: Seq::<PatternView>::empty(), error: None },
            }
        } else {
            Walk { found, references: Seq::<PatternView>::empty(), error: None }
        };
        if first.error is Some {
            first
        } else {
            proof {
                lemma_more_visited(found, merged(found, first.found));
            }
            let rest = walk_refs(tree, dir, refs, from + 1, merged(found, first.found));
            Walk {
                found: rest.found,
                references: first.references + rest.references,
                error: rest.error,
            }
        }
    }
}

/// A traversal forgets nothing: what was visited before it is visited after it.
pub proof fn lemma_walk_file_keeps(tree: FileTree, path: Seq<char>, found: Seq<bool>)
    ensures
        walk_file(tree, path, found).found.len() == found.len(),
        forall|i: int|
            0 <= i < found.len() && found[i] ==> (#[trigger] walk_file(tree, path, found).found[i]),
        merged(found, walk_file(tree, path, found).found) == walk_file(tree, path, found).found,
    decreases unvisited(found), 0nat,
{
    let at = tree.position(cleaned(path));
    let w = walk_file(tree, path, found);
    if found.len() == tree.entries@.len() && parent_of(path) is Some && tree.has(cleaned(path))
        && !found[at] {
        match tree.text(cleaned(path)) {
            Some(text) => {
                if yaml_documents(text) is Some {
                    lemma_entry_at(tree.entries@, cleaned(path), 0);
                    lemma_visit(found, at);
                    lemma_walk_refs_keeps(
                        tree,
                        parent_of(path)->0,
                        kustomization_refs(text),
                        0,
                        found.update(at, true),
                    );
                }
            },
            None => {},
        }
    }
    assert(merged(found, w.found) =~= w.found);
}

/// A traversal of references forgets nothing.
pub proof fn lemma_walk_refs_keeps(
    tree: FileTree,
    dir: Seq<char>,
    refs: Seq<Seq<char>>,
    from: int,
    found: Seq<bool>,
)
    ensures
        walk_refs(tree, dir, refs, from, found).found.len() == found.len(),
        forall|i: int|
            0 <= i < found.len() && found[i] ==> (#[trigger] walk_refs(
                tree,
                dir,
                refs,
                from,
                found,
            ).found[i]),
    decreases unvisited(found), refs.len() - from + 1,
{
    if 0 <= from < refs.len() {
        let path = joined(dir, refs[from]);
        let first = if tree.has_file(cleaned(path)) {
            Walk { found, references: seq![literal_view(path, path)], error: None }
        } else if tree.has_dir(cleaned(path)) {
            match kustomization_in(tree, path) {
                Some(inner) => walk_file(tree, inner, found),
                None => Walk { found, references: Seq::<PatternView>::empty(), error: None },
            }
        } else {
            Walk { found, references: Seq::<PatternView>::empty(), error: None }
        };
        if !tree.has_file(cleaned(path)) && tree.has_dir(cleaned(path)) {
            match kustomization_in(tree, path) {
                Some(inner) => {
                    lemma_walk_file_keeps(tree, inner, found);
                },
                None => {},
            }
        }
        if first.error is None {
            assert(merged(found, first.found) =~= first.found);
            lemma_more_visited(found, first.found);
            lemma_walk_refs_keeps(tree, dir, refs, from + 1, first.found);
        }
    }
}

/// The non-empty `path` of each of the `patches` of a kustomization.
fn find_patch_paths(patches: Option<&YamlNode>) -> (r: Vec<String>)
    ensures
        views(r@) == patch_paths(node_or_bad(patches).items()),
{
    let mut out: Vec<String> = Vec::new();
    assert(views(out@) =~= Seq::<Seq<char>>::empty());
    let items = match patches {
        Some(node) => match node.as_vec() {
            Some(items) => items,
            None => {
                return out;
            },
        },
        None => {
            return out;
        },
    };
    let mut i: usize = 0;
    assert(items@.take(0) =~= Seq::<YamlNode>::empty());
    while i < items.len()
        invariant
            i <= items.len(),
            views(out@) == patch_paths(items@.take(i as int)),
        decreases items.len() - i,
    {
        assert(items@.take(i + 1).drop_last() =~= items@.take(i as int));
        assert(items@.take(i + 1).last() == items@[i as int]);
        match child_at(Some(&items[i]), "path") {
            Some(node) => match node.as_str() {
                Some(path) => {
                    if path.unicode_len() > 0 {
                        let owned = path.to_owned();
                        proof {
                            lemma_views_push(out@, owned);
                        }
                        out.push(owned);
                    }
                },
                None => {},
            },
            None => {},
        }
        i = i + 1;
    }
    assert(items@.take(items.len() as int) =~= items@);
    out
}

/// The `files` of each `configMapGenerator` of a kustomization.
fn find_generator_files(generators: Option<&YamlNode>) -> (r: Vec<String>)
    ensures
        views(r@) == generator_files(node_or_bad(generators).items()),
{
    let mut out: Vec<String> = Vec::new();
    assert(views(out@) =~= Seq::<Seq<char>>::empty());
    let items = match generators {
        Some(node) => match node.as_vec() {
            Some(items) => items,
            None => {
                return out;
            },
        },
        None => {
            return out;
        },
    };
    let mut i: usize = 0;
    assert(items@.take(0) =~= Seq::<YamlNode>::empty());
    while i < items.len()
        invariant
            i <= items.len(),
            views(out@) == generator_files(items@.take(i as int)),
        decreases items.len() - i,
    {
        assert(items@.take(i + 1).drop_last() =~= items@.take(i as int));
        assert(items@.take(i + 1).last() == items@[i as int]);
        let files = str_list_at(child_at(Some(&items[i]), "files"));
        append_strings(&mut out, &files);
        i = i + 1;
    }
    assert(items@.take(items.len() as int) =~= items@);
    out
}

/// What the kustomization `document` refers to.
pub fn find_refs(document: &YamlNode) -> (r: Vec<String>)
    ensures
        views(r@) == document.child("resources"@).str_list() + document.child(
            "bases"@,
        ).str_list() + document.child("components"@).str_list() + patch_paths(
            document.child("patches"@).items(),
        ) + generator_files(document.child("configMapGenerator"@).items()),
{
    let mut out = str_list_at(document.get("resources"));
    let bases = str_list_at(document.get("bases"));
    append_strings(&mut out, &bases);
    let components = str_list_at(document.get("components"));
    append_strings(&mut out, &components);
    let patches = find_patch_paths(document.get("patches"));
    append_strings(&mut out, &patches);
    let files = find_generator_files(document.get("configMapGenerator"));
    append_strings(&mut out, &files);
    out
}

/// Whether the traversal that `walk` describes ended as `r` did, with
/// `found` and `out` as it left them. Where it gives up, both are as
/// they stood at that point: a kustomization that is reached a second
/// time leaves them as they were.
pub open spec fn is_walk(
    walk: Walk,
    r: Result<(), AnalyzerError>,
    found: Seq<bool>,
    before: Seq<DepPattern>,
    out: Seq<DepPattern>,
) -> bool {
    &&& match walk.error {
        Some(e) => r == Err::<(), AnalyzerError>(e),
        None => r is Ok,
    }
    &&& found == walk.found
    &&& pattern_views(out) == pattern_views(before) + walk.references
}

/// The canonical form of an absolute path.
fn clean(path: &str) -> (r: String)
    requires
        is_absolute(path@),
    ensures
        r@ == cleaned(path@),
{
    match canonicalize(path) {
        Ok(canonical) => canonical,
        Err(_) => path.to_owned(),
    }
}

/// Visits the kustomization at `path` and appends what it gives to
/// `out`. Where it gives up, `visited` and `out` hold what was visited
/// and found until then: nothing more than before, where the
/// kustomization at `path` itself was visited before.
pub fn parse_kustomization(
    tree: &FileTree,
    path: &str,
    visited: &mut Vec<bool>,
    out: &mut Vec<DepPattern>,
) -> (r: Result<(), AnalyzerError>)
    requires
        is_absolute(path@),
        old(visited)@.len() == tree.entries@.len(),
    ensures
        final(visited)@.len() == old(visited)@.len(),
        is_walk(walk_file(*tree, path@, old(visited)@), r, final(visited)@, old(out)@, final(out)@),
    decreases unvisited(old(visited)@), 0nat,
{
    assert(pattern_views(out@) + Seq::<PatternView>::empty() =~= pattern_views(out@));
    let kustomization_dir = match parent(&to_chars(path)) {
        Some(dir) => from_chars(&dir),
        None => {
            return Err(AnalyzerError::NoParent);
        },
    };
    let canonicalized = clean(path);
    let at = match tree.find(canonicalized.as_str()) {
        Some(at) => at,
        None => {
            return Err(AnalyzerError::NotFound);
        },
    };
    if visited[at] {
        return Err(AnalyzerError::Cycle);
    }
    let text = match tree.read(canonicalized.as_str()) {
        Some(text) => text,
        None => {
            return Err(AnalyzerError::Unreadable);
        },
    };
    let yaml = match load_yaml(Some(text)) {
        Ok(document) => document,
        Err(_) => {
            return Err(AnalyzerError::Parse);
        },
    };
    let refs = find_refs(&yaml);
    proof {
        lemma_loaded_child(yaml, text@, "resources"@);
        lemma_loaded_child(yaml, text@, "bases"@);
        lemma_loaded_child(yaml, text@, "components"@);
        lemma_loaded_child(yaml, text@, "patches"@);
        lemma_loaded_child(yaml, text@, "configMapGenerator"@);
        assert(views(refs@) == kustomization_refs(text@));
        lemma_visit(visited@, at as int);
        lemma_parent_absolute(path@);
    }
    visited.set(at, true);
    parse_references(tree, kustomization_dir.as_str(), &refs, 0, visited, out)
}

/// Visits what the references of a kustomization in `dir` name, from
/// reference `from` on.
fn parse_references(
    tree: &FileTree,
    dir: &str,
    refs: &Vec<String>,
    from: usize,
    visited: &mut Vec<bool>,
    out: &mut Vec<DepPattern>,
) -> (r: Result<(), AnalyzerError>)
    requires
        is_absolute(dir@),
        old(visited)@.len() == tree.entries@.len(),
    ensures
        final(visited)@.len() == old(visited)@.len(),
        is_walk(
            walk_refs(*tree, dir@, views(refs@), from as int, old(visited)@),
            r,
            final(visited)@,
            old(out)@,
            final(out)@,
        ),
    decreases unvisited(old(visited)@), refs@.len() - from + 1,
{
    let ghost before = out@;
    let ghost found0 = visited@;
    let ghost names = views(refs@);
    if from >= refs.len() {
        assert(pattern_views(before) + Seq::<PatternView>::empty() =~= pattern_views(before));
        return Ok(());
    }
    assert(names[from as int] == refs@[from as int]@);
    let path = from_chars(&join(&to_chars(dir), &to_chars(refs[from].as_str())));
    assert(path@ == joined(dir@, names[from as int]));
    assert(is_absolute(path@));
    assert(joined(path@, path@) == path@);
    let canonical = clean(path.as_str());
    let ghost first = if tree.has_file(cleaned(path@)) {
        Walk { found: found0, references: seq![literal_view(path@, path@)], error: None }
    } else if tree.has_dir(cleaned(path@)) {
        match kustomization_in(*tree, path@) {
            Some(inner) => walk_file(*tree, inner, found0),
            None => Walk { found: found0, references: Seq::<PatternView>::empty(), error: None },
        }
    } else {
        Walk { found: found0, references: Seq::<PatternView>::empty(), error: None }
    };
    if tree.is_file(canonical.as_str()) {
        let pattern = DepPattern::literal(path.as_str(), path.as_str());
        proof {
            lemma_pattern_views_push(out@, pattern);
            assert(pattern@ == literal_view(path@, path@));
        }
        out.push(pattern);
        assert(pattern_views(out@) =~= pattern_views(before) + first.references);
    } else if tree.is_dir(canonical.as_str()) {
        match parse_kustomization_dir(tree, path.as_str(), visited, out) {
            Ok(()) => {},
            Err(e) => {
                return Err(e);
            },
        }
        proof {
            match kustomization_in(*tree, path@) {
                Some(inner) => {
                    lemma_walk_file_keeps(*tree, inner, found0);
                },
                None => {},
            }
        }
    } else {
        assert(pattern_views(before) + Seq::<PatternView>::empty() =~= pattern_views(before));
    }
    assert(first.error is None);
    assert(visited@ == first.found);
    assert(pattern_views(out@) == pattern_views(before) + first.references);
    proof {
        assert(merged(found0, first.found) =~= first.found);
        lemma_more_visited(found0, first.found);
    }
    let r = parse_references(tree, dir, refs, from + 1, visited, out);
    proof {
        let rest = walk_refs(*tree, dir@, names, from + 1, first.found);
        let whole = walk_refs(*tree, dir@, names, from as int, found0);
        assert(whole.error == rest.error);
        assert(whole.found == rest.found);
        assert(whole.references == first.references + rest.references);
        assert(pattern_views(out@) =~= pattern_views(before) + (first.references
            + rest.references));
    }
    r
}

/// Visits the kustomization of the directory `dir`, if it has one.
fn parse_kustomization_dir(
    tree: &FileTree,
    dir: &str,
    visited: &mut Vec<bool>,
    out: &mut Vec<DepPattern>,
) -> (r: Result<(), AnalyzerError>)
    requires
        is_absolute(dir@),
        old(visited)@.len() == tree.entries@.len(),
    ensures
        final(visited)@.len() == old(visited)@.len(),
        is_walk(
            match kustomization_in(*tree, dir@) {
                Some(inner) => walk_file(*tree, inner, old(visited)@),
                None => Walk {
                    found: old(visited)@,
                    references: Seq::<PatternView>::empty(),
                    error: None,
                },
            },
            r,
            final(visited)@,
            old(out)@,
            final(out)@,
        ),
    decreases unvisited(old(visited)@), 1nat,
{
    let base = to_chars(dir);
    let yaml_candidate = from_chars(&join(&base, &to_chars("kustomization.yaml")));
    let yml_candidate = from_chars(&join(&base, &to_chars("kustomization.yml")));
    assert(is_absolute(yaml_candidate@));
    assert(is_absolute(yml_candidate@));
    if tree.contains_path(clean(yaml_candidate.as_str()).as_str()) {
        parse_kustomization(tree, yaml_candidate.as_str(), visited, out)
    } else if tree.contains_path(clean(yml_candidate.as_str()).as_str()) {
        parse_kustomization(tree, yml_candidate.as_str(), visited, out)
    } else {
        assert(pattern_views(out@) + Seq::<PatternView>::empty() =~= pattern_views(out@));
        Ok(())
    }
}

/// What the first `upto` of `files` give, each kustomization followed
/// on its own, one after the other; the first error, where a traversal
/// gives up.
pub open spec fn kustomizations_of(
    tree: FileTree,
    files: Seq<usize>,
    upto: int,
) -> Result<Seq<PatternView>, AnalyzerError>
    decreases upto,
{
    if upto <= 0 {
        Ok(Seq::<PatternView>::empty())
    } else {
        match kustomizations_of(tree, files, upto - 1) {
            Ok(before) => {
                let walk = walk_file(
                    tree,
                    tree.entries@[files[upto - 1] as int].path@,
                    Seq::new(tree.entries@.len(), |i: int| false),
                );
                match walk.error {
                    Some(e) => Err(e),
                    None => Ok(before + walk.references),
                }
            },
            Err(e) => Err(e),
        }
    }
}

/// Once a traversal has given up, further files do not help.
proof fn lemma_failure_stays(tree: FileTree, files: Seq<usize>, from: int, upto: int)
    requires
        0 <= from <= upto,
        kustomizations_of(tree, files, from) is Err,
    ensures
        kustomizations_of(tree, files, upto) == kustomizations_of(tree, files, from),
    decreases upto - from,
{
    if from < upto {
        lemma_failure_stays(tree, files, from, upto - 1);
    }
}

impl KustomizeAnalyzer {
    /// Whether the analyzer reads a file of this name, given in lower case.
    pub fn file_relevant(&self, file_name: &str) -> (r: bool)
        ensures
            r == (file_name@ == "kustomization.yaml"@ || file_name@ == "kustomization.yml"@),
    {
        str_eq(file_name, "kustomization.yaml") || str_eq(file_name, "kustomization.yml")
    }

    /// The dependencies that the kustomizations `files` of a service
    /// show: the files they refer to, and what the kustomizations of the
    /// directories they refer to give, followed from directory to
    /// directory. Fails with `Cycle` where a kustomization is reached a
    /// second time, and where a kustomization cannot be read or is not
    /// well-formed.
    pub fn dependencies(&self, tree: &FileTree, files: &Vec<usize>) -> (r: Result<
        Vec<DepPattern>,
        AnalyzerError,
    >)
        requires
            forall|k: int|
                0 <= k < files@.len() ==> (#[trigger] files@[k]) < tree.entries@.len()
                    && is_absolute(tree.entries@[files@[k] as int].path@),
        ensures
            is_outcome(r, kustomizations_of(*tree, files@, files@.len() as int)),
    {
        let mut collected_imports: Vec<DepPattern> = Vec::new();
        let mut f: usize = 0;
        assert(pattern_views(collected_imports@) =~= Seq::<PatternView>::empty());
        while f < files.len()
            invariant
                f <= files.len(),
                forall|k: int|
                    0 <= k < files@.len() ==> (#[trigger] files@[k]) < tree.entries@.len()
                        && is_absolute(tree.entries@[files@[k] as int].path@),
                kustomizations_of(*tree, files@, f as int) == Ok::<
                    Seq<PatternView>,
                    AnalyzerError,
                >(pattern_views(collected_imports@)),
            decreases files.len() - f,
        {
            let mut visited_files = ReferenceFinder::new(tree).found;
            let path = tree.entries[files[f]].path.as_str();
            match parse_kustomization(tree, path, &mut visited_files, &mut collected_imports) {
                Ok(()) => {},
                Err(e) => {
                    proof {
                        lemma_failure_stays(*tree, files@, f + 1, files@.len() as int);
                    }
                    return Err(e);
                },
            }
            f = f + 1;
        }
        Ok(collected_imports)
    }
}

} // verus!
