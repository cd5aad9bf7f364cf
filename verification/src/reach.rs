//! What the files of a tree refer to that the tree does not hold: the
//! paths that must be looked at on disk before the tree is complete for
//! the analyzers that follow references from file to file.

use crate::cli::Opts;
use crate::config::Language;
use crate::discovery::{marker_candidates, relevant};
use crate::files::{scan_lines, scanned_lines, EntryKind, FileEntry, FileTree};
use crate::path::{
    canonicalize, cleaned, file_name, file_name_of, is_absolute, join, joined,
    lemma_parent_absolute, parent, parent_of,
};
use crate::service::justfile::{candidate_names, module_candidates};
use crate::service::kustomize::{find_refs, kustomization_refs};
use crate::service::{lowercase, lowered};
use crate::text::{
    between_quotes, ends_with, from_chars, has_prefix, quoted, split, split_chars, starts_with,
    str_eq, to_chars,
};
use crate::utils::{lemma_loaded_child, lemma_views_push, load_yaml, views, yaml_documents};
use vstd::prelude::*;

verus! {

/// What a line names, read as a line of a justfile or of a Makefile:
/// the path of an `import`, the path of a `mod` or the places where the
/// justfile of a submodule may stand, and every word after the first of
/// a line that begins with `include`.
pub open spec fn line_names(line: Seq<char>) -> Seq<Seq<char>> {
    if has_prefix(line, "include"@) {
        let words = split(line, ' ');
        if words.len() >= 1 {
            words.skip(1)
        } else {
            Seq::<Seq<char>>::empty()
        }
    } else if has_prefix(line, "import"@) {
        match quoted(line, '\'') {
            Some(path) => seq![path],
            None => Seq::<Seq<char>>::empty(),
        }
    } else if has_prefix(line, "mod"@) {
        match quoted(line, '\'') {
            Some(path) => seq![path],
            None => if split(line, ' ').len() == 2 {
                module_candidates(split(line, ' ')[1])
            } else {
                Seq::<Seq<char>>::empty()
            },
        }
    } else {
        Seq::<Seq<char>>::empty()
    }
}

/// The canonical form of each of `names`, taken below the absolute `dir`.
pub open spec fn below(names: Seq<Seq<char>>, dir: Seq<char>) -> Seq<Seq<char>> {
    names.map_values(|name: Seq<char>| cleaned(joined(dir, name)))
}

/// The paths that the first `upto` of `lines` name, in order.
pub open spec fn line_paths(lines: Seq<Seq<char>>, dir: Seq<char>, upto: int) -> Seq<Seq<char>>
    decreases upto,
{
    if upto <= 0 {
        Seq::<Seq<char>>::empty()
    } else {
        line_paths(lines, dir, upto - 1) + below(line_names(lines[upto - 1]), dir)
    }
}

/// The paths that the first `upto` references of a kustomization in
/// `dir` make the traversal look at: what the reference names, and the
/// two places where the kustomization of a directory may stand.
pub open spec fn reference_paths(refs: Seq<Seq<char>>, dir: Seq<char>, upto: int) -> Seq<
    Seq<char>,
>
    decreases upto,
{
    if upto <= 0 {
        Seq::<Seq<char>>::empty()
    } else {
        let path = joined(dir, refs[upto - 1]);
        reference_paths(refs, dir, upto - 1) + seq![
            cleaned(path),
            cleaned(joined(path, "kustomization.yaml"@)),
            cleaned(joined(path, "kustomization.yml"@)),
        ]
    }
}

/// Whether the entry is read as a kustomization: by its name in lower case.
pub open spec fn names_kustomization(path: Seq<char>) -> bool {
    relevant(Language::Kustomize, lowered(file_name_of(path)))
}

/// The paths that the text of a file at the absolute `path` makes a
/// traversal look at: what its lines name when they are read as the
/// lines of a justfile or of a Makefile and, where it is a well-formed
/// kustomization, what its references name.
pub open spec fn text_mentions(path: Seq<char>, text: Seq<char>) -> Seq<Seq<char>> {
    match parent_of(path) {
        Some(dir) => line_paths(scanned_lines(text), dir, scanned_lines(text).len() as int) + (
        if names_kustomization(path) && yaml_documents(text) is Some {
            reference_paths(kustomization_refs(text), dir, kustomization_refs(text).len() as int)
        } else {
            Seq::<Seq<char>>::empty()
        }),
        None => Seq::<Seq<char>>::empty(),
    }
}

/// The paths that an entry makes a traversal look at: none unless it is
/// a file with a text under an absolute path.
pub open spec fn entry_mentions(entry: FileEntry) -> Seq<Seq<char>> {
    match entry.content {
        Some(text) => if entry.kind == EntryKind::File && is_absolute(entry.path@) {
            text_mentions(entry.path@, text@)
        } else {
            Seq::<Seq<char>>::empty()
        },
        None => Seq::<Seq<char>>::empty(),
    }
}

/// Whether a traversal starts at a file of this name, given in lower
/// case: at a justfile, a Makefile or a kustomization.
pub open spec fn starts_traversal(name: Seq<char>) -> bool {
    relevant(Language::Justfile, name) || name == "makefile"@ || relevant(
        Language::Kustomize,
        name,
    )
}

/// For each entry, whether a traversal starts at it.
pub open spec fn sources(tree: FileTree) -> Seq<bool> {
    Seq::new(
        tree.entries@.len(),
        |i: int| starts_traversal(lowered(file_name_of(tree.entries@[i].path@))),
    )
}

/// The paths that those of the first `upto` entries that are marked in
/// `reached` make a traversal look at, in order.
pub open spec fn mentions(tree: FileTree, reached: Seq<bool>, upto: int) -> Seq<Seq<char>>
    decreases upto,
{
    if upto <= 0 {
        Seq::<Seq<char>>::empty()
    } else if reached[upto - 1] {
        mentions(tree, reached, upto - 1) + entry_mentions(tree.entries@[upto - 1])
    } else {
        mentions(tree, reached, upto - 1)
    }
}

/// The marks once the entries at the first `upto` of `paths` are marked too.
pub open spec fn marked(tree: FileTree, reached: Seq<bool>, paths: Seq<Seq<char>>, upto: int) -> Seq<
    bool,
>
    decreases upto,
{
    if upto <= 0 {
        reached
    } else if tree.has(paths[upto - 1]) {
        marked(tree, reached, paths, upto - 1).update(tree.position(paths[upto - 1]), true)
    } else {
        marked(tree, reached, paths, upto - 1)
    }
}

/// The marks once the entries that the marked ones refer to are marked too.
pub open spec fn followed(tree: FileTree, reached: Seq<bool>) -> Seq<bool> {
    let paths = mentions(tree, reached, tree.entries@.len() as int);
    marked(tree, reached, paths, paths.len() as int)
}

/// The entries that a traversal comes by within `rounds` steps from
/// the entries at which one starts.
pub open spec fn reached_within(tree: FileTree, rounds: nat) -> Seq<bool>
    decreases rounds,
{
    if rounds == 0 {
        sources(tree)
    } else {
        followed(tree, reached_within(tree, (rounds - 1) as nat))
    }
}

/// Those of the first `upto` of `paths` at which the tree has no entry, in order.
pub open spec fn missing(tree: FileTree, paths: Seq<Seq<char>>, upto: int) -> Seq<Seq<char>>
    decreases upto,
{
    if upto <= 0 {
        Seq::<Seq<char>>::empty()
    } else if tree.has(paths[upto - 1]) {
        missing(tree, paths, upto - 1)
    } else {
        missing(tree, paths, upto - 1).push(paths[upto - 1])
    }
}

/// The paths, in canonical form, that a traversal looks at and at which
/// the tree has no entry: what the justfiles, Makefiles and
/// kustomizations of the tree refer to, and the files that these refer
/// to in turn, as far as the tree holds them.
pub open spec fn unresolved_paths(tree: FileTree) -> Seq<Seq<char>> {
    let reached = reached_within(tree, tree.entries@.len());
    let all = mentions(tree, reached, tree.entries@.len() as int);
    missing(tree, all, all.len() as int)
}

/// Once following changes nothing, it never does.
proof fn lemma_settled(tree: FileTree, rounds: nat, later: nat)
    requires
        rounds <= later,
        followed(tree, reached_within(tree, rounds)) == reached_within(tree, rounds),
    ensures
        reached_within(tree, later) == reached_within(tree, rounds),
    decreases later,
{
    if rounds < later {
        lemma_settled(tree, rounds, (later - 1) as nat);
    }
}

/// Appends the canonical form of each of `names`, taken below `dir`.
fn append_below(names: &Vec<Vec<char>>, dir: &Vec<char>, out: &mut Vec<String>)
    requires
        is_absolute(dir@),
    ensures
        views(final(out)@) == views(old(out)@) + below(
            names@.map_values(|n: Vec<char>| n@),
            dir@,
        ),
{
    let ghost before = views(out@);
    let ghost all = names@.map_values(|n: Vec<char>| n@);
    let mut i: usize = 0;
    assert(before + below(all.take(0), dir@) =~= before);
    while i < names.len()
        invariant
            i <= names.len(),
            is_absolute(dir@),
            all == names@.map_values(|n: Vec<char>| n@),
            views(out@) == before + below(all.take(i as int), dir@),
        decreases names.len() - i,
    {
        let path = from_chars(&join(dir, &names[i]));
        assert(path@ == joined(dir@, all[i as int]));
        let canonical = match canonicalize(path.as_str()) {
            Ok(canonical) => canonical,
            Err(_) => path,
        };
        proof {
            lemma_views_push(out@, canonical);
            assert(before + below(all.take(i + 1), dir@) =~= (before + below(
                all.take(i as int),
                dir@,
            )).push(canonical@));
        }
        out.push(canonical);
        i = i + 1;
    }
    assert(all.take(names.len() as int) =~= all);
}

/// What a line names, read as a line of a justfile or of a Makefile.
fn find_line_names(line: &Vec<char>) -> (r: Vec<Vec<char>>)
    ensures
        r@.map_values(|n: Vec<char>| n@) == line_names(line@),
{
    let mut out: Vec<Vec<char>> = Vec::new();
    if starts_with(line, &to_chars("include")) {
        let mut words = split_chars(line, ' ');
        if words.len() >= 1 {
            words.remove(0);
            out = words;
        }
    } else if starts_with(line, &to_chars("import")) {
        match between_quotes(line, '\'') {
            Some(path) => {
                out.push(path);
            },
            None => {},
        }
    } else if starts_with(line, &to_chars("mod")) {
        match between_quotes(line, '\'') {
            Some(path) => {
                out.push(path);
            },
            None => {
                let words = split_chars(line, ' ');
                if words.len() == 2 {
                    out = candidate_names(&words[1]);
                }
            },
        }
    }
    assert(out@.map_values(|n: Vec<char>| n@) =~= line_names(line@));
    out
}

/// Appends what the text of the file at `path` makes a traversal look at.
fn append_text_mentions(path: &str, text: &str, out: &mut Vec<String>)
    requires
        is_absolute(path@),
    ensures
        views(final(out)@) == views(old(out)@) + text_mentions(path@, text@),
{
    let ghost before = views(out@);
    let chars = to_chars(path);
    let dir = match parent(&chars) {
        Some(dir) => dir,
        None => {
            assert(before + Seq::<Seq<char>>::empty() =~= before);
            return ;
        },
    };
    proof {
        lemma_parent_absolute(path@);
    }
    let lines = scan_lines(text);
    let ghost all = scanned_lines(text@);
    let mut i: usize = 0;
    assert(before + line_paths(all, dir@, 0) =~= before);
    while i < lines.len()
        invariant
            i <= lines.len(),
            is_absolute(dir@),
            all == scanned_lines(text@),
            lines@.len() == all.len(),
            forall|k: int| 0 <= k < lines@.len() ==> lines@[k]@ == #[trigger] all[k],
            views(out@) == before + line_paths(all, dir@, i as int),
        decreases lines.len() - i,
    {
        let ghost so_far = line_paths(all, dir@, i as int);
        let names = find_line_names(&lines[i]);
        assert(lines@[i as int]@ == all[i as int]);
        append_below(&names, &dir, out);
        assert(views(out@) =~= before + (so_far + below(line_names(all[i as int]), dir@)));
        i = i + 1;
    }
    let ghost read = views(out@);
    let name = from_chars(&file_name(&chars));
    let lower = lowercase(name.as_str());
    let is_kustomization = str_eq(lower.as_str(), "kustomization.yaml")
        || str_eq(lower.as_str(), "kustomization.yml");
    if is_kustomization {
        match load_yaml(Some(text)) {
            Ok(document) => {
                let refs = find_refs(&document);
                proof {
                    lemma_loaded_child(document, text@, "resources"@);
                    lemma_loaded_child(document, text@, "bases"@);
                    lemma_loaded_child(document, text@, "components"@);
                    lemma_loaded_child(document, text@, "patches"@);
                    lemma_loaded_child(document, text@, "configMapGenerator"@);
                    assert(views(refs@) == kustomization_refs(text@));
                }
                let ghost wanted = views(refs@);
                let mut k: usize = 0;
                assert(read + reference_paths(wanted, dir@, 0) =~= read);
                while k < refs.len()
                    invariant
                        k <= refs.len(),
                        is_absolute(dir@),
                        wanted == views(refs@),
                        views(out@) == read + reference_paths(wanted, dir@, k as int),
                    decreases refs.len() - k,
                {
                    let ghost so_far = reference_paths(wanted, dir@, k as int);
                    assert(wanted[k as int] == refs@[k as int]@);
                    let target = join(&dir, &to_chars(refs[k].as_str()));
                    assert(is_absolute(target@));
                    let mut places: Vec<Vec<char>> = Vec::new();
                    places.push(target.clone());
                    places.push(join(&target, &to_chars("kustomization.yaml")));
                    places.push(join(&target, &to_chars("kustomization.yml")));
                    let ghost raw = places@.map_values(|n: Vec<char>| n@);
                    assert(forall|j: int|
                        0 <= j < 3 ==> is_absolute(#[trigger] raw[j]) && joined(dir@, raw[j])
                            == raw[j]);
                    append_below(&places, &dir, out);
                    assert(below(raw, dir@) =~= seq![
                        cleaned(target@),
                        cleaned(joined(target@, "kustomization.yaml"@)),
                        cleaned(joined(target@, "kustomization.yml"@)),
                    ]);
                    assert(views(out@) =~= read + (so_far + seq![
                        cleaned(target@),
                        cleaned(joined(target@, "kustomization.yaml"@)),
                        cleaned(joined(target@, "kustomization.yml"@)),
                    ]));
                    k = k + 1;
                }
            },
            Err(_) => {
                assert(read + Seq::<Seq<char>>::empty() =~= read);
            },
        }
    } else {
        assert(read + Seq::<Seq<char>>::empty() =~= read);
    }
    assert(views(out@) =~= before + text_mentions(path@, text@));
}

/// For each entry, whether a traversal starts at it.
fn find_sources(tree: &FileTree) -> (r: Vec<bool>)
    ensures
        r@ == sources(*tree),
{
    let mut out: Vec<bool> = Vec::new();
    let mut i: usize = 0;
    while i < tree.entries.len()
        invariant
            i <= tree.entries.len(),
            out@.len() == i,
            forall|k: int| 0 <= k < i ==> out@[k] == #[trigger] sources(*tree)[k],
        decreases tree.entries.len() - i,
    {
        let name = from_chars(&file_name(&to_chars(tree.entries[i].path.as_str())));
        let lower = lowercase(name.as_str());
        let chars = to_chars(lower.as_str());
        let starts = str_eq(lower.as_str(), "justfile") || ends_with(&chars, &to_chars(".just"))
            || str_eq(lower.as_str(), "makefile") || str_eq(lower.as_str(), "kustomization.yaml")
            || str_eq(lower.as_str(), "kustomization.yml");
        out.push(starts);
        i = i + 1;
    }
    assert(out@ =~= sources(*tree));
    out
}

/// The paths that the entries that are marked in `reached` make a
/// traversal look at, in order.
fn find_mentions(tree: &FileTree, reached: &Vec<bool>) -> (r: Vec<String>)
    requires
        reached@.len() == tree.entries@.len(),
    ensures
        views(r@) == mentions(*tree, reached@, tree.entries@.len() as int),
{
    let mut all: Vec<String> = Vec::new();
    assert(views(all@) =~= Seq::<Seq<char>>::empty());
    let mut i: usize = 0;
    while i < tree.entries.len()
        invariant
            i <= tree.entries.len(),
            reached@.len() == tree.entries@.len(),
            views(all@) == mentions(*tree, reached@, i as int),
        decreases tree.entries.len() - i,
    {
        let entry = &tree.entries[i];
        let ghost so_far = views(all@);
        if reached[i] {
            let absolute = {
                let chars = to_chars(entry.path.as_str());
                chars.len() > 0 && chars[0] == '/'
            };
            match &entry.content {
                Some(text) => {
                    if entry.kind == EntryKind::File && absolute {
                        append_text_mentions(entry.path.as_str(), text.as_str(), &mut all);
                    } else {
                        assert(so_far + Seq::<Seq<char>>::empty() =~= so_far);
                    }
                },
                None => {
                    assert(so_far + Seq::<Seq<char>>::empty() =~= so_far);
                },
            }
        }
        i = i + 1;
    }
    all
}

/// Marks the entries that the marked ones refer to; tells whether a
/// mark was added.
fn follow(tree: &FileTree, reached: &mut Vec<bool>) -> (changed: bool)
    requires
        old(reached)@.len() == tree.entries@.len(),
    ensures
        final(reached)@ == followed(*tree, old(reached)@),
        final(reached)@.len() == tree.entries@.len(),
        !changed ==> final(reached)@ == old(reached)@,
{
    let paths = find_mentions(tree, reached);
    let ghost start = reached@;
    let ghost wanted = views(paths@);
    let mut changed = false;
    let mut k: usize = 0;
    while k < paths.len()
        invariant
            k <= paths.len(),
            wanted == views(paths@),
            reached@.len() == tree.entries@.len(),
            reached@ == marked(*tree, start, wanted, k as int),
            !changed ==> reached@ == start,
        decreases paths.len() - k,
    {
        assert(wanted[k as int] == paths@[k as int]@);
        match tree.find(paths[k].as_str()) {
            Some(at) => {
                if !reached[at] {
                    changed = true;
                }
                let ghost before = reached@;
                reached.set(at, true);
                assert(!changed ==> reached@ =~= before);
            },
            None => {},
        }
        k = k + 1;
    }
    changed
}

/// The paths, in canonical form, that a traversal looks at and at which
/// the tree has no entry. A tree to which what is found at these paths
/// has been added, until none is left that was not looked at, holds
/// every file that following the references of its justfiles, Makefiles
/// and kustomizations can reach.
pub fn unresolved(tree: &FileTree) -> (r: Vec<String>)
    ensures
        views(r@) == unresolved_paths(*tree),
{
    let mut reached = find_sources(tree);
    let mut rounds: usize = 0;
    while rounds < tree.entries.len()
        invariant_except_break
            rounds <= tree.entries.len(),
            reached@ == reached_within(*tree, rounds as nat),
        invariant
            reached@.len() == tree.entries@.len(),
        ensures
            reached@ == reached_within(*tree, tree.entries@.len()),
        decreases tree.entries.len() - rounds,
    {
        let changed = follow(tree, &mut reached);
        if !changed {
            proof {
                lemma_settled(*tree, rounds as nat, tree.entries@.len());
            }
            break ;
        }
        rounds = rounds + 1;
    }
    let all = find_mentions(tree, &reached);
    let ghost paths = views(all@);
    let mut out: Vec<String> = Vec::new();
    assert(views(out@) =~= Seq::<Seq<char>>::empty());
    let mut k: usize = 0;
    while k < all.len()
        invariant
            k <= all.len(),
            paths == views(all@),
            views(out@) == missing(*tree, paths, k as int),
        decreases all.len() - k,
    {
        assert(paths[k as int] == all@[k as int]@);
        if !tree.contains_path(all[k].as_str()) {
            let path = all[k].clone();
            proof {
                lemma_views_push(out@, path);
            }
            out.push(path);
        }
        k = k + 1;
    }
    out
}

/// Where the marker of the service at `path` may stand, below the
/// target of `opts`: the places that are looked at when the service is
/// determined, in canonical form.
pub fn candidate_markers(path: &str, opts: &Opts) -> (r: Vec<String>)
    requires
        is_absolute(opts.target.canonicalized@),
    ensures
        views(r@) == marker_candidates(joined(opts.target.canonicalized@, path@)).map_values(
            |p: Seq<char>| cleaned(p),
        ),
{
    let root = to_chars(opts.target.canonicalized.as_str());
    let base = join(&root, &to_chars(path));
    let mut places: Vec<Vec<char>> = Vec::new();
    places.push(base.clone());
    places.push(join(&base, &to_chars("Depsfile")));
    places.push(join(&base, &to_chars("Buildfile.yaml")));
    places.push(join(&base, &to_chars("justfile")));
    places.push(join(&base, &to_chars("Makefile")));
    let ghost raw = places@.map_values(|n: Vec<char>| n@);
    assert(raw =~= marker_candidates(base@));
    assert(forall|j: int|
        0 <= j < 5 ==> is_absolute(#[trigger] raw[j]) && joined(root@, raw[j]) == raw[j]);
    let mut out: Vec<String> = Vec::new();
    assert(views(out@) =~= Seq::<Seq<char>>::empty());
    append_below(&places, &root, &mut out);
    assert(below(raw, root@) =~= raw.map_values(|p: Seq<char>| cleaned(p)));
    assert(views(out@) =~= raw.map_values(|p: Seq<char>| cleaned(p)));
    out
}

} // verus!
