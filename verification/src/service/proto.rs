//! Protocol buffers: the `.proto` files that the `.proto` files of a
//! service import.

use crate::config::{literal_from, literal_view, DepPattern, PatternView};
use crate::files::{lemma_walked_absolute, walked, FileTree};
use crate::path::{
    cleaned, extension, extension_of, file_name, file_name_of, is_absolute, path_views, PathInfo,
    PathView,
};
use crate::text::{
    between_quotes, chars_eq_ignore_ascii_case, ends_with, eq_ignore_ascii_case, has_prefix,
    has_suffix, quoted, starts_with, to_chars,
};
use crate::service::finder::{follow_all, is_outcome, references_of_files, LineRule, RuleView};
use crate::service::AnalyzerError;
use vstd::prelude::*;

verus! {

/// The analyzer for `.proto` files.
#[derive(Debug)]
pub struct ProtoAnalyzer {
    /// The root of the repository.
    pub root: PathInfo,
    /// Every `.proto` file of the repository.
    pub all_proto_files: Vec<PathInfo>,
}

/// Whether a path names a `.proto` file: its extension is `proto`, in
/// any case of the letters.
pub open spec fn proto_path(path: Seq<char>) -> bool {
    match extension_of(file_name_of(path)) {
        Some(ext) => eq_ignore_ascii_case(ext, "proto"@),
        None => false,
    }
}

/// Position of the first of `candidates`, at or after `from`, whose
/// canonical path ends with `import`; `candidates.len()` when there is none.
pub open spec fn candidate_for(import: Seq<char>, candidates: Seq<PathView>, from: int) -> int
    decreases candidates.len() - from,
{
    if from < 0 || from >= candidates.len() {
        candidates.len() as int
    } else if has_suffix(candidates[from].canonical, import) {
        from
    } else {
        candidate_for(import, candidates, from + 1)
    }
}

/// The `.proto` file that a line imports: where the line begins with
/// `import`, the first of `candidates` whose canonical path ends with
/// the text between the first two double quotes of the line.
pub open spec fn imported_proto(line: Seq<char>, candidates: Seq<PathView>) -> Option<Seq<char>> {
    if has_prefix(line, "import"@) {
        match quoted(line, '"') {
            Some(import) => {
                let k = candidate_for(import, candidates, 0);
                if k < candidates.len() {
                    Some(candidates[k].canonical)
                } else {
                    None
                }
            },
            None => None,
        }
    } else {
        None
    }
}

/// The `.proto` file that a line imports is one of the candidates.
pub proof fn lemma_imported_is_candidate(line: Seq<char>, candidates: Seq<PathView>)
    ensures
        imported_proto(line, candidates) is Some ==> exists|k: int|
            0 <= k < candidates.len() && (#[trigger] candidates[k]).canonical
                == imported_proto(line, candidates)->0,
{
    if imported_proto(line, candidates) is Some {
        let import = quoted(line, '"')->0;
        lemma_candidate_for(import, candidates, 0);
        let k = candidate_for(import, candidates, 0);
        assert(candidates[k].canonical == imported_proto(line, candidates)->0);
    }
}

/// What `candidate_for` finds is a position of a candidate.
pub proof fn lemma_candidate_for(import: Seq<char>, candidates: Seq<PathView>, from: int)
    requires
        0 <= from <= candidates.len(),
    ensures
        from <= candidate_for(import, candidates, from) <= candidates.len(),
    decreases candidates.len() - from,
{
    if from < candidates.len() && !has_suffix(candidates[from].canonical, import) {
        lemma_candidate_for(import, candidates, from + 1);
    }
}

/// The literal pattern for the `.proto` file that a line imports.
pub open spec fn proto_reference(line: Seq<char>, candidates: Seq<PathView>) -> Option<
    PatternView,
> {
    match imported_proto(line, candidates) {
        Some(path) => Some(literal_view(path, path)),
        None => None,
    }
}

/// Whether a path names a `.proto` file.
pub fn is_proto(path: &str) -> (r: bool)
    ensures
        r == proto_path(path@),
{
    let name = file_name(&to_chars(path));
    match extension(&name) {
        Some(ext) => chars_eq_ignore_ascii_case(&ext, &to_chars("proto")),
        None => false,
    }
}

/// The literal pattern for the `.proto` file that `line` imports.
pub fn extract_from_line(line: &str, proto_candidates: &Vec<PathInfo>) -> (r: Option<DepPattern>)
    ensures
        r is Some == imported_proto(line@, path_views(proto_candidates@)) is Some,
        r is Some ==> literal_from(
            r->0,
            imported_proto(line@, path_views(proto_candidates@))->0,
            imported_proto(line@, path_views(proto_candidates@))->0,
        ),
{
    let chars = to_chars(line);
    if !starts_with(&chars, &to_chars("import")) {
        return None;
    }
    let import = match between_quotes(&chars, '"') {
        Some(import) => import,
        None => {
            return None;
        },
    };
    let mut k: usize = 0;
    while k < proto_candidates.len()
        invariant
            k <= proto_candidates.len(),
            has_prefix(line@, "import"@),
            quoted(line@, '"') == Some(import@),
            candidate_for(import@, path_views(proto_candidates@), k as int) == candidate_for(
                import@,
                path_views(proto_candidates@),
                0,
            ),
        decreases proto_candidates.len() - k,
    {
        let own = to_chars(proto_candidates[k].canonicalized.as_str());
        assert(path_views(proto_candidates@)[k as int] == proto_candidates@[k as int]@);
        if ends_with(&own, &import) {
            let path = proto_candidates[k].canonicalized.as_str();
            return Some(DepPattern::literal(path, path));
        }
        k = k + 1;
    }
    None
}

/// The `.proto` files among the first `upto` entries that a walk of
/// `root` comes by, in order.
pub open spec fn proto_files_of(tree: FileTree, root: Seq<char>, upto: int) -> Seq<Seq<char>>
    decreases upto,
{
    if upto <= 0 {
        Seq::<Seq<char>>::empty()
    } else {
        let before = proto_files_of(tree, root, upto - 1);
        let path = tree.entries@[tree.walk_positions(root)[upto - 1]].path@;
        if proto_path(path) {
            before.push(path)
        } else {
            before
        }
    }
}

/// Every `.proto` file that a walk of `root` comes by, under its path
/// and the canonical form of that path.
pub open spec fn known_protos(tree: FileTree, root: Seq<char>) -> Seq<PathView> {
    proto_files_of(tree, root, tree.walk_positions(root).len() as int).map_values(
        |path: Seq<char>| PathView { display: path, canonical: cleaned(path) },
    )
}

/// Every `.proto` file that a walk of `root_dir` comes by, each located
/// below `root_dir`.
pub fn find_all_proto_files(tree: &FileTree, root_dir: &str) -> (r: Vec<PathInfo>)
    requires
        is_absolute(root_dir@),
    ensures
        r@.len() == proto_files_of(
            *tree,
            root_dir@,
            tree.walk_positions(root_dir@).len() as int,
        ).len(),
        forall|k: int|
            0 <= k < r@.len() ==> {
                let path = proto_files_of(
                    *tree,
                    root_dir@,
                    tree.walk_positions(root_dir@).len() as int,
                )[k];
                &&& (#[trigger] r@[k]).display_path@ == path
                &&& r@[k].canonicalized@ == cleaned(path)
                &&& is_absolute(r@[k].canonicalized@)
            },
{
    let walk = tree.walk(root_dir);
    let ghost positions = tree.walk_positions(root_dir@);
    let mut out: Vec<PathInfo> = Vec::new();
    let mut i: usize = 0;
    while i < walk.len()
        invariant
            i <= walk.len(),
            is_absolute(root_dir@),
            positions == tree.walk_positions(root_dir@),
            walk@.len() == positions.len(),
            forall|k: int| 0 <= k < walk@.len() ==> walk@[k] == positions[k],
            forall|k: int|
                0 <= k < walk@.len() ==> (#[trigger] walk@[k]) < tree.entries@.len()
                    && walked(tree.entries@[walk@[k] as int].path@, root_dir@),
            out@.len() == proto_files_of(*tree, root_dir@, i as int).len(),
            forall|k: int|
                0 <= k < out@.len() ==> {
                    let path = proto_files_of(*tree, root_dir@, i as int)[k];
                    &&& (#[trigger] out@[k]).display_path@ == path
                    &&& out@[k].canonicalized@ == cleaned(path)
                    &&& is_absolute(out@[k].canonicalized@)
                },
        decreases walk.len() - i,
    {
        let entry = &tree.entries[walk[i]];
        assert(walk@[i as int] == positions[i as int]);
        if is_proto(entry.path.as_str()) {
            proof {
                lemma_walked_absolute(entry.path@, root_dir@);
            }
            out.push(PathInfo::locate(entry.path.as_str(), root_dir));
        }
        i = i + 1;
    }
    out
}

impl ProtoAnalyzer {
    /// The analyzer for the repository at `root`, with every `.proto`
    /// file that a walk of the root comes by.
    pub fn new(root: PathInfo, tree: &FileTree) -> (r: ProtoAnalyzer)
        requires
            is_absolute(root.canonicalized@),
        ensures
            r.root == root,
            r.wf(),
            path_views(r.all_proto_files@) == known_protos(*tree, root.canonicalized@),
    {
        let all_proto_files = find_all_proto_files(tree, root.canonicalized.as_str());
        assert(path_views(all_proto_files@) =~= known_protos(*tree, root.canonicalized@));
        ProtoAnalyzer { root, all_proto_files }
    }

    /// Every known `.proto` file has an absolute canonical path.
    pub open spec fn wf(&self) -> bool {
        RuleView::Protobuf(path_views(self.all_proto_files@)).wf()
    }

    /// Every `.proto` file of the repository.
    pub fn proto_files(&self) -> (r: &Vec<PathInfo>)
        ensures
            r@ == self.all_proto_files@,
    {
        &self.all_proto_files
    }

    /// The dependencies that the `.proto` files `files` of a service
    /// show: what each of them imports, followed from file to file.
    /// Fails where a file that is referred to cannot be read.
    pub fn dependencies(&self, tree: &FileTree, files: &Vec<usize>) -> (r: Result<
        Vec<DepPattern>,
        AnalyzerError,
    >)
        requires
            self.wf(),
            forall|k: int|
                0 <= k < files@.len() ==> (#[trigger] files@[k]) < tree.entries@.len()
                    && is_absolute(tree.entries@[files@[k] as int].path@),
        ensures
            is_outcome(
                r,
                references_of_files(
                    *tree,
                    RuleView::Protobuf(path_views(self.all_proto_files@)),
                    files@,
                    files@.len() as int,
                ),
            ),
    {
        follow_all(tree, &LineRule::Protobuf(self.proto_files()), files)
    }

    /// Whether the analyzer reads a file of this name, given in lower case.
    pub fn file_relevant(&self, file_name: &str) -> (r: bool)
        ensures
            r == has_suffix(file_name@, "proto"@),
    {
        ends_with(&to_chars(file_name), &to_chars("proto"))
    }
}

} // verus!
