//! justfiles: the files that a justfile imports, and the justfiles of
//! its submodules.

use crate::config::{literal_view, DepPattern, PatternView};
use crate::files::FileTree;
use crate::path::{cleaned, is_absolute, join, joined};
use crate::text::{
    between_quotes, concat, ends_with, from_chars, has_prefix, has_suffix, quoted, split,
    split_chars, starts_with, str_eq, to_chars,
};
use crate::service::finder::{follow_all, is_outcome, references_of_files, LineRule, RuleView};
use crate::service::AnalyzerError;
use vstd::prelude::*;

verus! {

/// The analyzer for justfiles.
#[derive(Debug)]
pub struct JustfileAnalyzer {}

/// The places, below the directory of a justfile, where the justfile of
/// the submodule `name` may stand, in the order in which they are tried.
pub open spec fn module_candidates(name: Seq<char>) -> Seq<Seq<char>> {
    seq![
        "./"@ + name + ".just"@,
        "./"@ + name + "/mod.just"@,
        "./"@ + name + "/justfile"@,
        "./"@ + name + "/.justfile"@,
    ]
}

/// Position of the first of `candidates`, at or after `from`, that is a
/// file below `dir`; `candidates.len()` when there is none.
pub open spec fn candidate_index(
    tree: FileTree,
    dir: Seq<char>,
    candidates: Seq<Seq<char>>,
    from: int,
) -> int
    decreases candidates.len() - from,
{
    if from < 0 || from >= candidates.len() {
        candidates.len() as int
    } else if tree.has_file(cleaned(joined(dir, candidates[from]))) {
        from
    } else {
        candidate_index(tree, dir, candidates, from + 1)
    }
}

/// The justfile of the submodule `name` of a justfile in `dir`: the
/// first of the candidates that is a file, under its joined path.
pub open spec fn module_file(
    name: Seq<char>,
    dir: Seq<char>,
    tree: FileTree,
) -> Option<PatternView> {
    let candidates = module_candidates(name);
    let k = candidate_index(tree, dir, candidates, 0);
    if k < candidates.len() {
        Some(literal_view(joined(dir, candidates[k]), dir))
    } else {
        None
    }
}

/// The file that a line of a justfile in `dir` refers to. A line that
/// begins with `import` refers to the path between its first two single
/// quotes. A line that begins with `mod` refers to such a path, or,
/// where it has none and is made of two words, to the justfile of the
/// submodule that the second word names.
pub open spec fn justfile_reference(
    line: Seq<char>,
    dir: Seq<char>,
    tree: FileTree,
) -> Option<PatternView> {
    if has_prefix(line, "import"@) {
        match quoted(line, '\'') {
            Some(path) => Some(literal_view(path, dir)),
            None => None,
        }
    } else if has_prefix(line, "mod"@) {
        match quoted(line, '\'') {
            Some(path) => Some(literal_view(path, dir)),
            None => {
                let words = split(line, ' ');
                if words.len() == 2 {
                    module_file(words[1], dir, tree)
                } else {
                    None
                }
            },
        }
    } else {
        None
    }
}

/// The text `before`, `name` and `after` in a row.
fn framed(before: &str, name: &Vec<char>, after: &str) -> (r: Vec<char>)
    ensures
        r@ == before@ + name@ + after@,
{
    let head = concat(&to_chars(before), name);
    concat(&head, &to_chars(after))
}

/// The literal pattern for `path`, declared for the absolute `dir`.
pub fn plain_below(path: &Vec<char>, dir: &str) -> (r: DepPattern)
    requires
        is_absolute(dir@),
    ensures
        r@ == literal_view(path@, dir@),
        is_absolute(r.raw.canonicalized@),
{
    let text = from_chars(path);
    DepPattern::literal(text.as_str(), dir)
}

/// The places, below the directory of a justfile, where the justfile of
/// the submodule `name` may stand.
pub fn candidate_names(name: &Vec<char>) -> (r: Vec<Vec<char>>)
    ensures
        r@.map_values(|n: Vec<char>| n@) == module_candidates(name@),
{
    let mut candidates: Vec<Vec<char>> = Vec::new();
    candidates.push(framed("./", name, ".just"));
    candidates.push(framed("./", name, "/mod.just"));
    candidates.push(framed("./", name, "/justfile"));
    candidates.push(framed("./", name, "/.justfile"));
    assert(candidates@.map_values(|n: Vec<char>| n@) =~= module_candidates(name@));
    candidates
}

/// The justfile of the submodule `name` of a justfile in `dir`.
fn find_module_file(name: &Vec<char>, dir: &str, tree: &FileTree) -> (r: Option<DepPattern>)
    requires
        is_absolute(dir@),
    ensures
        r is Some == module_file(name@, dir@, *tree) is Some,
        r is Some ==> r->0@ == module_file(name@, dir@, *tree)->0 && is_absolute(
            r->0.raw.canonicalized@,
        ),
{
    let candidates = candidate_names(name);
    let ghost wanted = module_candidates(name@);
    assert(wanted.len() == 4);
    assert(candidates@.len() == 4);
    assert(forall|j: int|
        0 <= j < 4 ==> candidates@[j]@ == candidates@.map_values(|n: Vec<char>| n@)[j]);
    assert(forall|j: int| 0 <= j < 4 ==> candidates@[j]@ == #[trigger] wanted[j]);
    let base = to_chars(dir);
    let mut k: usize = 0;
    while k < candidates.len()
        invariant
            k <= candidates.len(),
            candidates@.len() == 4,
            wanted == module_candidates(name@),
            wanted.len() == 4,
            is_absolute(dir@),
            base@ == dir@,
            forall|j: int| 0 <= j < 4 ==> candidates@[j]@ == #[trigger] wanted[j],
            candidate_index(*tree, dir@, wanted, k as int) == candidate_index(
                *tree,
                dir@,
                wanted,
                0,
            ),
        decreases candidates.len() - k,
    {
        let path = join(&base, &candidates[k]);
        assert(path@ == joined(dir@, wanted[k as int]));
        let pattern = plain_below(&path, dir);
        assert(joined(dir@, path@) == path@);
        if tree.is_file(pattern.raw.canonicalized.as_str()) {
            return Some(pattern);
        }
        k = k + 1;
    }
    None
}

/// The file that a line of a justfile in `dir` refers to.
pub fn extract_from_line(line: &str, dir: &str, tree: &FileTree) -> (r: Option<DepPattern>)
    requires
        is_absolute(dir@),
    ensures
        r is Some == justfile_reference(line@, dir@, *tree) is Some,
        r is Some ==> r->0@ == justfile_reference(line@, dir@, *tree)->0 && is_absolute(
            r->0.raw.canonicalized@,
        ),
{
    let chars = to_chars(line);
    if starts_with(&chars, &to_chars("import")) {
        extract_from_import(&chars, dir)
    } else if starts_with(&chars, &to_chars("mod")) {
        extract_from_submodule(&chars, dir, tree)
    } else {
        None
    }
}

/// The file that a `mod` line of a justfile in `dir` refers to.
pub fn extract_from_submodule(line: &Vec<char>, dir: &str, tree: &FileTree) -> (r: Option<
    DepPattern,
>)
    requires
        is_absolute(dir@),
    ensures
        r is Some == (match quoted(line@, '\'') {
            Some(path) => true,
            None => split(line@, ' ').len() == 2 && module_file(split(line@, ' ')[1], dir@, *tree)
                is Some,
        }),
        r is Some ==> is_absolute(r->0.raw.canonicalized@) && r->0@ == (match quoted(line@, '\'') {
            Some(path) => literal_view(path, dir@),
            None => module_file(split(line@, ' ')[1], dir@, *tree)->0,
        }),
{
    match between_quotes(line, '\'') {
        Some(path) => Some(plain_below(&path, dir)),
        None => {
            let words = split_chars(line, ' ');
            if words.len() == 2 {
                find_module_file(&words[1], dir, tree)
            } else {
                None
            }
        },
    }
}

/// The file that an `import` line of a justfile in `dir` refers to.
pub fn extract_from_import(line: &Vec<char>, dir: &str) -> (r: Option<DepPattern>)
    requires
        is_absolute(dir@),
    ensures
        r is Some == quoted(line@, '\'') is Some,
        r is Some ==> r->0@ == literal_view(quoted(line@, '\'')->0, dir@) && is_absolute(
            r->0.raw.canonicalized@,
        ),
{
    match between_quotes(line, '\'') {
        Some(path) => Some(plain_below(&path, dir)),
        None => None,
    }
}

impl JustfileAnalyzer {
    /// The dependencies that the justfiles `files` of a service show:
    /// what each of them imports, followed from file to file. Fails
    /// where a file that is referred to cannot be read.
    pub fn dependencies(&self, tree: &FileTree, files: &Vec<usize>) -> (r: Result<
        Vec<DepPattern>,
        AnalyzerError,
    >)
        requires
            forall|k: int|
                0 <= k < files@.len() ==> (#[trigger] files@[k]) < tree.entries@.len()
                    && is_absolute(tree.entries@[files@[k] as int].path@),
        ensures
            is_outcome(
                r,
                references_of_files(*tree, RuleView::Justfile, files@, files@.len() as int),
            ),
    {
        follow_all(tree, &LineRule::Justfile, files)
    }

    /// Whether the analyzer reads a file of this name, given in lower case.
    pub fn file_relevant(&self, file_name: &str) -> (r: bool)
        ensures
            r == (file_name@ == "justfile"@ || has_suffix(file_name@, ".just"@)),
    {
        str_eq(file_name, "justfile") || ends_with(&to_chars(file_name), &to_chars(".just"))
    }
}

} // verus!
