//! Following references from file to file: the traversal that the
//! analyzers of justfiles, Makefiles and `.proto` files share.

use crate::config::{pattern_views, DepPattern, PatternView};
use crate::files::{lemma_entry_at, scan_lines, scanned_lines, EntryKind, FileTree};
use crate::path::{
    is_absolute, lemma_parent_absolute, parent, parent_of, path_views, PathInfo, PathView,
};
use crate::service::justfile::justfile_reference;
use crate::service::makefile::{makefile_references, MakefileAnalyzer};
use crate::service::proto::{lemma_imported_is_candidate, proto_reference};
use crate::service::AnalyzerError;
use crate::text::{from_chars, to_chars};
use vstd::prelude::*;

verus! {

/// How the lines of one kind of file name other files.
#[derive(Debug)]
pub enum LineRule<'a> {
    /// The imports and submodules of a justfile.
    Justfile,
    /// The includes of a Makefile, as this analyzer reads them.
    Makefile(&'a MakefileAnalyzer),
    /// The imports of a `.proto` file, looked up among the known files.
    Protobuf(&'a Vec<PathInfo>),
}

/// A `LineRule` with its texts as sequences of characters.
pub enum RuleView {
    Justfile,
    Makefile(Seq<char>),
    Protobuf(Seq<PathView>),
}

impl<'a> View for LineRule<'a> {
    type V = RuleView;

    open spec fn view(&self) -> RuleView {
        match self {
            LineRule::Justfile => RuleView::Justfile,
            LineRule::Makefile(analyzer) => RuleView::Makefile(analyzer.variable_rgx@),
            LineRule::Protobuf(candidates) => RuleView::Protobuf(path_views(candidates@)),
        }
    }
}

impl RuleView {
    /// The known `.proto` files have absolute canonical paths.
    pub open spec fn wf(self) -> bool {
        match self {
            RuleView::Protobuf(candidates) => forall|k: int|
                0 <= k < candidates.len() ==> is_absolute((#[trigger] candidates[k]).canonical),
            _ => true,
        }
    }

    /// The files that `line`, in a file of the absolute directory `dir`,
    /// refers to, in order.
    pub open spec fn references(
        self,
        line: Seq<char>,
        dir: Seq<char>,
        tree: FileTree,
    ) -> Seq<PatternView> {
        match self {
            RuleView::Justfile => match justfile_reference(line, dir, tree) {
                Some(reference) => seq![reference],
                None => Seq::<PatternView>::empty(),
            },
            RuleView::Makefile(variable) => makefile_references(line, dir, variable),
            RuleView::Protobuf(candidates) => match proto_reference(line, candidates) {
                Some(reference) => seq![reference],
                None => Seq::<PatternView>::empty(),
            },
        }
    }
}

impl<'a> LineRule<'a> {

    /// The files that `line`, in a file of the absolute directory `dir`,
    /// refers to, in order.
    pub fn extract(&self, line: &str, dir: &str, tree: &FileTree) -> (r: Vec<DepPattern>)
        requires
            self@.wf(),
            is_absolute(dir@),
        ensures
            pattern_views(r@) == self@.references(line@, dir@, *tree),
            forall|k: int| 0 <= k < r@.len() ==> is_absolute((#[trigger] r@[k]).raw.canonicalized@),
    {
        match self {
            LineRule::Justfile => {
                let mut out: Vec<DepPattern> = Vec::new();
                match crate::service::justfile::extract_from_line(line, dir, tree) {
                    Some(pattern) => {
                        out.push(pattern);
                    },
                    None => {},
                }
                assert(pattern_views(out@) =~= self@.references(line@, dir@, *tree));
                out
            },
            LineRule::Makefile(analyzer) => {
                let out = analyzer.extract_from_line(line, dir);
                assert(pattern_views(out@) =~= self@.references(line@, dir@, *tree));
                out
            },
            LineRule::Protobuf(candidates) => {
                let mut out: Vec<DepPattern> = Vec::new();
                proof {
                    lemma_imported_is_candidate(
                        line@,
                        path_views(candidates@),
                    );
                }
                match crate::service::proto::extract_from_line(line, candidates) {
                    Some(pattern) => {
                        out.push(pattern);
                    },
                    None => {},
                }
                assert(pattern_views(out@) =~= self@.references(line@, dir@, *tree));
                out
            },
        }
    }
}

/// Number of files that were not visited.
pub open spec fn unvisited(found: Seq<bool>) -> nat
    decreases found.len(),
{
    if found.len() == 0 {
        0
    } else if found.last() {
        unvisited(found.drop_last())
    } else {
        unvisited(found.drop_last()) + 1
    }
}

/// What was visited before or since.
pub open spec fn merged(before: Seq<bool>, since: Seq<bool>) -> Seq<bool> {
    Seq::new(before.len(), |i: int| before[i] || (0 <= i < since.len() && since[i]))
}

/// Where a traversal stands: which files were visited, what was found,
/// and why it gave up, if it did.
pub struct Scan {
    pub found: Seq<bool>,
    pub references: Seq<PatternView>,
    pub error: Option<AnalyzerError>,
}

/// Visiting one more file leaves fewer files that were not visited.
pub proof fn lemma_visit(found: Seq<bool>, at: int)
    requires
        0 <= at < found.len(),
        !found[at],
    ensures
        unvisited(found.update(at, true)) < unvisited(found),
    decreases found.len(),
{
    if at == found.len() - 1 {
        assert(found.update(at, true).drop_last() =~= found.drop_last());
    } else {
        lemma_visit(found.drop_last(), at);
        assert(found.update(at, true).drop_last() =~= found.drop_last().update(at, true));
    }
}

/// Where nothing is forgotten, no more files are left to visit than before.
pub proof fn lemma_more_visited(before: Seq<bool>, after: Seq<bool>)
    requires
        before.len() == after.len(),
        forall|i: int| 0 <= i < before.len() && before[i] ==> after[i],
    ensures
        unvisited(after) <= unvisited(before),
    decreases before.len(),
{
    if before.len() > 0 {
        lemma_more_visited(before.drop_last(), after.drop_last());
    }
}

/// The traversal of the file at `path`: a file that was visited gives
/// nothing; a path without a directory above it is an error; what is no
/// file gives nothing; a file that cannot be read is an error; any
/// other file is marked as visited and gives what its lines give.
pub open spec fn scan_file(
    tree: FileTree,
    rule: RuleView,
    path: Seq<char>,
    found: Seq<bool>,
) -> Scan
    decreases unvisited(found), 0nat, 0nat,
{
    let at = tree.position(path);
    let nothing = Scan { found, references: Seq::<PatternView>::empty(), error: None };
    if found.len() != tree.entries@.len() {
        nothing
    } else if tree.has_file(path) && found[at] {
        nothing
    } else {
        match parent_of(path) {
            None => Scan { error: Some(AnalyzerError::NoParent), ..nothing },
            Some(dir) => if !tree.has_file(path) {
                nothing
            } else {
                match tree.entries@[at].content {
                    None => Scan { error: Some(AnalyzerError::Unreadable), ..nothing },
                    Some(text) => {
                        proof {
                            lemma_entry_at(tree.entries@, path, 0);
                            lemma_visit(found, at);
                        }
                        scan_lines_from(
                            tree,
                            rule,
                            dir,
                            scanned_lines(text@),
                            0,
                            found.update(at, true),
                        )
                    },
                }
            },
        }
    }
}

/// The traversal of the lines of a file from line `from` on: what each
/// line refers to, line after line.
pub open spec fn scan_lines_from(
    tree: FileTree,
    rule: RuleView,
    dir: Seq<char>,
    lines: Seq<Seq<char>>,
    from: int,
    found: Seq<bool>,
) -> Scan
    decreases unvisited(found), 2nat, lines.len() - from,
{
    if from < 0 || from >= lines.len() {
        Scan { found, references: Seq::<PatternView>::empty(), error: None }
    } else {
        let first = scan_references(tree, rule, rule.references(lines[from], dir, tree), 0, found);
        if first.error is Some {
            first
        } else {
            proof {
                lemma_more_visited(found, merged(found, first.found));
            }
            let rest = scan_lines_from(
                tree,
                rule,
                dir,
                lines,
                from + 1,
                merged(found, first.found),
            );
            Scan {
                found: rest.found,
                references: first.references + rest.references,
                error: rest.error,
            }
        }
    }
}

/// The traversal of the references of one line from reference `from`
/// on: for each, what the file it names gives, and then the reference
/// itself.
pub open spec fn scan_references(
    tree: FileTree,
    rule: RuleView,
    references: Seq<PatternView>,
    from: int,
    found: Seq<bool>,
) -> Scan
    decreases unvisited(found), 1nat, references.len() - from,
{
    if from < 0 || from >= references.len() {
        Scan { found, references: Seq::<PatternView>::empty(), error: None }
    } else {
        let below = scan_file(tree, rule, references[from].raw.canonical, found);
        if below.error is Some {
            below
        } else {
            proof {
                lemma_more_visited(found, merged(found, below.found));
            }
            let rest = scan_references(
                tree,
                rule,
                references,
                from + 1,
                merged(found, below.found),
            );
            Scan {
                found: rest.found,
                references: below.references.push(references[from]) + rest.references,
                error: rest.error,
            }
        }
    }
}

/// A traversal forgets nothing: what was visited before it is visited after it.
pub proof fn lemma_scan_file_keeps(
    tree: FileTree,
    rule: RuleView,
    path: Seq<char>,
    found: Seq<bool>,
)
    ensures
        scan_file(tree, rule, path, found).found.len() == found.len(),
        forall|i: int|
            0 <= i < found.len() && found[i] ==> (#[trigger] scan_file(
                tree,
                rule,
                path,
                found,
            ).found[i]),
        merged(found, scan_file(tree, rule, path, found).found) == scan_file(
            tree,
            rule,
            path,
            found,
        ).found,
    decreases unvisited(found), 0nat, 0nat,
{
    let at = tree.position(path);
    let s = scan_file(tree, rule, path, found);
    if found.len() == tree.entries@.len() && !(tree.has_file(path) && found[at]) {
        if parent_of(path) is Some && tree.has_file(path) && tree.entries@[at].content is Some {
            lemma_entry_at(tree.entries@, path, 0);
            lemma_visit(found, at);
            lemma_scan_lines_keeps(
                tree,
                rule,
                parent_of(path)->0,
                scanned_lines(tree.entries@[at].content->0@),
                0,
                found.update(at, true),
            );
        }
    }
    assert(merged(found, s.found) =~= s.found);
}

/// A traversal of lines forgets nothing.
pub proof fn lemma_scan_lines_keeps(
    tree: FileTree,
    rule: RuleView,
    dir: Seq<char>,
    lines: Seq<Seq<char>>,
    from: int,
    found: Seq<bool>,
)
    ensures
        scan_lines_from(tree, rule, dir, lines, from, found).found.len() == found.len(),
        forall|i: int|
            0 <= i < found.len() && found[i] ==> (#[trigger] scan_lines_from(
                tree,
                rule,
                dir,
                lines,
                from,
                found,
            ).found[i]),
    decreases unvisited(found), 2nat, lines.len() - from,
{
    if 0 <= from < lines.len() {
        let refs = rule.references(lines[from], dir, tree);
        lemma_scan_references_keeps(tree, rule, refs, 0, found);
        let first = scan_references(tree, rule, refs, 0, found);
        if first.error is None {
            lemma_more_visited(found, merged(found, first.found));
            lemma_scan_lines_keeps(tree, rule, dir, lines, from + 1, merged(found, first.found));
        }
    }
}

/// A traversal of references forgets nothing.
pub proof fn lemma_scan_references_keeps(
    tree: FileTree,
    rule: RuleView,
    references: Seq<PatternView>,
    from: int,
    found: Seq<bool>,
)
    ensures
        scan_references(tree, rule, references, from, found).found.len() == found.len(),
        forall|i: int|
            0 <= i < found.len() && found[i] ==> (#[trigger] scan_references(
                tree,
                rule,
                references,
                from,
                found,
            ).found[i]),
        merged(found, scan_references(tree, rule, references, from, found).found)
            == scan_references(tree, rule, references, from, found).found,
    decreases unvisited(found), 1nat, references.len() - from,
{
    let s = scan_references(tree, rule, references, from, found);
    if 0 <= from < references.len() {
        lemma_scan_file_keeps(tree, rule, references[from].raw.canonical, found);
        let below = scan_file(tree, rule, references[from].raw.canonical, found);
        if below.error is None {
            lemma_more_visited(found, merged(found, below.found));
            lemma_scan_references_keeps(
                tree,
                rule,
                references,
                from + 1,
                merged(found, below.found),
            );
        }
    }
    assert(merged(found, s.found) =~= s.found);
}

/// The lines as sequences of characters.
pub open spec fn line_views(lines: Seq<Vec<char>>) -> Seq<Seq<char>> {
    lines.map_values(|line: Vec<char>| line@)
}

/// Appending a pattern appends what it says.
pub proof fn lemma_pattern_views_push(patterns: Seq<DepPattern>, p: DepPattern)
    ensures
        pattern_views(patterns.push(p)) == pattern_views(patterns).push(p@),
{
    assert(pattern_views(patterns.push(p)) =~= pattern_views(patterns).push(p@));
}

/// Whether the traversal that `scan` describes ended as `r` did, with
/// `found` and `out` as it left them. Where it gives up, both are as
/// they stood at that point.
pub open spec fn is_scan(
    scan: Scan,
    r: Result<(), AnalyzerError>,
    found: Seq<bool>,
    before: Seq<DepPattern>,
    out: Seq<DepPattern>,
) -> bool {
    &&& match scan.error {
        Some(e) => r == Err::<(), AnalyzerError>(e),
        None => r is Ok,
    }
    &&& found == scan.found
    &&& pattern_views(out) == pattern_views(before) + scan.references
}

/// Visits the file at `path` and appends what it gives to `out`.
fn visit_file(
    tree: &FileTree,
    rule: &LineRule,
    path: &str,
    found: &mut Vec<bool>,
    out: &mut Vec<DepPattern>,
) -> (r: Result<(), AnalyzerError>)
    requires
        rule@.wf(),
        is_absolute(path@),
        old(found)@.len() == tree.entries@.len(),
    ensures
        final(found)@.len() == old(found)@.len(),
        is_scan(
            scan_file(*tree, rule@, path@, old(found)@),
            r,
            final(found)@,
            old(out)@,
            final(out)@,
        ),
    decreases unvisited(old(found)@), 0nat, 0nat,
{
    let ghost before = out@;
    assert(pattern_views(before) + Seq::<PatternView>::empty() =~= pattern_views(before));
    let at = match tree.find(path) {
        Some(at) => Some(at),
        None => None,
    };
    let is_file = match at {
        Some(i) => tree.entries[i].kind == EntryKind::File,
        None => false,
    };
    if is_file {
        match at {
            Some(i) => {
                if found[i] {
                    return Ok(());
                }
            },
            None => {},
        }
    }
    let dir = match parent(&to_chars(path)) {
        Some(dir) => from_chars(&dir),
        None => {
            return Err(AnalyzerError::NoParent);
        },
    };
    if !is_file {
        return Ok(());
    }
    match at {
        Some(i) => {
            let text = match &tree.entries[i].content {
                Some(text) => text,
                None => {
                    return Err(AnalyzerError::Unreadable);
                },
            };
            let lines = scan_lines(text.as_str());
            assert(line_views(lines@) =~= scanned_lines(text@));
            proof {
                lemma_visit(found@, i as int);
                lemma_parent_absolute(path@);
            }
            found.set(i, true);
            visit_lines(tree, rule, dir.as_str(), &lines, 0, found, out)
        },
        None => Ok(()),
    }
}

/// Visits what the lines from `from` on refer to.
fn visit_lines(
    tree: &FileTree,
    rule: &LineRule,
    dir: &str,
    lines: &Vec<Vec<char>>,
    from: usize,
    found: &mut Vec<bool>,
    out: &mut Vec<DepPattern>,
) -> (r: Result<(), AnalyzerError>)
    requires
        rule@.wf(),
        is_absolute(dir@),
        old(found)@.len() == tree.entries@.len(),
    ensures
        final(found)@.len() == old(found)@.len(),
        is_scan(
            scan_lines_from(*tree, rule@, dir@, line_views(lines@), from as int, old(found)@),
            r,
            final(found)@,
            old(out)@,
            final(out)@,
        ),
    decreases unvisited(old(found)@), 2nat, lines@.len() - from,
{
    let ghost before = out@;
    let ghost found0 = found@;
    let ghost all = line_views(lines@);
    if from >= lines.len() {
        assert(pattern_views(before) + Seq::<PatternView>::empty() =~= pattern_views(before));
        return Ok(());
    }
    let line = from_chars(&lines[from]);
    assert(all[from as int] == line@);
    let references = rule.extract(line.as_str(), dir, tree);
    let ghost refs = pattern_views(references@);
    match visit_references(tree, rule, &references, 0, found, out) {
        Ok(()) => {},
        Err(e) => {
            return Err(e);
        },
    }
    let ghost first = scan_references(*tree, rule@, refs, 0, found0);
    let ghost middle = out@;
    proof {
        lemma_scan_references_keeps(*tree, rule@, refs, 0, found0);
        lemma_more_visited(found0, found@);
    }
    let r = visit_lines(tree, rule, dir, lines, from + 1, found, out);
    proof {
        let rest = scan_lines_from(*tree, rule@, dir@, all, from + 1, first.found);
        assert(pattern_views(out@) =~= pattern_views(before) + (first.references
            + rest.references));
    }
    r
}

/// Visits the files that the references from `from` on name, and
/// appends each reference after what its file gives.
fn visit_references(
    tree: &FileTree,
    rule: &LineRule,
    references: &Vec<DepPattern>,
    from: usize,
    found: &mut Vec<bool>,
    out: &mut Vec<DepPattern>,
) -> (r: Result<(), AnalyzerError>)
    requires
        rule@.wf(),
        old(found)@.len() == tree.entries@.len(),
        forall|k: int|
            0 <= k < references@.len() ==> is_absolute(
                (#[trigger] references@[k]).raw.canonicalized@,
            ),
    ensures
        final(found)@.len() == old(found)@.len(),
        is_scan(
            scan_references(
                *tree,
                rule@,
                pattern_views(references@),
                from as int,
                old(found)@,
            ),
            r,
            final(found)@,
            old(out)@,
            final(out)@,
        ),
    decreases unvisited(old(found)@), 1nat, references@.len() - from,
{
    let ghost before = out@;
    let ghost found0 = found@;
    let ghost refs = pattern_views(references@);
    if from >= references.len() {
        assert(pattern_views(before) + Seq::<PatternView>::empty() =~= pattern_views(before));
        return Ok(());
    }
    let reference = &references[from];
    assert(refs[from as int] == reference@);
    match visit_file(tree, rule, reference.raw.canonicalized.as_str(), found, out) {
        Ok(()) => {},
        Err(e) => {
            return Err(e);
        },
    }
    let ghost below = scan_file(*tree, rule@, reference.raw.canonicalized@, found0);
    proof {
        lemma_scan_file_keeps(*tree, rule@, reference.raw.canonicalized@, found0);
        lemma_more_visited(found0, found@);
        lemma_pattern_views_push(out@, *reference);
    }
    out.push(reference.duplicate());
    let r = visit_references(tree, rule, references, from + 1, found, out);
    proof {
        let rest = scan_references(*tree, rule@, refs, from + 1, below.found);
        assert(pattern_views(out@) =~= pattern_views(before) + (below.references.push(
            refs[from as int],
        ) + rest.references));
    }
    r
}

/// The state of one traversal: which files it has visited.
#[derive(Debug)]
pub struct ReferenceFinder {
    /// One flag for each entry of the tree.
    pub found: Vec<bool>,
}

impl ReferenceFinder {
    /// A traversal that has visited nothing yet.
    pub fn new(tree: &FileTree) -> (r: ReferenceFinder)
        ensures
            r.found@ == Seq::new(tree.entries@.len(), |i: int| false),
    {
        let mut found: Vec<bool> = Vec::new();
        let mut i: usize = 0;
        while i < tree.entries.len()
            invariant
                i <= tree.entries.len(),
                found@ == Seq::new(i as nat, |k: int| false),
            decreases tree.entries.len() - i,
        {
            found.push(false);
            assert(found@ =~= Seq::new((i + 1) as nat, |k: int| false));
            i = i + 1;
        }
        ReferenceFinder { found }
    }

    /// Follows the references of the file at `path` from file to file
    /// and returns them, for each file what it refers to before the
    /// reference to the file itself. A file is read once; what was
    /// visited before gives nothing. No more than `SCAN_MAX_LINES` lines
    /// of a file are read. Fails where a path has no directory above it
    /// and where a file cannot be read; what was visited up to that
    /// point stays marked.
    pub fn extract_from(&mut self, tree: &FileTree, rule: &LineRule, path: &str) -> (r: Result<
        Vec<DepPattern>,
        AnalyzerError,
    >)
        requires
            rule@.wf(),
            is_absolute(path@),
            old(self).found@.len() == tree.entries@.len(),
        ensures
            final(self).found@ == scan_file(*tree, rule@, path@, old(self).found@).found,
            match scan_file(*tree, rule@, path@, old(self).found@).error {
                Some(e) => r == Err::<Vec<DepPattern>, AnalyzerError>(e),
                None => r is Ok && pattern_views(r->Ok_0@) == scan_file(
                    *tree,
                    rule@,
                    path@,
                    old(self).found@,
                ).references,
            },
    {
        let mut imports: Vec<DepPattern> = Vec::new();
        assert(pattern_views(imports@) =~= Seq::<PatternView>::empty());
        proof {
            lemma_scan_file_keeps(*tree, rule@, path@, self.found@);
        }
        match visit_file(tree, rule, path, &mut self.found, &mut imports) {
            Ok(()) => {
                assert(Seq::<PatternView>::empty() + scan_file(
                    *tree,
                    rule@,
                    path@,
                    old(self).found@,
                ).references =~= scan_file(*tree, rule@, path@, old(self).found@).references);
                Ok(imports)
            },
            Err(e) => Err(e),
        }
    }
}

/// What the first `upto` of `files` give, each followed on its own
/// from file to file, one after the other; the first error, where a
/// traversal gives up.
pub open spec fn references_of_files(
    tree: FileTree,
    rule: RuleView,
    files: Seq<usize>,
    upto: int,
) -> Result<Seq<PatternView>, AnalyzerError>
    decreases upto,
{
    if upto <= 0 {
        Ok(Seq::<PatternView>::empty())
    } else {
        match references_of_files(tree, rule, files, upto - 1) {
            Ok(before) => {
                let scan = scan_file(
                    tree,
                    rule,
                    tree.entries@[files[upto - 1] as int].path@,
                    Seq::new(tree.entries@.len(), |i: int| false),
                );
                match scan.error {
                    Some(e) => Err(e),
                    None => Ok(before + scan.references),
                }
            },
            Err(e) => Err(e),
        }
    }
}

/// Whether `r` is the outcome `expected` of an analyzer.
pub open spec fn is_outcome(
    r: Result<Vec<DepPattern>, AnalyzerError>,
    expected: Result<Seq<PatternView>, AnalyzerError>,
) -> bool {
    match expected {
        Ok(references) => r is Ok && pattern_views(r->Ok_0@) == references,
        Err(e) => r == Err::<Vec<DepPattern>, AnalyzerError>(e),
    }
}

/// Once a traversal has given up, further files do not help.
pub proof fn lemma_error_stays(
    tree: FileTree,
    rule: RuleView,
    files: Seq<usize>,
    from: int,
    upto: int,
)
    requires
        0 <= from <= upto,
        references_of_files(tree, rule, files, from) is Err,
    ensures
        references_of_files(tree, rule, files, upto) == references_of_files(
            tree,
            rule,
            files,
            from,
        ),
    decreases upto - from,
{
    if from < upto {
        lemma_error_stays(tree, rule, files, from, upto - 1);
    }
}

/// Appends copies of `more` to `out`.
pub fn append_patterns(out: &mut Vec<DepPattern>, more: &Vec<DepPattern>)
    ensures
        pattern_views(final(out)@) == pattern_views(old(out)@) + pattern_views(more@),
        final(out)@.len() == old(out)@.len() + more@.len(),
        forall|k: int| 0 <= k < old(out)@.len() ==> final(out)@[k] == old(out)@[k],
{
    let ghost before = out@;
    let mut i: usize = 0;
    assert(pattern_views(out@) =~= pattern_views(before) + pattern_views(more@.take(0)));
    while i < more.len()
        invariant
            i <= more.len(),
            out@.len() == before.len() + i,
            forall|k: int| 0 <= k < before.len() ==> out@[k] == before[k],
            pattern_views(out@) == pattern_views(before) + pattern_views(more@.take(i as int)),
        decreases more.len() - i,
    {
        proof {
            lemma_pattern_views_push(out@, more@[i as int]);
            assert(pattern_views(more@.take(i + 1)) =~= pattern_views(more@.take(i as int)).push(
                more@[i as int]@,
            ));
            assert(pattern_views(before) + pattern_views(more@.take(i as int)).push(
                more@[i as int]@,
            ) =~= (pattern_views(before) + pattern_views(more@.take(i as int))).push(
                more@[i as int]@,
            ));
        }
        out.push(more[i].duplicate());
        i = i + 1;
    }
    assert(more@.take(more@.len() as int) =~= more@);
}

/// Follows the references of each of `files`, each on its own, and
/// returns what they give, one file after the other.
pub fn follow_all(tree: &FileTree, rule: &LineRule, files: &Vec<usize>) -> (r: Result<
    Vec<DepPattern>,
    AnalyzerError,
>)
    requires
        rule@.wf(),
        forall|k: int|
            0 <= k < files@.len() ==> (#[trigger] files@[k]) < tree.entries@.len() && is_absolute(
                tree.entries@[files@[k] as int].path@,
            ),
    ensures
        is_outcome(r, references_of_files(*tree, rule@, files@, files@.len() as int)),
{
    let mut dependencies: Vec<DepPattern> = Vec::new();
    let mut f: usize = 0;
    assert(pattern_views(dependencies@) =~= Seq::<PatternView>::empty());
    while f < files.len()
        invariant
            f <= files.len(),
            rule@.wf(),
            forall|k: int|
                0 <= k < files@.len() ==> (#[trigger] files@[k]) < tree.entries@.len()
                    && is_absolute(tree.entries@[files@[k] as int].path@),
            references_of_files(*tree, rule@, files@, f as int) == Ok::<
                Seq<PatternView>,
                AnalyzerError,
            >(pattern_views(dependencies@)),
        decreases files.len() - f,
    {
        let mut finder = ReferenceFinder::new(tree);
        let path = tree.entries[files[f]].path.as_str();
        match finder.extract_from(tree, rule, path) {
            Ok(found) => {
                append_patterns(&mut dependencies, &found);
            },
            Err(e) => {
                proof {
                    lemma_error_stays(*tree, rule@, files@, f + 1, files@.len() as int);
                }
                return Err(e);
            },
        }
        f = f + 1;
    }
    Ok(dependencies)
}

} // verus!
