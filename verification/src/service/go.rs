//! Go: the packages of the repository that the sources of a service import.

use crate::cli::Opts;
use crate::config::{literal_list, literal_views, plain_all, DepPattern, GoDepsConfig, PatternView};
use crate::files::{scan_lines, scanned_lines, FileTree, SCAN_MAX_LINES};
use crate::service::AnalyzerError;
use crate::text::{
    between_quotes, contains_char, ends_with, from_chars, has_prefix, has_suffix, quoted, slice,
    starts_with, str_eq, to_chars, trim_char, trim_chars,
};
use crate::utils::{lemma_views_push, views};
use vstd::prelude::*;

verus! {

/// The analyzer for Go sources.
#[derive(Debug)]
pub struct GoAnalyzer {}

/// Position of the first of `prefixes`, at or after `from`, that
/// `import` begins with; `prefixes.len()` when there is none.
pub open spec fn prefix_index(import: Seq<char>, prefixes: Seq<Seq<char>>, from: int) -> int
    decreases prefixes.len() - from,
{
    if from < 0 || from >= prefixes.len() {
        prefixes.len() as int
    } else if has_prefix(import, prefixes[from]) {
        from
    } else {
        prefix_index(import, prefixes, from + 1)
    }
}

/// The package of the repository that `line` imports: the text between
/// the first two double quotes, where it begins with one of `prefixes`,
/// without the first such prefix, taken off once, and without slashes
/// at either end.
pub open spec fn import_of(line: Seq<char>, prefixes: Seq<Seq<char>>) -> Option<Seq<char>> {
    match quoted(line, '"') {
        Some(import) => {
            let k = prefix_index(import, prefixes, 0);
            if k < prefixes.len() {
                Some(trim_char(import.skip(prefixes[k].len() as int), '/'))
            } else {
                None
            }
        },
        None => None,
    }
}

/// Where a scan for imports stands: inside a bracketed block of
/// imports or not, and what was found.
pub struct ImportScan {
    pub in_block: bool,
    pub imports: Seq<Seq<char>>,
}

/// The scan after one more line. Inside a block, a line with a closing
/// bracket ends the block and any other line is read for an import.
/// Outside, `import (` opens a block and any other line that begins with
/// `import` is read for an import.
pub open spec fn scan_step(
    before: ImportScan,
    line: Seq<char>,
    prefixes: Seq<Seq<char>>,
) -> ImportScan {
    if before.in_block {
        if line.contains(')') {
            ImportScan { in_block: false, imports: before.imports }
        } else {
            match import_of(line, prefixes) {
                Some(import) => ImportScan { in_block: true, imports: before.imports.push(import) },
                None => before,
            }
        }
    } else if has_prefix(line, "import ("@) {
        ImportScan { in_block: true, imports: before.imports }
    } else if has_prefix(line, "import"@) {
        match import_of(line, prefixes) {
            Some(import) => ImportScan { in_block: false, imports: before.imports.push(import) },
            None => before,
        }
    } else {
        before
    }
}

/// The scan after the first `upto` lines.
pub open spec fn scan_imports(
    lines: Seq<Seq<char>>,
    prefixes: Seq<Seq<char>>,
    upto: int,
) -> ImportScan
    decreases upto,
{
    if upto <= 0 {
        ImportScan { in_block: false, imports: Seq::<Seq<char>>::empty() }
    } else {
        scan_step(scan_imports(lines, prefixes, upto - 1), lines[upto - 1], prefixes)
    }
}

/// The packages of the repository that a source with these `lines`
/// imports, in order; no more than `SCAN_MAX_LINES` lines are read.
pub open spec fn imports_of(lines: Seq<Seq<char>>, prefixes: Seq<Seq<char>>) -> Seq<Seq<char>> {
    scan_imports(
        lines,
        prefixes,
        if lines.len() > SCAN_MAX_LINES {
            SCAN_MAX_LINES as int
        } else {
            lines.len() as int
        },
    ).imports
}

/// The package of the repository that `line` imports.
pub fn extract_from_line(line: &str, config: &GoDepsConfig) -> (r: Option<String>)
    ensures
        r is Some == import_of(line@, views(config.package_prefixes@)) is Some,
        r is Some ==> r->0@ == import_of(line@, views(config.package_prefixes@))->0,
{
    let chars = to_chars(line);
    let import = match between_quotes(&chars, '"') {
        Some(import) => import,
        None => {
            return None;
        },
    };
    let ghost prefixes = views(config.package_prefixes@);
    let mut k: usize = 0;
    while k < config.package_prefixes.len()
        invariant
            k <= config.package_prefixes.len(),
            prefixes == views(config.package_prefixes@),
            quoted(line@, '"') == Some(import@),
            prefix_index(import@, prefixes, k as int) == prefix_index(import@, prefixes, 0),
        decreases config.package_prefixes.len() - k,
    {
        let prefix = to_chars(config.package_prefixes[k].as_str());
        assert(prefixes[k as int] == prefix@);
        if starts_with(&import, &prefix) {
            let stripped = slice(&import, prefix.len(), import.len());
            assert(import@.subrange(prefix.len() as int, import.len() as int) =~= import@.skip(
                prefix.len() as int,
            ));
            return Some(from_chars(&trim_chars(&stripped, '/')));
        }
        k = k + 1;
    }
    None
}

/// The packages of the repository that a source with these `lines`
/// imports, in order. This never fails.
pub fn find_imports(lines: Vec<String>, config: &GoDepsConfig) -> (r: Result<
    Vec<String>,
    AnalyzerError,
>)
    ensures
        r is Ok,
        views(r->Ok_0@) == imports_of(views(lines@), views(config.package_prefixes@)),
{
    let mut imports: Vec<String> = Vec::new();
    let mut in_imports = false;
    let ghost prefixes = views(config.package_prefixes@);
    let ghost all = views(lines@);
    let limit = if lines.len() > SCAN_MAX_LINES {
        SCAN_MAX_LINES
    } else {
        lines.len()
    };
    let open_block = to_chars("import (");
    let import_word = to_chars("import");
    let mut i: usize = 0;
    assert(views(imports@) =~= Seq::<Seq<char>>::empty());
    while i < limit
        invariant
            i <= limit <= lines.len(),
            prefixes == views(config.package_prefixes@),
            all == views(lines@),
            open_block@ == "import ("@,
            import_word@ == "import"@,
            scan_imports(all, prefixes, i as int) == (ImportScan {
                in_block: in_imports,
                imports: views(imports@),
            }),
        decreases limit - i,
    {
        let line = lines[i].as_str();
        assert(all[i as int] == line@);
        let chars = to_chars(line);
        if in_imports {
            if contains_char(&chars, ')') {
                in_imports = false;
            } else {
                match extract_from_line(line, config) {
                    Some(import) => {
                        proof {
                            lemma_views_push(imports@, import);
                        }
                        imports.push(import);
                    },
                    None => {},
                }
            }
        } else if starts_with(&chars, &open_block) {
            in_imports = true;
        } else if starts_with(&chars, &import_word) {
            match extract_from_line(line, config) {
                Some(import) => {
                    proof {
                        lemma_views_push(imports@, import);
                    }
                    imports.push(import);
                },
                None => {},
            }
        }
        i = i + 1;
    }
    Ok(imports)
}

/// The names of `names`, each once, in the order of their first occurrence.
pub open spec fn distinct(names: Seq<Seq<char>>) -> Seq<Seq<char>>
    decreases names.len(),
{
    if names.len() == 0 {
        Seq::<Seq<char>>::empty()
    } else {
        let before = distinct(names.drop_last());
        if before.contains(names.last()) {
            before
        } else {
            before.push(names.last())
        }
    }
}

/// The imports of the first `upto` of `files`, one source after the
/// other; `None` where one of them cannot be read.
pub open spec fn imports_of_files(
    tree: FileTree,
    files: Seq<usize>,
    prefixes: Seq<Seq<char>>,
    upto: int,
) -> Option<Seq<Seq<char>>>
    decreases upto,
{
    if upto <= 0 {
        Some(Seq::<Seq<char>>::empty())
    } else {
        match imports_of_files(tree, files, prefixes, upto - 1) {
            Some(before) => match tree.entries@[files[upto - 1] as int].content {
                Some(text) => Some(before + imports_of(scanned_lines(text@), prefixes)),
                None => None,
            },
            None => None,
        }
    }
}

/// What the Go sources `files` give: a literal pattern, below the root
/// of the repository, for each package of the repository that one of
/// them imports, once. It is an error when one of them cannot be read.
pub open spec fn go_references(
    tree: FileTree,
    files: Seq<usize>,
    prefixes: Seq<Seq<char>>,
    root: Seq<char>,
) -> Result<Seq<PatternView>, AnalyzerError> {
    match imports_of_files(tree, files, prefixes, files.len() as int) {
        Some(imports) => Ok(literal_views(distinct(imports), root)),
        None => Err(AnalyzerError::Unreadable),
    }
}

/// Whether `name` is in `names`.
fn contains_name(names: &Vec<String>, name: &str) -> (r: bool)
    ensures
        r == views(names@).contains(name@),
{
    let mut i: usize = 0;
    while i < names.len()
        invariant
            i <= names.len(),
            forall|j: int| 0 <= j < i ==> views(names@)[j] != name@,
        decreases names.len() - i,
    {
        if str_eq(names[i].as_str(), name) {
            assert(views(names@)[i as int] == name@);
            return true;
        }
        i = i + 1;
    }
    false
}

/// The lines as strings.
fn lines_as_strings(lines: &Vec<Vec<char>>) -> (r: Vec<String>)
    ensures
        r@.len() == lines@.len(),
        forall|k: int| 0 <= k < r@.len() ==> (#[trigger] r@[k])@ == lines@[k]@,
{
    let mut out: Vec<String> = Vec::new();
    let mut i: usize = 0;
    while i < lines.len()
        invariant
            i <= lines.len(),
            out@.len() == i,
            forall|k: int| 0 <= k < i ==> (#[trigger] out@[k])@ == lines@[k]@,
        decreases lines.len() - i,
    {
        out.push(from_chars(&lines[i]));
        i = i + 1;
    }
    out
}

impl GoAnalyzer {
    /// Whether the analyzer reads a file of this name, given in lower case.
    pub fn file_relevant(&self, file_name: &str) -> (r: bool)
        ensures
            r == has_suffix(file_name@, ".go"@),
    {
        ends_with(&to_chars(file_name), &to_chars(".go"))
    }

    /// The dependencies that the Go sources `files` of a service show:
    /// each package of the repository that one of them imports, once, as
    /// a literal pattern below the root of the repository. Fails when one of the
    /// sources cannot be read.
    pub fn dependencies(&self, tree: &FileTree, files: &Vec<usize>, opts: &Opts) -> (r: Result<
        Vec<DepPattern>,
        AnalyzerError,
    >)
        requires
            forall|k: int| 0 <= k < files@.len() ==> (#[trigger] files@[k]) < tree.entries@.len(),
        ensures
            match imports_of_files(
                *tree,
                files@,
                views(opts.config.auto_discovery.go.package_prefixes@),
                files@.len() as int,
            ) {
                Some(imports) => r is Ok && literal_list(
                    r->Ok_0@,
                    distinct(imports),
                    opts.target.canonicalized@,
                ),
                None => r == Err::<Vec<DepPattern>, AnalyzerError>(AnalyzerError::Unreadable),
            },
    {
        let ghost prefixes = views(opts.config.auto_discovery.go.package_prefixes@);
        let mut collected: Vec<String> = Vec::new();
        let ghost mut seen = Seq::<Seq<char>>::empty();
        let mut f: usize = 0;
        assert(views(collected@) =~= Seq::<Seq<char>>::empty());
        while f < files.len()
            invariant
                f <= files.len(),
                prefixes == views(opts.config.auto_discovery.go.package_prefixes@),
                forall|k: int|
                    0 <= k < files@.len() ==> (#[trigger] files@[k]) < tree.entries@.len(),
                imports_of_files(*tree, files@, prefixes, f as int) == Some(seen),
                views(collected@) == distinct(seen),
            decreases files.len() - f,
        {
            let text = match &tree.entries[files[f]].content {
                Some(text) => text,
                None => {
                    proof {
                        lemma_unreadable_stays(*tree, files@, prefixes, f + 1, files@.len() as int);
                    }
                    return Err(AnalyzerError::Unreadable);
                },
            };
            let lines = lines_as_strings(&scan_lines(text.as_str()));
            assert(views(lines@) =~= scanned_lines(text@));
            let imports = match find_imports(lines, &opts.config.auto_discovery.go) {
                Ok(imports) => imports,
                Err(e) => {
                    return Err(e);
                },
            };
            let ghost found = views(imports@);
            let ghost before = seen;
            let mut j: usize = 0;
            assert(found.take(0) =~= Seq::<Seq<char>>::empty());
            assert(before + found.take(0) =~= before);
            while j < imports.len()
                invariant
                    j <= imports.len(),
                    found == views(imports@),
                    views(collected@) == distinct(before + found.take(j as int)),
                decreases imports.len() - j,
            {
                assert((before + found.take(j + 1)).drop_last() =~= before + found.take(j as int));
                assert((before + found.take(j + 1)).last() == imports@[j as int]@);
                if !contains_name(&collected, imports[j].as_str()) {
                    proof {
                        lemma_views_push(collected@, imports@[j as int]);
                    }
                    collected.push(imports[j].clone());
                }
                j = j + 1;
            }
            proof {
                assert(found.take(imports.len() as int) =~= found);
                seen = before + found;
            }
            f = f + 1;
        }
        Ok(plain_all(&collected, opts.target.canonicalized.as_str()))
    }
}

/// Once a source cannot be read, reading more sources does not help.
proof fn lemma_unreadable_stays(
    tree: FileTree,
    files: Seq<usize>,
    prefixes: Seq<Seq<char>>,
    from: int,
    upto: int,
)
    requires
        0 <= from <= upto,
        imports_of_files(tree, files, prefixes, from) is None,
    ensures
        imports_of_files(tree, files, prefixes, upto) is None,
    decreases upto - from,
{
    if from < upto {
        lemma_unreadable_stays(tree, files, prefixes, from, upto - 1);
    }
}

} // verus!
