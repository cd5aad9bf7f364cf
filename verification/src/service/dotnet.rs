//! .NET: the projects that the `.csproj` files of a service refer to, and
//! the `Directory.*` files that apply to the service.

use crate::cli::Opts;
use crate::config::{
    compilable, compile_all, compiled_view, compiled_views, lemma_compiled_views, pattern_views,
    DepPattern, PatternView,
};
use crate::files::FileTree;
use crate::path::{
    file_name, file_name_of, file_stem, file_stem_of, is_absolute, is_dot_dot, join, joined,
    lemma_parent_absolute, lemma_parent_shorter, parent, parent_of, PathInfo,
};
use crate::service::finder::{append_patterns, is_outcome, lemma_pattern_views_push};
use crate::service::AnalyzerError;
use crate::text::{
    chars_eq, ends_with, from_chars, has_prefix, has_suffix, replace_char, replace_chars, slice,
    starts_with, str_eq, to_chars,
};
use crate::utils::{lemma_views_push, views};
use vstd::prelude::*;

verus! {

/// Whether `sxd_xpath::Factory::build` makes an XPath of `expression`.
pub uninterp spec fn xpath_valid(expression: Seq<char>) -> bool;

/// The string values of the element and attribute nodes that the XPath
/// `expression` selects in the XML `document`, in document order;
/// `Some(None)` where the expression yields a value that is no set of
/// nodes. `None` where `sxd_document` does not accept the document, or
/// `sxd_xpath` does not accept or cannot evaluate the expression.
pub uninterp spec fn xml_selection(document: Seq<char>, expression: Seq<char>) -> Option<
    Option<Seq<Seq<char>>>,
>;

/// Calls `sxd_xpath::Factory::build` and reports whether it made an
/// XPath of `expression`.
#[verifier::external_body]
fn xpath_compiles(expression: &str) -> (r: bool)
    ensures
        r == xpath_valid(expression@),
{
    matches!(sxd_xpath::Factory::new().build(expression), Ok(Some(_)))
}

/// Parses `document` with `sxd_document::parser::parse`, builds
/// `expression` with `sxd_xpath::Factory::build`, evaluates it at the
/// root of the document with `sxd_xpath::XPath::evaluate`, and hands out
/// the string value of each selected node, in the order of
/// `Nodeset::document_order`. That order is settled for the attributes
/// that the expression for project references selects; it is left open
/// among namespace nodes, which that expression never selects. A value
/// of another kind than a set of nodes is handed out as `Some(None)`.
#[verifier::external_body]
fn xml_select(document: &str, expression: &str) -> (r: Option<Option<Vec<String>>>)
    requires
        expression@ == reference_xpath(),
    ensures
        r is Some == xml_selection(document@, expression@) is Some,
        r is Some ==> (r->0 is Some) == (xml_selection(document@, expression@)->0 is Some),
        r is Some && r->0 is Some ==> views(r->0->0@) == xml_selection(
            document@,
            expression@,
        )->0->0,
{
    let package = sxd_document::parser::parse(document).ok()?;
    let selector = sxd_xpath::Factory::new().build(expression).ok()??;
    let context = sxd_xpath::Context::new();
    match selector.evaluate(&context, package.as_document().root()).ok()? {
        sxd_xpath::Value::Nodeset(nodes) => Some(
            Some(nodes.document_order().iter().map(|node| node.string_value()).collect()),
        ),
        sxd_xpath::Value::Boolean(_) => Some(None),
        sxd_xpath::Value::Number(_) => Some(None),
        sxd_xpath::Value::String(_) => Some(None),
    }
}

/// The files that apply to every project below the directory they stand in.
#[derive(Clone, Copy, PartialEq, Eq, Structural, Debug)]
pub enum DirectoryFile {
    BuildProps,
    BuildTargets,
    PackagesProps,
}

impl DirectoryFile {
    /// The name of the file.
    pub open spec fn name(self) -> Seq<char> {
        match self {
            DirectoryFile::BuildProps => "Directory.Build.props"@,
            DirectoryFile::BuildTargets => "Directory.Build.targets"@,
            DirectoryFile::PackagesProps => "Directory.Packages.props"@,
        }
    }

    /// The name of the file.
    pub fn filename(&self) -> (r: &'static str)
        ensures
            r@ == self.name(),
    {
        match self {
            DirectoryFile::BuildProps => "Directory.Build.props",
            DirectoryFile::BuildTargets => "Directory.Build.targets",
            DirectoryFile::PackagesProps => "Directory.Packages.props",
        }
    }
}

/// A `Directory.*` file that was found, by its kind and its directory.
#[derive(Debug)]
pub struct FoundFile {
    pub kind: DirectoryFile,
    pub dir: String,
}

/// A project that a `.csproj` refers to: its directory, as written, and its name.
#[derive(Debug)]
pub struct Import {
    pub service_dir: String,
    pub name: String,
}

/// The analyzer for `.csproj` files.
#[derive(Debug)]
pub struct DotnetAnalyzer {
    /// The root of the repository.
    pub root: PathInfo,
    /// Every `Directory.*` file of the repository.
    pub directory_files: Vec<FoundFile>,
}

/// The XPath that selects the references to other projects.
pub open spec fn reference_xpath() -> Seq<char> {
    "//ProjectReference[@Include]/@Include"@
}

/// The XPath that selects the references to other projects.
pub fn reference_expression() -> (r: &'static str)
    ensures
        r@ == reference_xpath(),
{
    "//ProjectReference[@Include]/@Include"
}

/// `content` without one byte order mark at its beginning.
pub open spec fn without_bom(content: Seq<char>) -> Seq<char> {
    if has_prefix(content, bom()) {
        content.skip(1)
    } else {
        content
    }
}

/// The byte order mark.
pub open spec fn bom() -> Seq<char> {
    seq!['\u{feff}']
}

/// The directory and the name of the project that `reference` refers to:
/// with `/` for every backslash, the directory that holds the project
/// file, where the reference names one, and the file name without its
/// extension.
pub open spec fn project_of(reference: Seq<char>) -> Option<(Seq<char>, Seq<char>)> {
    let path = replace_char(reference, '\\', '/');
    let name = file_name_of(path);
    match parent_of(path) {
        Some(dir) => if dir.len() == 0 || name.len() == 0 || name == seq!['.', '.'] {
            None
        } else {
            Some((dir, file_stem_of(name)))
        },
        None => None,
    }
}

/// Whether a project of this name counts: always where no namespaces
/// are given, otherwise where the name begins with one of them.
pub open spec fn allowed(name: Seq<char>, namespaces: Seq<Seq<char>>) -> bool {
    namespaces.len() == 0 || exists|k: int|
        0 <= k < namespaces.len() && has_prefix(name, #[trigger] namespaces[k])
}

/// The directories of the projects among `includes` that count, in order.
pub open spec fn project_dirs(
    includes: Seq<Seq<char>>,
    namespaces: Seq<Seq<char>>,
) -> Seq<Seq<char>>
    decreases includes.len(),
{
    if includes.len() == 0 {
        Seq::<Seq<char>>::empty()
    } else {
        let before = project_dirs(includes.drop_last(), namespaces);
        match project_of(includes.last()) {
            Some((dir, name)) => if allowed(name, namespaces) {
                before.push(dir)
            } else {
                before
            },
            None => before,
        }
    }
}

/// The directories of the projects that the project file with the text
/// `content` refers to, as far as they count: none where what is
/// selected is no set of nodes; `None` where the text is not well-formed
/// XML.
pub open spec fn project_references(
    content: Seq<char>,
    namespaces: Seq<Seq<char>>,
) -> Option<Seq<Seq<char>>> {
    match xml_selection(content, reference_xpath()) {
        Some(Some(includes)) => Some(project_dirs(includes, namespaces)),
        Some(None) => Some(Seq::<Seq<char>>::empty()),
        None => None,
    }
}

/// The directory and the name of the project that `reference` refers to.
pub fn extract_project_dir(reference: &str) -> (r: Option<Import>)
    ensures
        r is Some == project_of(reference@) is Some,
        r is Some ==> (r->0.service_dir@, r->0.name@) == project_of(reference@)->0,
{
    let sanitized = replace_chars(&to_chars(reference), '\\', '/');
    let name = file_name(&sanitized);
    match parent(&sanitized) {
        Some(dir) => {
            if dir.len() == 0 || name.len() == 0 || is_dot_dot(&name) {
                None
            } else {
                Some(
                    Import {
                        service_dir: from_chars(&dir),
                        name: from_chars(&file_stem(&name)),
                    },
                )
            }
        },
        None => None,
    }
}

/// Whether a project of this name counts.
fn is_allowed(name: &str, package_namespaces: &Vec<String>) -> (r: bool)
    ensures
        r == allowed(name@, views(package_namespaces@)),
{
    if package_namespaces.len() == 0 {
        return true;
    }
    let chars = to_chars(name);
    let mut k: usize = 0;
    while k < package_namespaces.len()
        invariant
            k <= package_namespaces.len(),
            chars@ == name@,
            forall|j: int|
                0 <= j < k ==> !has_prefix(name@, #[trigger] views(package_namespaces@)[j]),
        decreases package_namespaces.len() - k,
    {
        let prefix = to_chars(package_namespaces[k].as_str());
        assert(views(package_namespaces@)[k as int] == prefix@);
        if starts_with(&chars, &prefix) {
            return true;
        }
        k = k + 1;
    }
    false
}

/// Position of the first of `files`, at or after `from`, of kind `kind`
/// in the directory `dir`; `files.len()` when there is none.
pub open spec fn found_at(
    files: Seq<(DirectoryFile, Seq<char>)>,
    kind: DirectoryFile,
    dir: Seq<char>,
    from: int,
) -> int
    decreases files.len() - from,
{
    if from < 0 || from >= files.len() {
        files.len() as int
    } else if files[from] == (kind, dir) {
        from
    } else {
        found_at(files, kind, dir, from + 1)
    }
}

/// The nearest directory, from `dir` upwards and no higher than `root`,
/// that holds a file of kind `kind`.
pub open spec fn nearest_with(
    files: Seq<(DirectoryFile, Seq<char>)>,
    kind: DirectoryFile,
    dir: Seq<char>,
    root: Seq<char>,
) -> Option<Seq<char>>
    decreases dir.len(),
{
    if found_at(files, kind, dir, 0) < files.len() {
        Some(dir)
    } else if dir == root {
        None
    } else {
        match parent_of(dir) {
            Some(up) => {
                proof {
                    lemma_parent_shorter(dir);
                }
                nearest_with(files, kind, up, root)
            },
            None => None,
        }
    }
}

/// The pattern for the nearest file of kind `kind` above `dir`, if
/// there is one; an error where its path does not compile as a pattern.
pub open spec fn directory_pattern(
    files: Seq<(DirectoryFile, Seq<char>)>,
    kind: DirectoryFile,
    dir: Seq<char>,
    root: Seq<char>,
) -> Result<Seq<PatternView>, AnalyzerError> {
    match nearest_with(files, kind, dir, root) {
        Some(holder) => {
            let path = joined(holder, kind.name());
            if compilable(path) {
                Ok(seq![compiled_view(path, dir)])
            } else {
                Err(AnalyzerError::InvalidPattern)
            }
        },
        None => Ok(Seq::<PatternView>::empty()),
    }
}

/// The patterns for the `Directory.*` files that apply to the service
/// in `dir`: of each kind the nearest above `dir`.
pub open spec fn directory_patterns(
    files: Seq<(DirectoryFile, Seq<char>)>,
    dir: Seq<char>,
    root: Seq<char>,
) -> Result<Seq<PatternView>, AnalyzerError> {
    match directory_pattern(files, DirectoryFile::BuildProps, dir, root) {
        Ok(props) => match directory_pattern(files, DirectoryFile::BuildTargets, dir, root) {
            Ok(targets) => match directory_pattern(files, DirectoryFile::PackagesProps, dir, root) {
                Ok(packages) => Ok(props + targets + packages),
                Err(e) => Err(e),
            },
            Err(e) => Err(e),
        },
        Err(e) => Err(e),
    }
}

/// What the project file at position `at` gives: a pattern for the
/// directory of each project it refers to, relative to its own
/// directory. It is an error when the file cannot be read or is not
/// well-formed.
pub open spec fn csproj_references(
    tree: FileTree,
    at: int,
    namespaces: Seq<Seq<char>>,
) -> Result<Seq<PatternView>, AnalyzerError> {
    match tree.entries@[at].content {
        None => Err(AnalyzerError::Unreadable),
        Some(content) => match project_references(without_bom(content@), namespaces) {
            None => Err(AnalyzerError::Parse),
            Some(dirs) => match parent_of(tree.entries@[at].path@) {
                Some(project_dir) => Ok(compiled_views(dirs, project_dir)),
                None => Ok(Seq::<PatternView>::empty()),
            },
        },
    }
}

/// What the first `upto` of the project files `files` give, one after the other.
pub open spec fn csprojs_of(
    tree: FileTree,
    files: Seq<usize>,
    namespaces: Seq<Seq<char>>,
    upto: int,
) -> Result<Seq<PatternView>, AnalyzerError>
    decreases upto,
{
    if upto <= 0 {
        Ok(Seq::<PatternView>::empty())
    } else {
        match csprojs_of(tree, files, namespaces, upto - 1) {
            Ok(before) => match csproj_references(tree, files[upto - 1] as int, namespaces) {
                Ok(references) => Ok(before + references),
                Err(e) => Err(e),
            },
            Err(e) => Err(e),
        }
    }
}

/// What the project files `files` of the service in `dir` give, and
/// then the `Directory.*` files that apply to the service.
pub open spec fn dotnet_references(
    tree: FileTree,
    files: Seq<usize>,
    namespaces: Seq<Seq<char>>,
    found: Seq<(DirectoryFile, Seq<char>)>,
    dir: Seq<char>,
    root: Seq<char>,
) -> Result<Seq<PatternView>, AnalyzerError> {
    match csprojs_of(tree, files, namespaces, files.len() as int) {
        Ok(references) => match directory_patterns(found, dir, root) {
            Ok(shared) => Ok(references + shared),
            Err(e) => Err(e),
        },
        Err(e) => Err(e),
    }
}

/// Once a project file could not be read, further files do not help.
proof fn lemma_failure_stays(
    tree: FileTree,
    files: Seq<usize>,
    namespaces: Seq<Seq<char>>,
    from: int,
    upto: int,
)
    requires
        0 <= from <= upto,
        csprojs_of(tree, files, namespaces, from) is Err,
    ensures
        csprojs_of(tree, files, namespaces, upto) == csprojs_of(tree, files, namespaces, from),
    decreases upto - from,
{
    if from < upto {
        lemma_failure_stays(tree, files, namespaces, from, upto - 1);
    }
}

/// The `Directory.*` file that the entry at `path` is, with the
/// directory it stands in.
pub open spec fn directory_file_at(path: Seq<char>) -> Option<(DirectoryFile, Seq<char>)> {
    let name = file_name_of(path);
    let kind = if name == DirectoryFile::BuildProps.name() {
        Some(DirectoryFile::BuildProps)
    } else if name == DirectoryFile::BuildTargets.name() {
        Some(DirectoryFile::BuildTargets)
    } else if name == DirectoryFile::PackagesProps.name() {
        Some(DirectoryFile::PackagesProps)
    } else {
        None
    };
    match (kind, parent_of(path)) {
        (Some(kind), Some(dir)) => Some((kind, dir)),
        _ => None,
    }
}

/// The `Directory.*` file that the entry at `path` is.
pub fn to_directory_file(path: &str) -> (r: Option<FoundFile>)
    ensures
        r is Some == directory_file_at(path@) is Some,
        r is Some ==> (r->0.kind, r->0.dir@) == directory_file_at(path@)->0,
{
    let chars = to_chars(path);
    let name = from_chars(&file_name(&chars));
    let kind = if str_eq(name.as_str(), DirectoryFile::BuildProps.filename()) {
        Some(DirectoryFile::BuildProps)
    } else if str_eq(name.as_str(), DirectoryFile::BuildTargets.filename()) {
        Some(DirectoryFile::BuildTargets)
    } else if str_eq(name.as_str(), DirectoryFile::PackagesProps.filename()) {
        Some(DirectoryFile::PackagesProps)
    } else {
        None
    };
    match kind {
        Some(kind) => match parent(&chars) {
            Some(dir) => Some(FoundFile { kind, dir: from_chars(&dir) }),
            None => None,
        },
        None => None,
    }
}

/// The `Directory.*` files among the first `upto` entries that a walk
/// of `root` comes by, in order.
pub open spec fn directory_files_of(
    tree: FileTree,
    root: Seq<char>,
    upto: int,
) -> Seq<(DirectoryFile, Seq<char>)>
    decreases upto,
{
    if upto <= 0 {
        Seq::<(DirectoryFile, Seq<char>)>::empty()
    } else {
        let before = directory_files_of(tree, root, upto - 1);
        match directory_file_at(tree.entries@[tree.walk_positions(root)[upto - 1]].path@) {
            Some(found) => before.push(found),
            None => before,
        }
    }
}

/// The found files by kind and directory.
pub open spec fn found_views(found: Seq<FoundFile>) -> Seq<(DirectoryFile, Seq<char>)> {
    found.map_values(|f: FoundFile| (f.kind, f.dir@))
}

/// Every `Directory.*` file that a walk of `root_dir` comes by.
pub fn find_all_directory_files(tree: &FileTree, root_dir: &str) -> (r: Vec<FoundFile>)
    ensures
        found_views(r@) == directory_files_of(
            *tree,
            root_dir@,
            tree.walk_positions(root_dir@).len() as int,
        ),
{
    let walk = tree.walk(root_dir);
    let ghost positions = tree.walk_positions(root_dir@);
    let mut out: Vec<FoundFile> = Vec::new();
    let mut i: usize = 0;
    assert(found_views(out@) =~= Seq::<(DirectoryFile, Seq<char>)>::empty());
    while i < walk.len()
        invariant
            i <= walk.len(),
            positions == tree.walk_positions(root_dir@),
            walk@.len() == positions.len(),
            forall|k: int| 0 <= k < walk@.len() ==> walk@[k] == positions[k],
            forall|k: int| 0 <= k < walk@.len() ==> (#[trigger] walk@[k]) < tree.entries@.len(),
            found_views(out@) == directory_files_of(*tree, root_dir@, i as int),
        decreases walk.len() - i,
    {
        assert(walk@[i as int] == positions[i as int]);
        match to_directory_file(tree.entries[walk[i]].path.as_str()) {
            Some(found) => {
                assert(found_views(out@.push(found)) =~= found_views(out@).push(
                    (found.kind, found.dir@),
                ));
                out.push(found);
            },
            None => {},
        }
        i = i + 1;
    }
    out
}

/// The directories from `dir` upwards, `dir` first, ending with
/// `root_dir` where that is one of them.
pub open spec fn parents_of(dir: Seq<char>, root: Seq<char>) -> Seq<Seq<char>>
    decreases dir.len(),
{
    if dir == root {
        seq![dir]
    } else {
        match parent_of(dir) {
            Some(up) => {
                proof {
                    lemma_parent_shorter(dir);
                }
                seq![dir] + parents_of(up, root)
            },
            None => seq![dir],
        }
    }
}

/// The directories from `dir` upwards, `dir` first, ending with the
/// root of the repository where that is one of them.
pub fn parents_until_root(dir: &str, root_dir: &PathInfo) -> (r: Vec<String>)
    ensures
        views(r@) == parents_of(dir@, root_dir.canonicalized@),
{
    let root = to_chars(root_dir.canonicalized.as_str());
    let mut parents: Vec<String> = Vec::new();
    let mut current = to_chars(dir);
    assert(views(parents@) =~= Seq::<Seq<char>>::empty());
    assert(Seq::<Seq<char>>::empty() + parents_of(dir@, root@) =~= parents_of(dir@, root@));
    loop
        invariant_except_break
            views(parents@) + parents_of(current@, root@) == parents_of(dir@, root@),
        invariant
            root@ == root_dir.canonicalized@,
        ensures
            views(parents@) == parents_of(dir@, root@),
        decreases current@.len(),
    {
        let ghost before = views(parents@);
        let owned = from_chars(&current);
        proof {
            lemma_views_push(parents@, owned);
        }
        parents.push(owned);
        if chars_eq(&current, &root) {
            assert(before + seq![current@] =~= before.push(current@));
            break ;
        }
        match parent(&current) {
            Some(up) => {
                proof {
                    lemma_parent_shorter(current@);
                    assert(before + (seq![current@] + parents_of(up@, root@)) =~= before.push(
                        current@,
                    ) + parents_of(up@, root@));
                }
                current = up;
            },
            None => {
                assert(before + seq![current@] =~= before.push(current@));
                break ;
            },
        }
    }
    parents
}

impl DotnetAnalyzer {
    /// The analyzer for the repository at `root`, where the XPath for
    /// project references compiles, with every `Directory.*` file that a
    /// walk of the root comes by.
    pub fn new(root: PathInfo, tree: &FileTree) -> (r: Result<DotnetAnalyzer, AnalyzerError>)
        ensures
            r is Ok <==> xpath_valid(reference_xpath()),
            r is Err ==> r->Err_0 == AnalyzerError::InvalidPattern,
            r is Ok ==> {
                &&& r->Ok_0.root == root
                &&& found_views(r->Ok_0.directory_files@) == directory_files_of(
                    *tree,
                    root.canonicalized@,
                    tree.walk_positions(root.canonicalized@).len() as int,
                )
            },
    {
        if !xpath_compiles(reference_expression()) {
            return Err(AnalyzerError::InvalidPattern);
        }
        let directory_files = find_all_directory_files(tree, root.canonicalized.as_str());
        Ok(DotnetAnalyzer { root, directory_files })
    }

    /// Whether the analyzer reads a file of this name, given in lower case.
    pub fn file_relevant(&self, file_name: &str) -> (r: bool)
        ensures
            r == has_suffix(file_name@, ".csproj"@),
    {
        ends_with(&to_chars(file_name), &to_chars(".csproj"))
    }

    /// The directories of the projects that the project file with the
    /// text `content` refers to, as far as they count. Fails where the
    /// text is not well-formed XML.
    pub fn extract_project_references(&self, content: &str, package_namespaces: &Vec<String>) -> (r:
        Result<Vec<String>, AnalyzerError>)
        ensures
            match project_references(content@, views(package_namespaces@)) {
                Some(dirs) => r is Ok && views(r->Ok_0@) == dirs,
                None => r == Err::<Vec<String>, AnalyzerError>(AnalyzerError::Parse),
            },
    {
        let includes = match xml_select(content, reference_expression()) {
            Some(Some(includes)) => includes,
            Some(None) => {
                let none: Vec<String> = Vec::new();
                assert(views(none@) =~= Seq::<Seq<char>>::empty());
                return Ok(none);
            },
            None => {
                return Err(AnalyzerError::Parse);
            },
        };
        let ghost all = views(includes@);
        let ghost namespaces = views(package_namespaces@);
        let mut out: Vec<String> = Vec::new();
        let mut i: usize = 0;
        assert(views(out@) =~= Seq::<Seq<char>>::empty());
        assert(all.take(0) =~= Seq::<Seq<char>>::empty());
        while i < includes.len()
            invariant
                i <= includes.len(),
                all == views(includes@),
                namespaces == views(package_namespaces@),
                views(out@) == project_dirs(all.take(i as int), namespaces),
            decreases includes.len() - i,
        {
            assert(all.take(i + 1).drop_last() =~= all.take(i as int));
            assert(all.take(i + 1).last() == includes@[i as int]@);
            match extract_project_dir(includes[i].as_str()) {
                Some(import) => {
                    if is_allowed(import.name.as_str(), package_namespaces) {
                        proof {
                            lemma_views_push(out@, import.service_dir);
                        }
                        out.push(import.service_dir);
                    }
                },
                None => {},
            }
            i = i + 1;
        }
        assert(all.take(includes.len() as int) =~= all);
        Ok(out)
    }

    /// Position of the first known file of kind `kind` in the directory `dir`.
    fn find_directory_file(&self, kind: DirectoryFile, dir: &str) -> (r: bool)
        ensures
            r == (found_at(found_views(self.directory_files@), kind, dir@, 0)
                < self.directory_files@.len()),
    {
        let wanted = to_chars(dir);
        let mut i: usize = 0;
        while i < self.directory_files.len()
            invariant
                i <= self.directory_files.len(),
                wanted@ == dir@,
                found_at(found_views(self.directory_files@), kind, dir@, i as int) == found_at(
                    found_views(self.directory_files@),
                    kind,
                    dir@,
                    0,
                ),
            decreases self.directory_files.len() - i,
        {
            assert(found_views(self.directory_files@)[i as int] == (
                self.directory_files@[i as int].kind,
                self.directory_files@[i as int].dir@,
            ));
            if self.directory_files[i].kind == kind {
                let own = to_chars(self.directory_files[i].dir.as_str());
                if chars_eq(&own, &wanted) {
                    return true;
                }
            }
            i = i + 1;
        }
        false
    }

    /// Appends the pattern for the nearest file of kind `kind` above
    /// `dir`, if there is one.
    fn collect_directory_file(
        &self,
        kind: DirectoryFile,
        dir: &str,
        parents: &Vec<String>,
        collected: &mut Vec<DepPattern>,
    ) -> (r: Result<(), AnalyzerError>)
        requires
            is_absolute(dir@),
            views(parents@) == parents_of(dir@, self.root.canonicalized@),
        ensures
            match directory_pattern(
                found_views(self.directory_files@),
                kind,
                dir@,
                self.root.canonicalized@,
            ) {
                Ok(found) => r is Ok && pattern_views(final(collected)@) == pattern_views(
                    old(collected)@,
                ) + found,
                Err(e) => r == Err::<(), AnalyzerError>(e),
            },
    {
        let ghost root = self.root.canonicalized@;
        let ghost files = found_views(self.directory_files@);
        let ghost before = pattern_views(collected@);
        let mut i: usize = 0;
        let ghost mut current = dir@;
        while i < parents.len()
            invariant
                i <= parents.len(),
                is_absolute(dir@),
                is_absolute(current),
                root == self.root.canonicalized@,
                files == found_views(self.directory_files@),
                before == pattern_views(collected@),
                collected@ == old(collected)@,
                views(parents@).skip(i as int) == parents_of(current, root) || (i
                    == parents.len()),
                i < parents.len() ==> nearest_with(files, kind, current, root) == nearest_with(
                    files,
                    kind,
                    dir@,
                    root,
                ),
                i == parents.len() ==> nearest_with(files, kind, dir@, root) is None,
            decreases parents.len() - i,
        {
            let parent_dir = parents[i].as_str();
            assert(views(parents@).skip(i as int)[0] == parents@[i as int]@);
            assert(parent_dir@ == current);
            if self.find_directory_file(kind, parent_dir) {
                let path = from_chars(
                    &join(&to_chars(parent_dir), &to_chars(kind.filename())),
                );
                assert(is_absolute(path@));
                assert(joined(dir@, path@) == path@);
                match DepPattern::new(path.as_str(), dir) {
                    Ok(pattern) => {
                        proof {
                            lemma_pattern_views_push(collected@, pattern);
                            assert(pattern@ == compiled_view(path@, dir@));
                        }
                        collected.push(pattern);
                        assert(pattern_views(collected@) =~= before + seq![
                            compiled_view(path@, dir@),
                        ]);
                        return Ok(());
                    },
                    Err(_) => {
                        return Err(AnalyzerError::InvalidPattern);
                    },
                }
            }
            proof {
                let rest = views(parents@).skip(i as int);
                if current == root {
                    assert(rest.len() == 1);
                    assert(i + 1 == parents.len());
                } else {
                    match parent_of(current) {
                        Some(up) => {
                            lemma_parent_absolute(current);
                            lemma_parent_shorter(current);
                            assert(views(parents@).skip(i + 1) =~= rest.skip(1));
                            assert(rest.skip(1) =~= parents_of(up, root));
                            lemma_parents_nonempty(up, root);
                            current = up;
                        },
                        None => {
                            assert(rest.len() == 1);
                            assert(i + 1 == parents.len());
                        },
                    }
                }
            }
            i = i + 1;
        }
        assert(before + Seq::<PatternView>::empty() =~= before);
        Ok(())
    }

    /// The patterns for the `Directory.*` files that apply to the
    /// service in `dir`: of each kind the nearest above `dir`, looking no
    /// higher than the root of the repository.
    pub fn collect_directory_file_dependencies(&self, dir: &str) -> (r: Result<
        Vec<DepPattern>,
        AnalyzerError,
    >)
        requires
            is_absolute(dir@),
        ensures
            is_outcome(
                r,
                directory_patterns(
                    found_views(self.directory_files@),
                    dir@,
                    self.root.canonicalized@,
                ),
            ),
    {
        let mut collected: Vec<DepPattern> = Vec::new();
        assert(pattern_views(collected@) =~= Seq::<PatternView>::empty());
        let parents = parents_until_root(dir, &self.root);
        match self.collect_directory_file(
            DirectoryFile::BuildProps,
            dir,
            &parents,
            &mut collected,
        ) {
            Ok(()) => {},
            Err(e) => {
                return Err(e);
            },
        }
        match self.collect_directory_file(
            DirectoryFile::BuildTargets,
            dir,
            &parents,
            &mut collected,
        ) {
            Ok(()) => {},
            Err(e) => {
                return Err(e);
            },
        }
        match self.collect_directory_file(
            DirectoryFile::PackagesProps,
            dir,
            &parents,
            &mut collected,
        ) {
            Ok(()) => {},
            Err(e) => {
                return Err(e);
            },
        }
        proof {
            let files = found_views(self.directory_files@);
            let root = self.root.canonicalized@;
            let a = directory_pattern(files, DirectoryFile::BuildProps, dir@, root)->Ok_0;
            let b = directory_pattern(files, DirectoryFile::BuildTargets, dir@, root)->Ok_0;
            let c = directory_pattern(files, DirectoryFile::PackagesProps, dir@, root)->Ok_0;
            assert(pattern_views(collected@) =~= a + b + c);
        }
        Ok(collected)
    }

    /// The dependencies that the project files `files` of the service in
    /// `dir` show: a pattern for the directory of each project that one
    /// of them refers to, as far as it counts by the configured
    /// namespaces, and the `Directory.*` files that apply to the service.
    /// Fails where a project file cannot be read or is not well-formed.
    pub fn dependencies(&self, tree: &FileTree, files: &Vec<usize>, dir: &str, opts: &Opts) -> (r:
        Result<Vec<DepPattern>, AnalyzerError>)
        requires
            is_absolute(dir@),
            forall|k: int|
                0 <= k < files@.len() ==> (#[trigger] files@[k]) < tree.entries@.len()
                    && is_absolute(tree.entries@[files@[k] as int].path@),
        ensures
            is_outcome(
                r,
                dotnet_references(
                    *tree,
                    files@,
                    views(opts.config.auto_discovery.dotnet.package_namespaces@),
                    found_views(self.directory_files@),
                    dir@,
                    self.root.canonicalized@,
                ),
            ),
    {
        let ghost namespaces = views(opts.config.auto_discovery.dotnet.package_namespaces@);
        let mut collected_imports: Vec<DepPattern> = Vec::new();
        let mut f: usize = 0;
        assert(pattern_views(collected_imports@) =~= Seq::<PatternView>::empty());
        while f < files.len()
            invariant
                f <= files.len(),
                namespaces == views(opts.config.auto_discovery.dotnet.package_namespaces@),
                forall|k: int|
                    0 <= k < files@.len() ==> (#[trigger] files@[k]) < tree.entries@.len()
                        && is_absolute(tree.entries@[files@[k] as int].path@),
                csprojs_of(*tree, files@, namespaces, f as int) == Ok::<
                    Seq<PatternView>,
                    AnalyzerError,
                >(pattern_views(collected_imports@)),
            decreases files.len() - f,
        {
            let entry = &tree.entries[files[f]];
            let ghost before = pattern_views(collected_imports@);
            let file_content = match &entry.content {
                Some(content) => content,
                None => {
                    proof {
                        lemma_failure_stays(*tree, files@, namespaces, f + 1, files@.len() as int);
                    }
                    return Err(AnalyzerError::Unreadable);
                },
            };
            let chars = to_chars(file_content.as_str());
            let bom_stripped = if chars.len() > 0 && chars[0] == '\u{feff}' {
                assert(chars@.subrange(0, 1) =~= bom());
                assert(chars@.subrange(1, chars.len() as int) =~= chars@.skip(1));
                from_chars(&slice(&chars, 1, chars.len()))
            } else {
                proof {
                    if has_prefix(chars@, bom()) {
                        assert(chars@.subrange(0, 1)[0] == '\u{feff}');
                    }
                }
                from_chars(&chars)
            };
            let imports = match self.extract_project_references(
                bom_stripped.as_str(),
                &opts.config.auto_discovery.dotnet.package_namespaces,
            ) {
                Ok(imports) => imports,
                Err(e) => {
                    proof {
                        lemma_failure_stays(*tree, files@, namespaces, f + 1, files@.len() as int);
                    }
                    return Err(e);
                },
            };
            match parent(&to_chars(entry.path.as_str())) {
                Some(project_dir) => {
                    let project_dir = from_chars(&project_dir);
                    proof {
                        lemma_parent_absolute(entry.path@);
                    }
                    let patterns = compile_all(&imports, project_dir.as_str());
                    proof {
                        lemma_compiled_views(patterns@, views(imports@), project_dir@);
                    }
                    append_patterns(&mut collected_imports, &patterns);
                },
                None => {
                    assert(before + Seq::<PatternView>::empty() =~= before);
                },
            }
            f = f + 1;
        }
        let shared = match self.collect_directory_file_dependencies(dir) {
            Ok(shared) => shared,
            Err(e) => {
                return Err(e);
            },
        };
        append_patterns(&mut collected_imports, &shared);
        Ok(collected_imports)
    }
}

/// The directories from a directory upwards are at least one.
pub proof fn lemma_parents_nonempty(dir: Seq<char>, root: Seq<char>)
    ensures
        parents_of(dir, root).len() >= 1,
        parents_of(dir, root)[0] == dir,
{
    if dir != root {
        match parent_of(dir) {
            Some(up) => {
                lemma_parent_shorter(dir);
            },
            None => {},
        }
    }
}

} // verus!
