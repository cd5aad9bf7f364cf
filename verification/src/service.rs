//! Services: the units of a repository that are built on their own, the
//! reason for which one must be built, and how they are discovered.

use crate::cli::Opts;
use crate::config::{DepPattern, Depsfile, DepsfileType, Language};
use crate::files::FileTree;
use crate::path::{
    cleaned, extension, extension_of, file_name, file_name_of, is_absolute, lemma_parent_absolute,
    parent, parent_of, PathInfo, PathView,
};
use crate::text::{from_chars, str_eq, to_chars};
use crate::utils::{lemma_views_push, views};
use vstd::prelude::*;
use vstd::string::StringExecFns;

pub mod dotnet;
pub mod finder;
pub mod flutter;
pub mod go;
pub mod javascript;
pub mod justfile;
pub mod kustomize;
pub mod makefile;
pub mod proto;

verus! {

/// Why an analyzer gave up on a service.
#[derive(Debug, Clone, Copy, PartialEq, Eq, Structural)]
pub enum AnalyzerError {
    /// A file that had to be read could not be read as text.
    Unreadable,
    /// A path has no directory above it.
    NoParent,
    /// A file does not hold a well-formed document.
    Parse,
    /// Kustomizations refer to one another in a cycle.
    Cycle,
    /// A file that had to be read is not there.
    NotFound,
    /// A path does not compile as a pattern.
    InvalidPattern,
}

impl AnalyzerError {
    /// What went wrong, in words.
    pub open spec fn text(self) -> Seq<char> {
        match self {
            AnalyzerError::Unreadable => "cannot read file"@,
            AnalyzerError::NoParent => "cannot determine parent directory"@,
            AnalyzerError::Parse => "malformed document"@,
            AnalyzerError::Cycle => "cyclic dependency in kustomization"@,
            AnalyzerError::NotFound => "cannot find file"@,
            AnalyzerError::InvalidPattern => "invalid dependency pattern"@,
        }
    }

    /// What went wrong, in words.
    pub fn describe(&self) -> (r: &'static str)
        ensures
            r@ == self.text(),
    {
        match self {
            AnalyzerError::Unreadable => "cannot read file",
            AnalyzerError::NoParent => "cannot determine parent directory",
            AnalyzerError::Parse => "malformed document",
            AnalyzerError::Cycle => "cyclic dependency in kustomization",
            AnalyzerError::NotFound => "cannot find file",
            AnalyzerError::InvalidPattern => "invalid dependency pattern",
        }
    }
}

/// Why a service must be built.
#[derive(Debug, Clone, PartialEq)]
pub enum BuildTrigger {
    /// A file of the service itself has changed.
    FileChange,
    /// A changed file, given as written, is one of the service's
    /// dependencies; the flag tells a discovered dependency from a declared one.
    Dependency(String, bool),
    /// A service that must be built, given by its path as written, is one
    /// of the service's dependencies.
    PeerDependency(String, bool),
    /// A changed file is a dependency of the whole repository.
    GlobalDependency,
}

/// What a `BuildTrigger` says, with the path as a sequence of characters.
pub enum Cause {
    FileChange,
    Dependency(Seq<char>, bool),
    PeerDependency(Seq<char>, bool),
    GlobalDependency,
}

impl View for BuildTrigger {
    type V = Cause;

    open spec fn view(&self) -> Cause {
        match self {
            BuildTrigger::FileChange => Cause::FileChange,
            BuildTrigger::Dependency(source, auto) => Cause::Dependency(source@, *auto),
            BuildTrigger::PeerDependency(source, auto) => Cause::PeerDependency(source@, *auto),
            BuildTrigger::GlobalDependency => Cause::GlobalDependency,
        }
    }
}

/// What an optional trigger says.
pub open spec fn cause_of(trigger: Option<BuildTrigger>) -> Option<Cause> {
    match trigger {
        Some(t) => Some(t@),
        None => None,
    }
}

impl Cause {
    /// The cause as shown to the user.
    pub open spec fn text(self) -> Seq<char> {
        match self {
            Cause::FileChange => "FileChange"@,
            Cause::Dependency(source, auto) => if auto {
                "Auto-Dependency("@ + source + ")"@
            } else {
                "Dependency("@ + source + ")"@
            },
            Cause::PeerDependency(source, auto) => if auto {
                "Auto-Peer-Dependency("@ + source + ")"@
            } else {
                "Peer-Dependency("@ + source + ")"@
            },
            Cause::GlobalDependency => "Global"@,
        }
    }
}

/// `prefix`, `middle` and a closing bracket.
fn bracketed(prefix: &str, middle: &str) -> (r: String)
    ensures
        r@ == prefix@ + middle@ + ")"@,
{
    let mut out = String::from_str(prefix);
    out.append(middle);
    out.append(")");
    out
}

impl BuildTrigger {
    /// A copy of this trigger.
    pub fn duplicate(&self) -> (r: BuildTrigger)
        ensures
            r@ == self@,
    {
        match self {
            BuildTrigger::FileChange => BuildTrigger::FileChange,
            BuildTrigger::Dependency(source, auto) => BuildTrigger::Dependency(
                source.clone(),
                *auto,
            ),
            BuildTrigger::PeerDependency(source, auto) => BuildTrigger::PeerDependency(
                source.clone(),
                *auto,
            ),
            BuildTrigger::GlobalDependency => BuildTrigger::GlobalDependency,
        }
    }

    /// The trigger as shown to the user.
    pub fn to_text(&self) -> (r: String)
        ensures
            r@ == self@.text(),
    {
        match self {
            BuildTrigger::FileChange => String::from_str("FileChange"),
            BuildTrigger::Dependency(source, auto) => if *auto {
                bracketed("Auto-Dependency(", source.as_str())
            } else {
                bracketed("Dependency(", source.as_str())
            },
            BuildTrigger::PeerDependency(source, auto) => if *auto {
                bracketed("Auto-Peer-Dependency(", source.as_str())
            } else {
                bracketed("Peer-Dependency(", source.as_str())
            },
            BuildTrigger::GlobalDependency => String::from_str("Global"),
        }
    }
}

/// A dependency that an analyzer found in the sources of a service.
#[derive(Debug)]
pub struct AutoDependency {
    pub language: Language,
    pub pattern: DepPattern,
}

/// A directory with a marker file: the unit that is built.
#[derive(Debug)]
pub struct Service {
    /// The directory of the service.
    pub path: PathInfo,
    /// What the marker file declares.
    pub depsfile: Depsfile,
    /// What the analyzers found.
    pub auto_dependencies: Vec<AutoDependency>,
    /// Why the service must be built, once that is known.
    pub trigger: Option<BuildTrigger>,
}

/// A discovered dependency as shown to the user: the pattern, and the
/// language in square brackets.
pub open spec fn auto_text(dependency: AutoDependency) -> Seq<char> {
    dependency.pattern@.text() + " ["@ + dependency.language.label_of() + "]"@
}

/// The first `upto` of `items`, each in single quotes, with commas between them.
pub open spec fn quoted_list(items: Seq<Seq<char>>, upto: int) -> Seq<char>
    decreases upto,
{
    if upto <= 0 {
        Seq::<char>::empty()
    } else if upto == 1 {
        "'"@ + items[0] + "'"@
    } else {
        quoted_list(items, upto - 1) + ","@ + "'"@ + items[upto - 1] + "'"@
    }
}

/// A service as shown in diagnostics: its canonical path, its declared
/// dependencies and its discovered dependencies.
pub open spec fn service_text(service: Service) -> Seq<char> {
    let declared = service.depsfile.dependencies@.map_values(|p: DepPattern| p@.text());
    let discovered = service.auto_dependencies@.map_values(|d: AutoDependency| auto_text(d));
    "Service{'"@ + service.path.canonicalized@ + "',dependencies:["@ + quoted_list(
        declared,
        declared.len() as int,
    ) + "],auto_dependencies:["@ + quoted_list(discovered, discovered.len() as int) + "]}"@
}

/// Appends the items to `out`, each in single quotes, with commas between them.
fn append_quoted(out: &mut String, items: &Vec<String>)
    ensures
        final(out)@ == old(out)@ + quoted_list(views(items@), items@.len() as int),
{
    let ghost before = out@;
    let ghost all = views(items@);
    let mut i: usize = 0;
    assert(before + quoted_list(all, 0) =~= before);
    while i < items.len()
        invariant
            i <= items.len(),
            all == views(items@),
            out@ == before + quoted_list(all, i as int),
        decreases items.len() - i,
    {
        let ghost so_far = quoted_list(all, i as int);
        assert(all[i as int] == items@[i as int]@);
        if i > 0 {
            out.append(",");
        }
        out.append("'");
        out.append(items[i].as_str());
        out.append("'");
        proof {
            if i == 0 {
                assert(so_far =~= Seq::<char>::empty());
                assert(out@ =~= before + ("'"@ + all[0] + "'"@));
            } else {
                assert(out@ =~= before + (so_far + ","@ + "'"@ + all[i as int] + "'"@));
            }
        }
        i = i + 1;
    }
}

impl AutoDependency {
    /// The dependency as shown to the user: the pattern, and the
    /// language in square brackets.
    pub fn to_text(&self) -> (r: String)
        ensures
            r@ == auto_text(*self),
    {
        let mut out = self.pattern.to_text();
        out.append(" [");
        out.append(self.language.label());
        out.append("]");
        out
    }
}

impl Service {
    /// The service as shown in diagnostics.
    pub fn to_text(&self) -> (r: String)
        ensures
            r@ == service_text(*self),
    {
        let mut declared: Vec<String> = Vec::new();
        let ghost wanted = self.depsfile.dependencies@.map_values(|p: DepPattern| p@.text());
        let mut i: usize = 0;
        assert(views(declared@) =~= wanted.take(0));
        while i < self.depsfile.dependencies.len()
            invariant
                i <= self.depsfile.dependencies.len(),
                wanted == self.depsfile.dependencies@.map_values(|p: DepPattern| p@.text()),
                views(declared@) == wanted.take(i as int),
            decreases self.depsfile.dependencies.len() - i,
        {
            let text = self.depsfile.dependencies[i].to_text();
            proof {
                lemma_views_push(declared@, text);
                assert(wanted.take(i + 1) =~= wanted.take(i as int).push(text@));
            }
            declared.push(text);
            i = i + 1;
        }
        assert(wanted.take(wanted.len() as int) =~= wanted);
        let mut discovered: Vec<String> = Vec::new();
        let ghost found = self.auto_dependencies@.map_values(|d: AutoDependency| auto_text(d));
        let mut k: usize = 0;
        assert(views(discovered@) =~= found.take(0));
        while k < self.auto_dependencies.len()
            invariant
                k <= self.auto_dependencies.len(),
                found == self.auto_dependencies@.map_values(|d: AutoDependency| auto_text(d)),
                views(discovered@) == found.take(k as int),
            decreases self.auto_dependencies.len() - k,
        {
            let text = self.auto_dependencies[k].to_text();
            proof {
                lemma_views_push(discovered@, text);
                assert(found.take(k + 1) =~= found.take(k as int).push(text@));
            }
            discovered.push(text);
            k = k + 1;
        }
        assert(found.take(found.len() as int) =~= found);
        let mut out = String::from_str("Service{'");
        out.append(self.path.canonicalized.as_str());
        out.append("',dependencies:[");
        append_quoted(&mut out, &declared);
        out.append("],auto_dependencies:[");
        append_quoted(&mut out, &discovered);
        out.append("]}");
        out
    }

    /// Whether a reason to build the service is known.
    pub fn has_trigger(&self) -> (r: bool)
        ensures
            r == self.trigger is Some,
    {
        self.trigger.is_some()
    }

    /// Records `trigger` as the reason to build the service, unless one
    /// is recorded already: the first cause stays.
    pub fn trigger(&mut self, trigger: BuildTrigger)
        ensures
            final(self).path == old(self).path,
            final(self).depsfile == old(self).depsfile,
            final(self).auto_dependencies == old(self).auto_dependencies,
            final(self).trigger == (if old(self).trigger is Some {
                old(self).trigger
            } else {
                Some(trigger)
            }),
    {
        if self.trigger.is_none() {
            self.trigger = Some(trigger);
        }
    }
}

/// What `str::to_lowercase` makes of `text`: each character in lower
/// case as Unicode defines it.
pub uninterp spec fn lowered(text: Seq<char>) -> Seq<char>;

/// Calls `str::to_lowercase`.
#[verifier::external_body]
pub(crate) fn lowercase(text: &str) -> (r: String)
    ensures
        r@ == lowered(text@),
{
    text.to_lowercase()
}

/// The kind of marker that a file of this name is.
pub open spec fn marker_named(filename: Seq<char>) -> Option<DepsfileType> {
    if filename == "Depsfile"@ {
        Some(DepsfileType::Depsfile)
    } else if filename == "Buildfile.yaml"@ {
        Some(DepsfileType::Buildfile)
    } else if filename == "justfile"@ {
        Some(DepsfileType::Justfile)
    } else if filename == "Makefile"@ {
        Some(DepsfileType::Makefile)
    } else {
        None
    }
}

/// Whether markers of kind `kind` declare a service root.
pub open spec fn supported(opts: Opts, kind: DepsfileType) -> bool {
    kind == DepsfileType::Depsfile || opts.supported_roots@.contains(kind)
}

/// The kind of marker that a file of this name is, where that kind
/// declares a service root.
pub open spec fn marker_of(filename: Seq<char>, opts: Opts) -> Option<DepsfileType> {
    match marker_named(filename) {
        Some(kind) => if supported(opts, kind) {
            Some(kind)
        } else {
            None
        },
        None => None,
    }
}

/// The kind of marker that a file of this name is, where that kind
/// declares a service root.
pub fn map_depsfile(filename: &str, opts: &Opts) -> (r: Option<DepsfileType>)
    ensures
        r == marker_of(filename@, *opts),
{
    let filetype = if str_eq(filename, "Depsfile") {
        Some(DepsfileType::Depsfile)
    } else if str_eq(filename, "Buildfile.yaml") {
        Some(DepsfileType::Buildfile)
    } else if str_eq(filename, "justfile") {
        Some(DepsfileType::Justfile)
    } else if str_eq(filename, "Makefile") {
        Some(DepsfileType::Makefile)
    } else {
        None
    };
    match filetype {
        Some(kind) => if opts.is_supported(&kind) {
            Some(kind)
        } else {
            None
        },
        None => None,
    }
}

/// A marker file that was found: its kind, where it stands, and the
/// directory of the service that it declares.
#[derive(Debug)]
pub struct ServiceContext<'a> {
    pub filetype: DepsfileType,
    pub depsfile_location: PathInfo,
    pub service_location: PathInfo,
    pub root_dir: &'a str,
}

/// A `ServiceContext` with its texts as sequences of characters.
pub struct ContextView {
    pub filetype: DepsfileType,
    pub depsfile: PathView,
    pub service: PathView,
}

impl<'a> View for ServiceContext<'a> {
    type V = ContextView;

    open spec fn view(&self) -> ContextView {
        ContextView {
            filetype: self.filetype,
            depsfile: self.depsfile_location@,
            service: self.service_location@,
        }
    }
}

/// The marker that stands at the absolute `path`: a file whose name is
/// that of a kind of marker that declares a service root, with the
/// directory above it as the directory of the service.
pub open spec fn context_at(tree: FileTree, opts: Opts, path: Seq<char>) -> Option<ContextView> {
    match (marker_of(file_name_of(path), opts), parent_of(path)) {
        (Some(kind), Some(dir)) => if tree.has_file(cleaned(path)) {
            Some(
                ContextView {
                    filetype: kind,
                    depsfile: PathView { display: path, canonical: cleaned(path) },
                    service: PathView { display: dir, canonical: cleaned(dir) },
                },
            )
        } else {
            None
        },
        _ => None,
    }
}

/// What is kept of two markers of one directory: the first where it is
/// a Depsfile or the second is of a kind that declares no service root;
/// otherwise the second, where the first is of such a kind or comes
/// after the second in the order of precedence; otherwise the first.
pub open spec fn merged_context(
    first: ContextView,
    second: ContextView,
    opts: Opts,
) -> ContextView {
    if first.filetype == DepsfileType::Depsfile || !supported(opts, second.filetype) {
        first
    } else if !supported(opts, first.filetype) || first.filetype.rank_of()
        > second.filetype.rank_of() {
        second
    } else {
        first
    }
}

impl<'a> ServiceContext<'a> {
    /// The marker that stands at the absolute `path`, if there is one.
    pub fn from_depsfile(tree: &FileTree, path: &str, root_dir: &'a str, opts: &Opts) -> (r: Option<
        ServiceContext<'a>,
    >)
        requires
            is_absolute(path@),
        ensures
            r is Some == context_at(*tree, *opts, path@) is Some,
            r is Some ==> r->0@ == context_at(*tree, *opts, path@)->0 && r->0.root_dir@
                == root_dir@ && is_absolute(r->0.service_location.canonicalized@),
    {
        let chars = to_chars(path);
        let name = from_chars(&file_name(&chars));
        let filetype = match map_depsfile(name.as_str(), opts) {
            Some(kind) => kind,
            None => {
                return None;
            },
        };
        let depsfile_location = PathInfo::locate(path, root_dir);
        if !tree.is_file(depsfile_location.canonicalized.as_str()) {
            return None;
        }
        let dir = match parent(&chars) {
            Some(dir) => from_chars(&dir),
            None => {
                return None;
            },
        };
        proof {
            lemma_parent_absolute(path@);
        }
        let service_location = PathInfo::locate(dir.as_str(), root_dir);
        Some(ServiceContext { filetype, depsfile_location, service_location, root_dir })
    }

    /// Takes over the marker `other` of the same directory where that
    /// one takes precedence: a Depsfile is never replaced, a marker of a
    /// kind that declares no service root never replaces, and otherwise
    /// the kind of lower rank stays.
    pub fn merge(&mut self, other: ServiceContext, opts: &Opts)
        ensures
            final(self)@ == merged_context(old(self)@, other@, *opts),
            final(self).root_dir == old(self).root_dir,
            final(self).service_location == old(self).service_location
                || final(self).service_location == other.service_location,
    {
        if self.filetype == DepsfileType::Depsfile || !opts.is_supported(&other.filetype) {
            return ;
        }
        if !opts.is_supported(&self.filetype) || other.filetype.precedes(&self.filetype) {
            self.depsfile_location = other.depsfile_location;
            self.service_location = other.service_location;
            self.filetype = other.filetype;
        }
    }
}

/// How strongly an entry speaks for a language.
#[derive(Debug)]
pub struct LanguageMatch {
    pub language: Language,
    pub score: i32,
}

/// The language that a file name speaks for, by its extension: `.cs` 1
/// and `.csproj` 5 for .NET, `.go` 1 for Go, `.dart` 1 for Flutter,
/// `.proto` 3 for Protobuf, `.just` 3 for justfiles, `.js`, `.jsx`,
/// `.tsx` and `.ts` 1 for JavaScript.
pub open spec fn vote_by_extension(ext: Seq<char>) -> Option<(Language, int)> {
    if ext == "cs"@ {
        Some((Language::Dotnet, 1))
    } else if ext == "csproj"@ {
        Some((Language::Dotnet, 5))
    } else if ext == "go"@ {
        Some((Language::Golang, 1))
    } else if ext == "dart"@ {
        Some((Language::Flutter, 1))
    } else if ext == "proto"@ {
        Some((Language::Protobuf, 3))
    } else if ext == "just"@ {
        Some((Language::Justfile, 3))
    } else if ext == "js"@ || ext == "jsx"@ || ext == "tsx"@ || ext == "ts"@ {
        Some((Language::JavaScript, 1))
    } else {
        None
    }
}

/// The language that a file name speaks for as a whole, each with 5:
/// `pubspec.yaml` and `pubspec.lock` for Flutter, `go.mod` and `go.sum`
/// for Go, `kustomization.yaml` and `kustomization.yml` for Kustomize,
/// `package.json` for JavaScript, `justfile` for justfiles.
pub open spec fn vote_by_name(name: Seq<char>) -> Option<(Language, int)> {
    if name == "pubspec.yaml"@ || name == "pubspec.lock"@ {
        Some((Language::Flutter, 5))
    } else if name == "go.mod"@ || name == "go.sum"@ {
        Some((Language::Golang, 5))
    } else if name == "kustomization.yaml"@ || name == "kustomization.yml"@ {
        Some((Language::Kustomize, 5))
    } else if name == "package.json"@ {
        Some((Language::JavaScript, 5))
    } else if name == "justfile"@ {
        Some((Language::Justfile, 5))
    } else {
        None
    }
}

/// The language that the entry at `path` speaks for, and how strongly:
/// by its extension where that is a known one, else by its name.
pub open spec fn language_vote(path: Seq<char>) -> Option<(Language, int)> {
    let name = file_name_of(path);
    let by_extension = match extension_of(name) {
        Some(ext) => vote_by_extension(ext),
        None => None,
    };
    match by_extension {
        Some(vote) => Some(vote),
        None => vote_by_name(name),
    }
}

/// A match of `language` with `score`.
fn vote(language: Language, score: i32) -> (r: Option<LanguageMatch>)
    ensures
        r is Some,
        r->0.language == language,
        r->0.score == score,
{
    Some(LanguageMatch { language, score })
}

/// The language that the entry at `path` speaks for, and how strongly.
pub fn try_determine_language(path: &str) -> (r: Option<LanguageMatch>)
    ensures
        r is Some == language_vote(path@) is Some,
        r is Some ==> (r->0.language, r->0.score as int) == language_vote(path@)->0,
        r is Some ==> 1 <= r->0.score <= 5,
{
    let name = file_name(&to_chars(path));
    match extension(&name) {
        Some(ext) => {
            let ext = from_chars(&ext);
            let e = ext.as_str();
            if str_eq(e, "cs") {
                return vote(Language::Dotnet, 1);
            } else if str_eq(e, "csproj") {
                return vote(Language::Dotnet, 5);
            } else if str_eq(e, "go") {
                return vote(Language::Golang, 1);
            } else if str_eq(e, "dart") {
                return vote(Language::Flutter, 1);
            } else if str_eq(e, "proto") {
                return vote(Language::Protobuf, 3);
            } else if str_eq(e, "just") {
                return vote(Language::Justfile, 3);
            } else if str_eq(e, "js") || str_eq(e, "jsx") || str_eq(e, "tsx") || str_eq(e, "ts") {
                return vote(Language::JavaScript, 1);
            }
        },
        None => {},
    }
    let name = from_chars(&name);
    let n = name.as_str();
    if str_eq(n, "pubspec.yaml") || str_eq(n, "pubspec.lock") {
        vote(Language::Flutter, 5)
    } else if str_eq(n, "go.mod") || str_eq(n, "go.sum") {
        vote(Language::Golang, 5)
    } else if str_eq(n, "kustomization.yaml") || str_eq(n, "kustomization.yml") {
        vote(Language::Kustomize, 5)
    } else if str_eq(n, "package.json") {
        vote(Language::JavaScript, 5)
    } else if str_eq(n, "justfile") {
        vote(Language::Justfile, 5)
    } else {
        None
    }
}

/// The languages, in the order in which they are reported.
pub open spec fn all_languages() -> Seq<Language> {
    seq![
        Language::Golang,
        Language::Dotnet,
        Language::Flutter,
        Language::Kustomize,
        Language::JavaScript,
        Language::Protobuf,
        Language::Justfile,
    ]
}

/// The least sum of votes that makes a language one of a service.
pub const LANGUAGE_THRESHOLD: i32 = 3;

/// The sum of the votes for `language` among the first `upto` entries
/// that a walk of `dir` comes by.
pub open spec fn score_of(tree: FileTree, dir: Seq<char>, language: Language, upto: int) -> int
    decreases upto,
{
    if upto <= 0 {
        0
    } else {
        let before = score_of(tree, dir, language, upto - 1);
        match language_vote(tree.entries@[tree.walk_positions(dir)[upto - 1]].path@) {
            Some((spoken, score)) => if spoken == language {
                before + score
            } else {
                before
            },
            None => before,
        }
    }
}

/// Whether the entries of the service in `dir` speak for `language`:
/// the sum of their votes reaches the threshold.
pub open spec fn speaks(tree: FileTree, dir: Seq<char>, language: Language) -> bool {
    score_of(tree, dir, language, tree.walk_positions(dir).len() as int) >= LANGUAGE_THRESHOLD
}

/// The languages among the first `upto` of all languages that the
/// entries of the service in `dir` speak for, in order.
pub open spec fn inferred(tree: FileTree, dir: Seq<char>, upto: int) -> Seq<Language>
    decreases upto,
{
    if upto <= 0 {
        Seq::<Language>::empty()
    } else if speaks(tree, dir, all_languages()[upto - 1]) {
        inferred(tree, dir, upto - 1).push(all_languages()[upto - 1])
    } else {
        inferred(tree, dir, upto - 1)
    }
}

/// The languages of a service: those that its marker declares, or,
/// where it declares none, those that its entries speak for.
pub open spec fn languages_of(
    declared: Seq<Language>,
    tree: FileTree,
    dir: Seq<char>,
) -> Seq<Language> {
    if declared.len() > 0 {
        declared
    } else {
        inferred(tree, dir, 7)
    }
}

/// A sum of votes is never negative.
proof fn lemma_score_nonnegative(tree: FileTree, dir: Seq<char>, language: Language, upto: int)
    ensures
        score_of(tree, dir, language, upto) >= 0,
    decreases upto,
{
    if upto > 0 {
        lemma_score_nonnegative(tree, dir, language, upto - 1);
    }
}

/// Whether the entries of the service in `dir` speak for `language`.
fn speaks_for(tree: &FileTree, walk: &Vec<usize>, dir: &str, language: Language) -> (r: bool)
    requires
        walk@.len() == tree.walk_positions(dir@).len(),
        forall|k: int| 0 <= k < walk@.len() ==> walk@[k] == tree.walk_positions(dir@)[k],
        forall|k: int| 0 <= k < walk@.len() ==> (#[trigger] walk@[k]) < tree.entries@.len(),
    ensures
        r == speaks(*tree, dir@, language),
{
    let mut total: i32 = 0;
    let mut i: usize = 0;
    while i < walk.len()
        invariant
            i <= walk.len(),
            walk@.len() == tree.walk_positions(dir@).len(),
            forall|k: int| 0 <= k < walk@.len() ==> walk@[k] == tree.walk_positions(dir@)[k],
            forall|k: int| 0 <= k < walk@.len() ==> (#[trigger] walk@[k]) < tree.entries@.len(),
            0 <= total <= 8,
            total < LANGUAGE_THRESHOLD ==> total == score_of(*tree, dir@, language, i as int),
            total >= LANGUAGE_THRESHOLD ==> score_of(*tree, dir@, language, i as int)
                >= LANGUAGE_THRESHOLD,
        decreases walk.len() - i,
    {
        assert(walk@[i as int] == tree.walk_positions(dir@)[i as int]);
        proof {
            lemma_score_nonnegative(*tree, dir@, language, i as int);
        }
        match try_determine_language(tree.entries[walk[i]].path.as_str()) {
            Some(found) => {
                if found.language == language && total < LANGUAGE_THRESHOLD {
                    total = total + found.score;
                }
            },
            None => {},
        }
        i = i + 1;
    }
    total >= LANGUAGE_THRESHOLD
}

/// The languages of a service: where the marker declares none, those
/// that the entries of the service speak for.
pub fn auto_discover_languages(
    depsfile: Depsfile,
    path: &PathInfo,
    tree: &FileTree,
) -> (r: Depsfile)
    ensures
        r.dependencies == depsfile.dependencies,
        r.languages@ == languages_of(depsfile.languages@, *tree, path.canonicalized@),
{
    if depsfile.languages.len() > 0 {
        return depsfile;
    }
    let dir = path.canonicalized.as_str();
    let walk = tree.walk(dir);
    let all: Vec<Language> = vec![
        Language::Golang,
        Language::Dotnet,
        Language::Flutter,
        Language::Kustomize,
        Language::JavaScript,
        Language::Protobuf,
        Language::Justfile,
    ];
    assert(all@ =~= all_languages());
    let mut languages: Vec<Language> = Vec::new();
    let mut i: usize = 0;
    while i < all.len()
        invariant
            i <= all.len(),
            all@ == all_languages(),
            dir@ == path.canonicalized@,
            walk@.len() == tree.walk_positions(dir@).len(),
            forall|k: int| 0 <= k < walk@.len() ==> walk@[k] == tree.walk_positions(dir@)[k],
            forall|k: int| 0 <= k < walk@.len() ==> (#[trigger] walk@[k]) < tree.entries@.len(),
            languages@ == inferred(*tree, dir@, i as int),
        decreases all.len() - i,
    {
        if speaks_for(tree, &walk, dir, all[i]) {
            languages.push(all[i]);
        }
        i = i + 1;
    }
    Depsfile { dependencies: depsfile.dependencies, languages }
}

} // verus!
