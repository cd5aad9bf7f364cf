//! Service discovery: from the files of a repository to its services,
//! each with what its marker declares and what the analyzers found.

use crate::cli::Opts;
use crate::config::{
    compiled_views, declared_dependencies, declared_languages, document_warnings,
    lemma_compiled_views, lemma_literal_views, pattern_views, warning_views, DepPattern, Depsfile,
    DepsfileType, Language, MarkerWarning, PatternView, WarningView,
};
use crate::files::{lemma_walked_absolute, walked, FileTree};
use crate::path::{
    file_name, file_name_of, is_absolute, join, joined, path_views, PathInfo, PathView,
};
use crate::service::dotnet::{
    directory_files_of, dotnet_references, found_views, reference_xpath, xpath_valid,
    DotnetAnalyzer,
};
use crate::service::finder::{is_outcome, references_of_files, RuleView};
use crate::service::flutter::{declares_workspace, pubspecs_of, workspace_files, FlutterAnalyzer};
use crate::service::go::{distinct, go_references, imports_of_files, GoAnalyzer};
use crate::service::javascript::{
    javascript_references, known_packages, package_views, JavaScriptAnalyzer,
};
use crate::service::justfile::JustfileAnalyzer;
use crate::service::kustomize::{kustomizations_of, KustomizeAnalyzer};
use crate::service::proto::{known_protos, ProtoAnalyzer};
use crate::service::{
    auto_discover_languages, cause_of, context_at, languages_of, lowercase, lowered, merged_context,
    supported, AnalyzerError, AutoDependency, Cause, ContextView, Service, ServiceContext,
};
use crate::text::{ends_with, from_chars, has_prefix, has_suffix, str_eq, to_chars};
use crate::utils::{
    lemma_loaded_child, load_yaml, reversed, views, yaml_documents, LoadError, YamlNode,
};
use vstd::prelude::*;
use vstd::string::StringExecFns;

verus! {

/// Why the services could not be discovered.
#[derive(Debug, Clone, Copy, PartialEq, Eq, Structural)]
pub enum DiscoverError {
    /// The marker of a service is not there.
    NotFound,
    /// The marker of a service is not well-formed.
    Parse,
    /// No marker stands at the path or in the directory.
    NoServiceRoot,
}

impl DiscoverError {
    /// What went wrong, in words.
    pub fn describe(&self) -> (r: &'static str)
        ensures
            r@ == (match *self {
                DiscoverError::NotFound => "cannot find file"@,
                DiscoverError::Parse => "malformed marker file"@,
                DiscoverError::NoServiceRoot => "cannot find service root"@,
            }),
    {
        match self {
            DiscoverError::NotFound => "cannot find file",
            DiscoverError::Parse => "malformed marker file",
            DiscoverError::NoServiceRoot => "cannot find service root",
        }
    }
}

/// A discovered dependency by its language and what its pattern says.
pub struct AutoView {
    pub language: Language,
    pub pattern: PatternView,
}

impl View for AutoDependency {
    type V = AutoView;

    open spec fn view(&self) -> AutoView {
        AutoView { language: self.language, pattern: self.pattern@ }
    }
}

/// What each discovered dependency says.
pub open spec fn auto_views(dependencies: Seq<AutoDependency>) -> Seq<AutoView> {
    dependencies.map_values(|d: AutoDependency| d@)
}

/// Something that was passed over while the services were discovered.
#[derive(Debug, Clone, PartialEq)]
pub enum Diagnostic {
    /// Something in the marker at the given path means nothing or does
    /// not compile.
    Marker(String, MarkerWarning),
    /// The analyzer of a language gave up on the service in the given
    /// directory; the service is discovered without what it would have found.
    Analyzer(Language, String, AnalyzerError),
}

/// A `Diagnostic` with its texts as sequences of characters.
pub enum DiagnosticView {
    Marker(Seq<char>, WarningView),
    Analyzer(Language, Seq<char>, AnalyzerError),
}

impl View for Diagnostic {
    type V = DiagnosticView;

    open spec fn view(&self) -> DiagnosticView {
        match self {
            Diagnostic::Marker(path, warning) => DiagnosticView::Marker(path@, warning@),
            Diagnostic::Analyzer(language, dir, error) => DiagnosticView::Analyzer(
                *language,
                dir@,
                *error,
            ),
        }
    }
}

impl DiagnosticView {
    /// The diagnostic in words: for a marker its path and what is wrong
    /// with it; for an analyzer its language, its error, and the
    /// directory of the service in square brackets.
    pub open spec fn text(self) -> Seq<char> {
        match self {
            DiagnosticView::Marker(path, warning) => path + ": "@ + warning.text(),
            DiagnosticView::Analyzer(language, dir, error) => language.label_of()
                + ": failed to auto-discover dependencies: "@ + error.text() + " ["@ + dir + "]"@,
        }
    }
}

impl Diagnostic {
    /// The diagnostic in words.
    pub fn to_text(&self) -> (r: String)
        ensures
            r@ == self@.text(),
    {
        match self {
            Diagnostic::Marker(path, warning) => {
                let mut out = path.clone();
                out.append(": ");
                let text = warning.to_text();
                out.append(text.as_str());
                out
            },
            Diagnostic::Analyzer(language, dir, error) => {
                let mut out = language.label().to_owned();
                out.append(": failed to auto-discover dependencies: ");
                out.append(error.describe());
                out.append(" [");
                out.append(dir.as_str());
                out.append("]");
                out
            },
        }
    }
}

/// What each diagnostic says.
pub open spec fn diagnostic_views(diagnostics: Seq<Diagnostic>) -> Seq<DiagnosticView> {
    diagnostics.map_values(|d: Diagnostic| d@)
}

/// A service with its texts as sequences of characters.
pub struct ServiceView {
    pub path: PathView,
    pub dependencies: Seq<PatternView>,
    pub languages: Seq<Language>,
    pub auto_dependencies: Seq<AutoView>,
    pub trigger: Option<Cause>,
}

impl View for Service {
    type V = ServiceView;

    open spec fn view(&self) -> ServiceView {
        ServiceView {
            path: self.path@,
            dependencies: pattern_views(self.depsfile.dependencies@),
            languages: self.depsfile.languages@,
            auto_dependencies: auto_views(self.auto_dependencies@),
            trigger: cause_of(self.trigger),
        }
    }
}

/// What each service says.
pub open spec fn service_views(services: Seq<Service>) -> Seq<ServiceView> {
    services.map_values(|s: Service| s@)
}

/// The analyzers of the languages for which dependencies are discovered.
#[derive(Debug)]
pub struct Analyzer {
    pub go: Option<GoAnalyzer>,
    pub dotnet: Option<DotnetAnalyzer>,
    pub flutter: Option<FlutterAnalyzer>,
    pub kustomize: Option<KustomizeAnalyzer>,
    pub javascript: Option<JavaScriptAnalyzer>,
    pub protobuf: Option<ProtoAnalyzer>,
    pub justfile: Option<JustfileAnalyzer>,
}

/// Whether the analyzer of `language` reads a file of this name, given
/// in lower case.
pub open spec fn relevant(language: Language, name: Seq<char>) -> bool {
    match language {
        Language::Golang => has_suffix(name, ".go"@),
        Language::Dotnet => has_suffix(name, ".csproj"@),
        Language::Flutter => name == "pubspec.yaml"@,
        Language::Kustomize => name == "kustomization.yaml"@ || name == "kustomization.yml"@,
        Language::JavaScript => name == "package.json"@,
        Language::Protobuf => has_suffix(name, "proto"@),
        Language::Justfile => name == "justfile"@ || has_suffix(name, ".just"@),
    }
}

/// The positions of the entries, among the first `upto` that a walk of
/// `dir` comes by, that the analyzer of `language` reads.
pub open spec fn candidates_of(
    tree: FileTree,
    dir: Seq<char>,
    language: Language,
    upto: int,
) -> Seq<usize>
    decreases upto,
{
    if upto <= 0 {
        Seq::<usize>::empty()
    } else {
        let at = tree.walk_positions(dir)[upto - 1];
        if relevant(language, lowered(file_name_of(tree.entries@[at].path@))) {
            candidates_of(tree, dir, language, upto - 1).push(at as usize)
        } else {
            candidates_of(tree, dir, language, upto - 1)
        }
    }
}

/// What every package of the workspace of the repository depends on,
/// where the root declares a workspace.
pub open spec fn workspace_of(tree: FileTree, root: Seq<char>) -> Option<Seq<PatternView>> {
    if declares_workspace(tree, root) {
        Some(workspace_files(root))
    } else {
        None
    }
}

/// What the analyzer of `language` finds for the service in `dir`;
/// `None` where dependencies of that language are not discovered: Go
/// without configured package prefixes, .NET where the XPath for
/// project references does not compile.
pub open spec fn analysis(
    tree: FileTree,
    opts: Opts,
    language: Language,
    dir: Seq<char>,
) -> Option<Result<Seq<PatternView>, AnalyzerError>> {
    let root = opts.target.canonicalized@;
    let files = candidates_of(tree, dir, language, tree.walk_positions(dir).len() as int);
    match language {
        Language::Golang => {
            let prefixes = views(opts.config.auto_discovery.go.package_prefixes@);
            if prefixes.len() > 0 {
                Some(go_references(tree, files, prefixes, root))
            } else {
                None
            }
        },
        Language::Dotnet => if xpath_valid(reference_xpath()) {
            Some(
                dotnet_references(
                    tree,
                    files,
                    views(opts.config.auto_discovery.dotnet.package_namespaces@),
                    directory_files_of(tree, root, tree.walk_positions(root).len() as int),
                    dir,
                    root,
                ),
            )
        } else {
            None
        },
        Language::Flutter => Some(
            pubspecs_of(tree, files, workspace_of(tree, root), files.len() as int),
        ),
        Language::Kustomize => Some(kustomizations_of(tree, files, files.len() as int)),
        Language::JavaScript => Some(
            javascript_references(tree, files, known_packages(tree, root)),
        ),
        Language::Protobuf => Some(
            references_of_files(
                tree,
                RuleView::Protobuf(known_protos(tree, root)),
                files,
                files.len() as int,
            ),
        ),
        Language::Justfile => Some(
            references_of_files(tree, RuleView::Justfile, files, files.len() as int),
        ),
    }
}

/// The patterns as dependencies discovered for `language`.
pub open spec fn tagged(language: Language, patterns: Seq<PatternView>) -> Seq<AutoView> {
    patterns.map_values(|p: PatternView| AutoView { language, pattern: p })
}

/// What the analyzers of the first `upto` of `languages` find for the
/// service in `dir`, one language after the other. A language without
/// an analyzer, and one whose analyzer gives up, adds nothing.
pub open spec fn discovered(
    tree: FileTree,
    opts: Opts,
    languages: Seq<Language>,
    dir: Seq<char>,
    upto: int,
) -> Seq<AutoView>
    decreases upto,
{
    if upto <= 0 {
        Seq::<AutoView>::empty()
    } else {
        let before = discovered(tree, opts, languages, dir, upto - 1);
        match analysis(tree, opts, languages[upto - 1], dir) {
            Some(Ok(patterns)) => before + tagged(languages[upto - 1], patterns),
            _ => before,
        }
    }
}

/// The analyzers among those of the first `upto` of `languages` that
/// give up on the service in `dir`, each with its error.
pub open spec fn failed(
    tree: FileTree,
    opts: Opts,
    languages: Seq<Language>,
    dir: Seq<char>,
    upto: int,
) -> Seq<DiagnosticView>
    decreases upto,
{
    if upto <= 0 {
        Seq::<DiagnosticView>::empty()
    } else {
        let before = failed(tree, opts, languages, dir, upto - 1);
        match analysis(tree, opts, languages[upto - 1], dir) {
            Some(Err(e)) => before.push(DiagnosticView::Analyzer(languages[upto - 1], dir, e)),
            _ => before,
        }
    }
}

/// Whether a literal pattern with this canonical form is among `kept`.
pub open spec fn has_literal(kept: Seq<AutoView>, canonical: Seq<char>) -> bool {
    exists|k: int|
        0 <= k < kept.len() && (#[trigger] kept[k]).pattern.regex is None
            && kept[k].pattern.raw.canonical == canonical
}

/// The discovered dependencies of the service in `dir` that stay, among
/// the first `upto`: not a literal that lies within the service itself,
/// and not a literal that is there already.
pub open spec fn kept_auto(found: Seq<AutoView>, dir: Seq<char>, upto: int) -> Seq<AutoView>
    decreases upto,
{
    if upto <= 0 {
        Seq::<AutoView>::empty()
    } else {
        let before = kept_auto(found, dir, upto - 1);
        let pattern = found[upto - 1].pattern;
        if pattern.regex is None && (has_prefix(pattern.raw.canonical, dir) || has_literal(
            before,
            pattern.raw.canonical,
        )) {
            before
        } else {
            before.push(found[upto - 1])
        }
    }
}

/// No two literal patterns of the discovered dependencies that stay
/// have the same canonical form, and none of them lies within the
/// service.
pub proof fn lemma_kept_auto_distinct(found: Seq<AutoView>, dir: Seq<char>, upto: int)
    ensures
        forall|a: int, b: int|
            0 <= a < b < kept_auto(found, dir, upto).len() && (#[trigger] kept_auto(
                found,
                dir,
                upto,
            )[a]).pattern.regex is None && (#[trigger] kept_auto(
                found,
                dir,
                upto,
            )[b]).pattern.regex is None ==> kept_auto(found, dir, upto)[a].pattern.raw.canonical
                != kept_auto(found, dir, upto)[b].pattern.raw.canonical,
        forall|a: int|
            0 <= a < kept_auto(found, dir, upto).len() && (#[trigger] kept_auto(
                found,
                dir,
                upto,
            )[a]).pattern.regex is None ==> !has_prefix(
                kept_auto(found, dir, upto)[a].pattern.raw.canonical,
                dir,
            ),
    decreases upto,
{
    if upto > 0 {
        lemma_kept_auto_distinct(found, dir, upto - 1);
    }
}

/// What the marker of a service declares, as far as it can be loaded:
/// the patterns for the dependencies that compile, and the languages.
pub open spec fn declared(
    tree: FileTree,
    context: ContextView,
    root: Seq<char>,
) -> Result<(Seq<PatternView>, Seq<Language>), DiscoverError> {
    match context.filetype {
        DepsfileType::Justfile | DepsfileType::Makefile => Ok(
            (Seq::<PatternView>::empty(), Seq::<Language>::empty()),
        ),
        kind => match tree.text(context.depsfile.canonical) {
            None => Err(DiscoverError::NotFound),
            Some(text) => if yaml_documents(text) is None {
                Err(DiscoverError::Parse)
            } else {
                Ok(
                    (
                        compiled_views(declared_dependencies(kind, text), root),
                        declared_languages(kind, text),
                    ),
                )
            },
        },
    }
}

/// The service that the marker `context` declares: its directory, what
/// the marker declares, its languages, and the discovered dependencies
/// that stay; no trigger. It is an error when the marker is a Depsfile
/// or Buildfile that is not there or is not well-formed.
pub open spec fn service_for(
    tree: FileTree,
    opts: Opts,
    context: ContextView,
    root: Seq<char>,
) -> Result<ServiceView, DiscoverError> {
    match declared(tree, context, root) {
        Ok((dependencies, named)) => {
            let dir = context.service.canonical;
            let languages = languages_of(named, tree, dir);
            let found = discovered(tree, opts, languages, dir, languages.len() as int);
            Ok(
                ServiceView {
                    path: context.service,
                    dependencies,
                    languages,
                    auto_dependencies: kept_auto(found, dir, found.len() as int),
                    trigger: None,
                },
            )
        },
        Err(e) => Err(e),
    }
}

/// The document of a marker with the text `text`: its first document.
pub open spec fn marker_document(text: Seq<char>) -> YamlNode {
    match yaml_documents(text) {
        Some(documents) => if documents.len() > 0 {
            documents[0]
        } else {
            YamlNode::BadValue
        },
        None => YamlNode::BadValue,
    }
}

/// The warnings as warnings about the marker at `path`.
pub open spec fn about_marker(path: Seq<char>, warnings: Seq<WarningView>) -> Seq<DiagnosticView> {
    warnings.map_values(|w: WarningView| DiagnosticView::Marker(path, w))
}

/// What is passed over in the marker `context`.
pub open spec fn passed_over(tree: FileTree, context: ContextView) -> Seq<DiagnosticView> {
    match context.filetype {
        DepsfileType::Justfile | DepsfileType::Makefile => Seq::<DiagnosticView>::empty(),
        kind => match tree.text(context.depsfile.canonical) {
            Some(text) => about_marker(
                context.depsfile.canonical,
                document_warnings(kind, marker_document(text)),
            ),
            None => Seq::<DiagnosticView>::empty(),
        },
    }
}

/// What is passed over while the service of the marker `context` is
/// discovered: first what means nothing in the marker, then the
/// analyzers that give up.
pub open spec fn service_diagnostics(
    tree: FileTree,
    opts: Opts,
    context: ContextView,
    root: Seq<char>,
) -> Seq<DiagnosticView> {
    match declared(tree, context, root) {
        Ok((dependencies, named)) => {
            let dir = context.service.canonical;
            let languages = languages_of(named, tree, dir);
            passed_over(tree, context) + failed(tree, opts, languages, dir, languages.len() as int)
        },
        Err(_) => Seq::<DiagnosticView>::empty(),
    }
}

/// What is passed over while the services of the first `upto` of
/// `contexts` are discovered.
pub open spec fn diagnostics_of(
    tree: FileTree,
    opts: Opts,
    contexts: Seq<ContextView>,
    upto: int,
) -> Seq<DiagnosticView>
    decreases upto,
{
    if upto <= 0 {
        Seq::<DiagnosticView>::empty()
    } else {
        diagnostics_of(tree, opts, contexts, upto - 1) + service_diagnostics(
            tree,
            opts,
            contexts[upto - 1],
            opts.target.canonicalized@,
        )
    }
}

/// What is passed over while the services of the repository are discovered.
pub open spec fn discovery_diagnostics(tree: FileTree, opts: Opts) -> Seq<DiagnosticView> {
    let contexts = contexts_of(
        tree,
        opts,
        tree.walk_positions(opts.target.canonicalized@).len() as int,
    );
    diagnostics_of(tree, opts, contexts, contexts.len() as int)
}

/// Position of the first context, at or after `from`, for the service
/// directory `dir`; `contexts.len()` when there is none.
pub open spec fn context_index(contexts: Seq<ContextView>, dir: Seq<char>, from: int) -> int
    decreases contexts.len() - from,
{
    if from < 0 || from >= contexts.len() {
        contexts.len() as int
    } else if contexts[from].service.canonical == dir {
        from
    } else {
        context_index(contexts, dir, from + 1)
    }
}

/// The markers that stand for services, after the first `upto` entries
/// that a walk of the root comes by: one for each directory but the
/// root itself, in the order in which the directories were first seen,
/// and of the markers of one directory the one that takes precedence.
pub open spec fn contexts_of(tree: FileTree, opts: Opts, upto: int) -> Seq<ContextView>
    decreases upto,
{
    let root = opts.target.canonicalized@;
    if upto <= 0 {
        Seq::<ContextView>::empty()
    } else {
        let before = contexts_of(tree, opts, upto - 1);
        match context_at(tree, opts, tree.entries@[tree.walk_positions(root)[upto - 1]].path@) {
            None => before,
            Some(context) => if context.service.canonical == root {
                before
            } else {
                let at = context_index(before, context.service.canonical, 0);
                if at < before.len() {
                    before.update(at, merged_context(before[at], context, opts))
                } else {
                    before.push(context)
                }
            },
        }
    }
}

/// The services that the first `upto` of `contexts` declare; the first
/// error, where a marker cannot be loaded.
pub open spec fn services_of(
    tree: FileTree,
    opts: Opts,
    contexts: Seq<ContextView>,
    upto: int,
) -> Result<Seq<ServiceView>, DiscoverError>
    decreases upto,
{
    if upto <= 0 {
        Ok(Seq::<ServiceView>::empty())
    } else {
        match services_of(tree, opts, contexts, upto - 1) {
            Ok(before) => match service_for(
                tree,
                opts,
                contexts[upto - 1],
                opts.target.canonicalized@,
            ) {
                Ok(service) => Ok(before.push(service)),
                Err(e) => Err(e),
            },
            Err(e) => Err(e),
        }
    }
}

/// The services of the repository: one for each directory, other than
/// the root, in which a walk of the root finds a marker.
pub open spec fn discovery(tree: FileTree, opts: Opts) -> Result<Seq<ServiceView>, DiscoverError> {
    let contexts = contexts_of(
        tree,
        opts,
        tree.walk_positions(opts.target.canonicalized@).len() as int,
    );
    services_of(tree, opts, contexts, contexts.len() as int)
}

impl Analyzer {
    /// Each analyzer is there where dependencies of its language are
    /// discovered, and knows of the repository what it needs.
    pub open spec fn wf(&self, tree: FileTree, opts: Opts) -> bool {
        let root = opts.target.canonicalized@;
        &&& is_absolute(root)
        &&& self.go is Some == (opts.config.auto_discovery.go.package_prefixes@.len() > 0)
        &&& self.dotnet is Some == xpath_valid(reference_xpath())
        &&& self.dotnet is Some ==> {
            &&& self.dotnet->0.root.canonicalized@ == root
            &&& found_views(self.dotnet->0.directory_files@) == directory_files_of(
                tree,
                root,
                tree.walk_positions(root).len() as int,
            )
        }
        &&& self.flutter is Some
        &&& self.flutter->0.shared() == workspace_of(tree, root)
        &&& self.kustomize is Some
        &&& self.javascript is Some
        &&& package_views(self.javascript->0.packages@) == known_packages(tree, root)
        &&& self.protobuf is Some
        &&& self.protobuf->0.wf()
        &&& path_views(self.protobuf->0.all_proto_files@) == known_protos(tree, root)
        &&& self.justfile is Some
    }

    /// The analyzers of the languages for which dependencies are
    /// discovered in the repository of `opts`.
    pub fn new(opts: &Opts, tree: &FileTree) -> (r: Analyzer)
        requires
            is_absolute(opts.target.canonicalized@),
        ensures
            r.wf(*tree, *opts),
    {
        let go = if opts.config.auto_discovery_enabled(&Language::Golang) {
            Some(GoAnalyzer {  })
        } else {
            None
        };
        let dotnet = match DotnetAnalyzer::new(opts.target.duplicate(), tree) {
            Ok(analyzer) => Some(analyzer),
            Err(_) => None,
        };
        let flutter = FlutterAnalyzer::new(&opts.target, tree);
        let javascript = JavaScriptAnalyzer::new(opts.target.duplicate(), tree);
        let protobuf = ProtoAnalyzer::new(opts.target.duplicate(), tree);
        Analyzer {
            go,
            dotnet,
            flutter: Some(flutter),
            kustomize: Some(KustomizeAnalyzer {  }),
            javascript: Some(javascript),
            protobuf: Some(protobuf),
            justfile: Some(JustfileAnalyzer {  }),
        }
    }

    /// Whether the analyzer of `language` reads a file of this name,
    /// given in lower case.
    pub fn file_relevant(language: Language, file_name: &str) -> (r: bool)
        ensures
            r == relevant(language, file_name@),
    {
        match language {
            Language::Golang => (GoAnalyzer {  }).file_relevant(file_name),
            Language::Dotnet => has_suffix_text(file_name, ".csproj"),
            Language::Flutter => str_eq(file_name, "pubspec.yaml"),
            Language::Kustomize => (KustomizeAnalyzer {  }).file_relevant(file_name),
            Language::JavaScript => str_eq(file_name, "package.json"),
            Language::Protobuf => has_suffix_text(file_name, "proto"),
            Language::Justfile => (JustfileAnalyzer {  }).file_relevant(file_name),
        }
    }

    /// The entries of the service in `dir` that the analyzer of
    /// `language` reads: those that a walk of `dir` comes by whose name,
    /// in lower case, is one that the analyzer reads.
    pub fn gather_file_candidates(language: Language, tree: &FileTree, dir: &str) -> (r: Vec<usize>)
        requires
            is_absolute(dir@),
        ensures
            r@ == candidates_of(*tree, dir@, language, tree.walk_positions(dir@).len() as int),
            forall|k: int|
                0 <= k < r@.len() ==> (#[trigger] r@[k]) < tree.entries@.len() && is_absolute(
                    tree.entries@[r@[k] as int].path@,
                ),
    {
        let walk = tree.walk(dir);
        let ghost positions = tree.walk_positions(dir@);
        let mut file_candidates: Vec<usize> = Vec::new();
        let mut i: usize = 0;
        while i < walk.len()
            invariant
                i <= walk.len(),
                is_absolute(dir@),
                positions == tree.walk_positions(dir@),
                walk@.len() == positions.len(),
                forall|k: int| 0 <= k < walk@.len() ==> walk@[k] == positions[k],
                forall|k: int|
                    0 <= k < walk@.len() ==> (#[trigger] walk@[k]) < tree.entries@.len() && walked(
                        tree.entries@[walk@[k] as int].path@,
                        dir@,
                    ),
                file_candidates@ == candidates_of(*tree, dir@, language, i as int),
                forall|k: int|
                    0 <= k < file_candidates@.len() ==> (#[trigger] file_candidates@[k])
                        < tree.entries@.len() && is_absolute(
                        tree.entries@[file_candidates@[k] as int].path@,
                    ),
            decreases walk.len() - i,
        {
            assert(walk@[i as int] == positions[i as int]);
            let entry = &tree.entries[walk[i]];
            let name = from_chars(&file_name(&to_chars(entry.path.as_str())));
            let file_name = lowercase(name.as_str());
            if Analyzer::file_relevant(language, file_name.as_str()) {
                proof {
                    lemma_walked_absolute(entry.path@, dir@);
                }
                file_candidates.push(walk[i]);
            }
            i = i + 1;
        }
        file_candidates
    }

    /// What the analyzer of `language` finds for the service in `dir`;
    /// `None` where dependencies of that language are not discovered.
    pub fn analyze(&self, language: Language, tree: &FileTree, dir: &str, opts: &Opts) -> (r:
        Option<Result<Vec<DepPattern>, AnalyzerError>>)
        requires
            self.wf(*tree, *opts),
            is_absolute(dir@),
        ensures
            r is Some == analysis(*tree, *opts, language, dir@) is Some,
            r is Some ==> is_outcome(r->0, analysis(*tree, *opts, language, dir@)->0),
    {
        let files = Analyzer::gather_file_candidates(language, tree, dir);
        match language {
            Language::Golang => match &self.go {
                Some(analyzer) => {
                    let found = analyzer.dependencies(tree, &files, opts);
                    proof {
                        match &found {
                            Ok(patterns) => {
                                let imports = imports_of_files(
                                    *tree,
                                    files@,
                                    views(opts.config.auto_discovery.go.package_prefixes@),
                                    files@.len() as int,
                                )->0;
                                lemma_literal_views(
                                    patterns@,
                                    distinct(imports),
                                    opts.target.canonicalized@,
                                );
                            },
                            Err(_) => {},
                        }
                    }
                    Some(found)
                },
                None => None,
            },
            Language::Dotnet => match &self.dotnet {
                Some(analyzer) => Some(analyzer.dependencies(tree, &files, dir, opts)),
                None => None,
            },
            Language::Flutter => match &self.flutter {
                Some(analyzer) => Some(analyzer.dependencies(tree, &files)),
                None => None,
            },
            Language::Kustomize => match &self.kustomize {
                Some(analyzer) => Some(analyzer.dependencies(tree, &files)),
                None => None,
            },
            Language::JavaScript => match &self.javascript {
                Some(analyzer) => Some(analyzer.dependencies(tree, &files)),
                None => None,
            },
            Language::Protobuf => match &self.protobuf {
                Some(analyzer) => Some(analyzer.dependencies(tree, &files)),
                None => None,
            },
            Language::Justfile => match &self.justfile {
                Some(analyzer) => Some(analyzer.dependencies(tree, &files)),
                None => None,
            },
        }
    }

    /// What the analyzers of `languages` find for the service in `dir`,
    /// one language after the other. A language without an analyzer adds
    /// nothing; one whose analyzer gives up adds nothing either, and is
    /// appended to `failures` with its error.
    pub fn discover(
        &self,
        languages: &Vec<Language>,
        dir: &str,
        tree: &FileTree,
        opts: &Opts,
        failures: &mut Vec<Diagnostic>,
    ) -> (r: Vec<AutoDependency>)
        requires
            self.wf(*tree, *opts),
            is_absolute(dir@),
        ensures
            auto_views(r@) == discovered(*tree, *opts, languages@, dir@, languages@.len() as int),
            diagnostic_views(final(failures)@) == diagnostic_views(old(failures)@) + failed(
                *tree,
                *opts,
                languages@,
                dir@,
                languages@.len() as int,
            ),
    {
        let mut out: Vec<AutoDependency> = Vec::new();
        let ghost reported = diagnostic_views(failures@);
        let mut i: usize = 0;
        assert(auto_views(out@) =~= Seq::<AutoView>::empty());
        assert(reported + failed(*tree, *opts, languages@, dir@, 0) =~= reported);
        while i < languages.len()
            invariant
                i <= languages.len(),
                self.wf(*tree, *opts),
                is_absolute(dir@),
                auto_views(out@) == discovered(*tree, *opts, languages@, dir@, i as int),
                diagnostic_views(failures@) == reported + failed(
                    *tree,
                    *opts,
                    languages@,
                    dir@,
                    i as int,
                ),
            decreases languages.len() - i,
        {
            let language = languages[i];
            let ghost before = auto_views(out@);
            let ghost so_far = failed(*tree, *opts, languages@, dir@, i as int);
            match self.analyze(language, tree, dir, opts) {
                Some(Err(e)) => {
                    let failure = Diagnostic::Analyzer(language, dir.to_owned(), e);
                    assert(diagnostic_views(failures@.push(failure)) =~= diagnostic_views(
                        failures@,
                    ).push(failure@));
                    assert((reported + so_far).push(failure@) =~= reported + so_far.push(
                        failure@,
                    ));
                    failures.push(failure);
                },
                Some(Ok(patterns)) => {
                    let ghost found = pattern_views(patterns@);
                    let mut k: usize = 0;
                    assert(before + tagged(language, found.take(0)) =~= before);
                    while k < patterns.len()
                        invariant
                            k <= patterns.len(),
                            found == pattern_views(patterns@),
                            auto_views(out@) == before + tagged(language, found.take(k as int)),
                        decreases patterns.len() - k,
                    {
                        let dependency = AutoDependency {
                            language,
                            pattern: patterns[k].duplicate(),
                        };
                        assert(auto_views(out@.push(dependency)) =~= auto_views(out@).push(
                            dependency@,
                        ));
                        assert(before + tagged(language, found.take(k + 1)) =~= (before + tagged(
                            language,
                            found.take(k as int),
                        )).push(dependency@));
                        out.push(dependency);
                        k = k + 1;
                    }
                    assert(found.take(patterns.len() as int) =~= found);
                },
                _ => {},
            }
            i = i + 1;
        }
        out
    }
}

/// Whether `text` ends with `suffix`.
fn has_suffix_text(text: &str, suffix: &str) -> (r: bool)
    ensures
        r == has_suffix(text@, suffix@),
{
    ends_with(&to_chars(text), &to_chars(suffix))
}

/// Whether `pattern` does not lie within the service in `service_dir`.
pub fn not_within_service(service_dir: &PathInfo, pattern: &DepPattern) -> (r: bool)
    ensures
        r == !pattern.child_of(service_dir.canonicalized@),
{
    !pattern.is_child_of(service_dir.canonicalized.as_str())
}

/// Whether a literal pattern with the canonical form `canonical` is among `kept`.
fn contains_literal(kept: &Vec<AutoDependency>, canonical: &str) -> (r: bool)
    ensures
        r == has_literal(auto_views(kept@), canonical@),
{
    let mut k: usize = 0;
    while k < kept.len()
        invariant
            k <= kept.len(),
            forall|j: int|
                0 <= j < k ==> !((#[trigger] auto_views(kept@)[j]).pattern.regex is None
                    && auto_views(kept@)[j].pattern.raw.canonical == canonical@),
        decreases kept.len() - k,
    {
        assert(auto_views(kept@)[k as int] == kept@[k as int]@);
        match kept[k].pattern.hash() {
            Some(own) => {
                if str_eq(own, canonical) {
                    return true;
                }
            },
            None => {},
        }
        k = k + 1;
    }
    false
}

/// The discovered dependencies of the service in `dir` that stay: not a
/// literal that lies within the service itself, and not a literal that
/// is there already.
pub fn keep_auto(found: Vec<AutoDependency>, dir: &PathInfo) -> (r: Vec<AutoDependency>)
    ensures
        auto_views(r@) == kept_auto(auto_views(found@), dir.canonicalized@, found@.len() as int),
{
    let ghost all = auto_views(found@);
    let ghost n = found@.len();
    let mut rest = found;
    let mut pending: Vec<AutoDependency> = Vec::new();
    while rest.len() > 0
        invariant
            rest@.len() + pending@.len() == n,
            n == all.len(),
            forall|i: int| 0 <= i < rest@.len() ==> (#[trigger] rest@[i])@ == all[i],
            forall|i: int| 0 <= i < pending@.len() ==> (#[trigger] pending@[i])@ == all[n - 1 - i],
        decreases rest.len(),
    {
        match rest.pop() {
            Some(item) => {
                pending.push(item);
            },
            None => {},
        }
    }
    let mut kept: Vec<AutoDependency> = Vec::new();
    assert(auto_views(kept@) =~= Seq::<AutoView>::empty());
    while pending.len() > 0
        invariant
            pending@.len() <= n,
            n == all.len(),
            forall|i: int| 0 <= i < pending@.len() ==> (#[trigger] pending@[i])@ == all[n - 1 - i],
            auto_views(kept@) == kept_auto(all, dir.canonicalized@, n - pending@.len()),
        decreases pending.len(),
    {
        let ghost at = n - pending@.len();
        match pending.pop() {
            Some(item) => {
                assert(item@ == all[at]);
                let stays = not_within_service(dir, &item.pattern) && match item.pattern.hash() {
                    Some(canonical) => !contains_literal(&kept, canonical),
                    None => true,
                };
                if stays {
                    assert(auto_views(kept@.push(item)) =~= auto_views(kept@).push(item@));
                    kept.push(item);
                }
            },
            None => {},
        }
    }
    kept
}

/// The error of discovery that a failure to load a marker stands for.
fn load_failure(e: LoadError) -> (r: DiscoverError)
    ensures
        r == (match e {
            LoadError::NotFound => DiscoverError::NotFound,
            LoadError::Parse => DiscoverError::Parse,
        }),
{
    match e {
        LoadError::NotFound => DiscoverError::NotFound,
        LoadError::Parse => DiscoverError::Parse,
    }
}

/// Whether `r` is the outcome `expected` of discovering one service.
pub open spec fn is_service(r: Result<Service, DiscoverError>, expected: Result<
    ServiceView,
    DiscoverError,
>) -> bool {
    match expected {
        Ok(view) => r is Ok && r->Ok_0@ == view,
        Err(e) => r == Err::<Service, DiscoverError>(e),
    }
}

/// Whether `r` is the outcome `expected` of discovering the services.
pub open spec fn is_discovery(r: Result<Vec<Service>, DiscoverError>, expected: Result<
    Seq<ServiceView>,
    DiscoverError,
>) -> bool {
    match expected {
        Ok(views) => r is Ok && service_views(r->Ok_0@) == views,
        Err(e) => r == Err::<Vec<Service>, DiscoverError>(e),
    }
}

/// A document that is no mapping has nothing that is passed over but
/// what any other such document has.
proof fn lemma_warnings_of_scalar(kind: DepsfileType, a: YamlNode, b: YamlNode)
    requires
        !(a is Hash),
        !(b is Hash),
    ensures
        document_warnings(kind, a) == document_warnings(kind, b),
{
    assert(a.child("languages"@) == YamlNode::BadValue);
    assert(b.child("languages"@) == YamlNode::BadValue);
    assert(a.child("dependencies"@) == YamlNode::BadValue);
    assert(a.child("spec"@) == YamlNode::BadValue);
    assert(a.entries() =~= b.entries());
}

/// Appends each of `warnings` as a warning about the marker at `path`.
fn report_marker(path: &str, warnings: Vec<MarkerWarning>, diagnostics: &mut Vec<Diagnostic>)
    ensures
        diagnostic_views(final(diagnostics)@) == diagnostic_views(old(diagnostics)@) + about_marker(
            path@,
            warning_views(warnings@),
        ),
{
    let ghost before = diagnostic_views(diagnostics@);
    let ghost all = warning_views(warnings@);
    let mut i: usize = 0;
    assert(before + about_marker(path@, all.take(0)) =~= before);
    while i < warnings.len()
        invariant
            i <= warnings.len(),
            all == warning_views(warnings@),
            diagnostic_views(diagnostics@) == before + about_marker(path@, all.take(i as int)),
        decreases warnings.len() - i,
    {
        let diagnostic = Diagnostic::Marker(path.to_owned(), warnings[i].duplicate());
        assert(all[i as int] == warnings@[i as int]@);
        assert(diagnostic_views(diagnostics@.push(diagnostic)) =~= diagnostic_views(
            diagnostics@,
        ).push(diagnostic@));
        assert(before + about_marker(path@, all.take(i + 1)) =~= (before + about_marker(
            path@,
            all.take(i as int),
        )).push(diagnostic@));
        diagnostics.push(diagnostic);
        i = i + 1;
    }
    assert(all.take(warnings.len() as int) =~= all);
}

impl Service {
    /// The service that the marker `ctx` declares: what the marker
    /// declares, the languages of the service, and what the analyzers of
    /// those languages find, but for what lies within the service and
    /// for literal patterns that are there already. What is passed over
    /// on the way is appended to `diagnostics`. Fails where the marker
    /// is a Depsfile or Buildfile that is not there or is not well-formed.
    pub fn discover_service(
        analyzer: &Analyzer,
        ctx: ServiceContext,
        tree: &FileTree,
        opts: &Opts,
        diagnostics: &mut Vec<Diagnostic>,
    ) -> (r: Result<Service, DiscoverError>)
        requires
            analyzer.wf(*tree, *opts),
            is_absolute(ctx.root_dir@),
            is_absolute(ctx.service_location.canonicalized@),
        ensures
            is_service(r, service_for(*tree, *opts, ctx@, ctx.root_dir@)),
            r is Ok ==> r->Ok_0.path == ctx.service_location && r->Ok_0.trigger is None,
            r is Ok ==> diagnostic_views(final(diagnostics)@) == diagnostic_views(
                old(diagnostics)@,
            ) + service_diagnostics(*tree, *opts, ctx@, ctx.root_dir@),
            r is Err ==> final(diagnostics)@ == old(diagnostics)@,
    {
        let ghost before = diagnostic_views(diagnostics@);
        let marker = ctx.depsfile_location.canonicalized.as_str();
        let source = tree.read(marker);
        let base_depsfile = match ctx.filetype {
            DepsfileType::Justfile | DepsfileType::Makefile => {
                let nothing = Depsfile::empty();
                assert(pattern_views(nothing.dependencies@) =~= Seq::<PatternView>::empty());
                assert(nothing.languages@ =~= Seq::<Language>::empty());
                assert(before + passed_over(*tree, ctx@) =~= before);
                nothing
            },
            kind => {
                let document = match load_yaml(source) {
                    Ok(document) => document,
                    Err(e) => {
                        return Err(load_failure(e));
                    },
                };
                let ghost text = source->0@;
                proof {
                    lemma_loaded_child(document, text, "languages"@);
                    lemma_loaded_child(document, text, "dependencies"@);
                    lemma_loaded_child(document, text, "spec"@);
                    lemma_loaded_child(document, text, "metadata"@);
                    if yaml_documents(text)->0.len() == 0 {
                        lemma_warnings_of_scalar(kind, document, marker_document(text));
                    }
                }
                let depsfile = match kind {
                    DepsfileType::Depsfile => Depsfile::depsfile_from_yaml(&document, ctx.root_dir),
                    _ => Depsfile::buildfile_from_yaml(&document, ctx.root_dir),
                };
                proof {
                    lemma_compiled_views(
                        depsfile.dependencies@,
                        declared_dependencies(kind, text),
                        ctx.root_dir@,
                    );
                }
                let warnings = Depsfile::warnings(kind, &document);
                report_marker(marker, warnings, diagnostics);
                depsfile
            },
        };
        let depsfile = auto_discover_languages(base_depsfile, &ctx.service_location, tree);
        let found = analyzer.discover(
            &depsfile.languages,
            ctx.service_location.canonicalized.as_str(),
            tree,
            opts,
            diagnostics,
        );
        let auto_dependencies = keep_auto(found, &ctx.service_location);
        proof {
            let dir = ctx.service_location.canonicalized@;
            assert(diagnostic_views(diagnostics@) =~= before + (passed_over(*tree, ctx@) + failed(
                *tree,
                *opts,
                depsfile.languages@,
                dir,
                depsfile.languages@.len() as int,
            )));
        }
        Ok(Service { path: ctx.service_location, depsfile, auto_dependencies, trigger: None })
    }
}

/// What each context says.
pub open spec fn context_views(contexts: Seq<ServiceContext>) -> Seq<ContextView> {
    contexts.map_values(|c: ServiceContext| c@)
}

/// The contexts of services never stand for the root, and no two of
/// them stand for the same directory.
pub proof fn lemma_contexts_distinct(tree: FileTree, opts: Opts, upto: int)
    ensures
        forall|i: int|
            0 <= i < contexts_of(tree, opts, upto).len() ==> (#[trigger] contexts_of(
                tree,
                opts,
                upto,
            )[i]).service.canonical != opts.target.canonicalized@,
        forall|i: int, j: int|
            0 <= i < j < contexts_of(tree, opts, upto).len() ==> (#[trigger] contexts_of(
                tree,
                opts,
                upto,
            )[i]).service.canonical != (#[trigger] contexts_of(
                tree,
                opts,
                upto,
            )[j]).service.canonical,
    decreases upto,
{
    let root = opts.target.canonicalized@;
    if upto > 0 {
        lemma_contexts_distinct(tree, opts, upto - 1);
        let before = contexts_of(tree, opts, upto - 1);
        match context_at(tree, opts, tree.entries@[tree.walk_positions(root)[upto - 1]].path@) {
            None => {},
            Some(context) => {
                if context.service.canonical != root {
                    lemma_context_index(before, context.service.canonical, 0);
                }
            },
        }
    }
}

/// What `context_index` finds is a context for that directory, and none
/// at or after `from` and before it is one.
pub proof fn lemma_context_index(contexts: Seq<ContextView>, dir: Seq<char>, from: int)
    requires
        0 <= from <= contexts.len(),
    ensures
        from <= context_index(contexts, dir, from) <= contexts.len(),
        context_index(contexts, dir, from) < contexts.len() ==> contexts[context_index(
            contexts,
            dir,
            from,
        )].service.canonical == dir,
        forall|k: int|
            from <= k < context_index(contexts, dir, from) ==> (
            #[trigger] contexts[k]).service.canonical != dir,
    decreases contexts.len() - from,
{
    if from < contexts.len() && contexts[from].service.canonical != dir {
        lemma_context_index(contexts, dir, from + 1);
    }
}

/// The services, where they can all be had, stand one for one for the
/// contexts, each in the directory of its context.
pub proof fn lemma_services_follow_contexts(
    tree: FileTree,
    opts: Opts,
    contexts: Seq<ContextView>,
    upto: int,
)
    requires
        0 <= upto <= contexts.len(),
    ensures
        services_of(tree, opts, contexts, upto) is Ok ==> {
            let services = services_of(tree, opts, contexts, upto)->Ok_0;
            &&& services.len() == upto
            &&& forall|i: int|
                0 <= i < upto ==> (#[trigger] services[i]).path == contexts[i].service
                    && services[i].trigger is None && service_for(
                    tree,
                    opts,
                    contexts[i],
                    opts.target.canonicalized@,
                ) == Ok::<ServiceView, DiscoverError>(services[i])
        },
    decreases upto,
{
    if upto > 0 {
        lemma_services_follow_contexts(tree, opts, contexts, upto - 1);
    }
}

/// The marker that the walk of the root comes by at its position `at`,
/// if there is one there.
pub open spec fn marker_in_walk(tree: FileTree, opts: Opts, at: int) -> Option<ContextView> {
    context_at(
        tree,
        opts,
        tree.entries@[tree.walk_positions(opts.target.canonicalized@)[at]].path@,
    )
}

/// Once the walk has come by a Depsfile of a directory other than the
/// root, the context for that directory is that of a Depsfile, whatever
/// the walk comes by before and after.
proof fn lemma_depsfile_stays(tree: FileTree, opts: Opts, at: int, upto: int)
    requires
        0 <= at < upto,
        marker_in_walk(tree, opts, at) is Some,
        marker_in_walk(tree, opts, at)->0.filetype == DepsfileType::Depsfile,
        marker_in_walk(tree, opts, at)->0.service.canonical != opts.target.canonicalized@,
    ensures
        ({
            let dir = marker_in_walk(tree, opts, at)->0.service.canonical;
            let contexts = contexts_of(tree, opts, upto);
            let k = context_index(contexts, dir, 0);
            &&& 0 <= k < contexts.len()
            &&& contexts[k].service.canonical == dir
            &&& contexts[k].filetype == DepsfileType::Depsfile
        }),
    decreases upto,
{
    let root = opts.target.canonicalized@;
    let dir = marker_in_walk(tree, opts, at)->0.service.canonical;
    let before = contexts_of(tree, opts, upto - 1);
    let contexts = contexts_of(tree, opts, upto);
    lemma_context_index(before, dir, 0);
    lemma_contexts_distinct(tree, opts, upto - 1);
    let met = marker_in_walk(tree, opts, upto - 1);
    if at == upto - 1 {
        let context = met->0;
        let found = context_index(before, dir, 0);
        if found < before.len() {
            assert(supported(opts, context.filetype));
            assert(merged_context(before[found], context, opts).filetype
                == DepsfileType::Depsfile);
            assert(merged_context(before[found], context, opts).service.canonical == dir);
            assert(contexts == before.update(found, merged_context(before[found], context, opts)));
            lemma_context_found(contexts, dir, found);
        } else {
            assert(contexts == before.push(context));
            lemma_context_found(contexts, dir, before.len() as int);
        }
    } else {
        lemma_depsfile_stays(tree, opts, at, upto - 1);
        let k = context_index(before, dir, 0);
        match met {
            None => {},
            Some(context) => {
                if context.service.canonical != root {
                    let other = context.service.canonical;
                    lemma_context_index(before, other, 0);
                    let found = context_index(before, other, 0);
                    if found < before.len() {
                        let merged = merged_context(before[found], context, opts);
                        assert(contexts == before.update(found, merged));
                        if other == dir {
                            assert(found == k);
                            assert(merged == before[k]);
                        } else {
                            assert(found != k);
                            assert(merged.service.canonical == other);
                        }
                    } else {
                        assert(contexts == before.push(context));
                    }
                    lemma_context_found(contexts, dir, k);
                }
            },
        }
    }
}

/// Each of the contexts is a marker that the walk has come by.
proof fn lemma_contexts_from_walk(tree: FileTree, opts: Opts, upto: int, k: int) -> (at: int)
    requires
        0 <= k < contexts_of(tree, opts, upto).len(),
    ensures
        0 <= at < upto,
        marker_in_walk(tree, opts, at) == Some(contexts_of(tree, opts, upto)[k]),
    decreases upto,
{
    let root = opts.target.canonicalized@;
    let before = contexts_of(tree, opts, upto - 1);
    match marker_in_walk(tree, opts, upto - 1) {
        None => lemma_contexts_from_walk(tree, opts, upto - 1, k),
        Some(context) => {
            if context.service.canonical == root {
                lemma_contexts_from_walk(tree, opts, upto - 1, k)
            } else {
                let found = context_index(before, context.service.canonical, 0);
                lemma_context_index(before, context.service.canonical, 0);
                if found < before.len() {
                    if k == found && merged_context(before[found], context, opts) == context {
                        upto - 1
                    } else {
                        lemma_contexts_from_walk(tree, opts, upto - 1, k)
                    }
                } else if k == before.len() {
                    upto - 1
                } else {
                    lemma_contexts_from_walk(tree, opts, upto - 1, k)
                }
            }
        },
    }
}

/// Where the context at `k` stands for `dir` and none before it does,
/// `k` is the position that `context_index` finds.
proof fn lemma_context_found(contexts: Seq<ContextView>, dir: Seq<char>, k: int)
    requires
        0 <= k < contexts.len(),
        contexts[k].service.canonical == dir,
        forall|j: int| 0 <= j < k ==> (#[trigger] contexts[j]).service.canonical != dir,
    ensures
        context_index(contexts, dir, 0) == k,
{
    lemma_context_index(contexts, dir, 0);
}

/// A Depsfile takes precedence. Where the walk of the root comes by a
/// Depsfile in a directory other than the root, exactly one context
/// stands for that directory, and it is a Depsfile that the walk has
/// come by; and where the services can be had, exactly one of them
/// stands in that directory, the one that this Depsfile declares. This
/// holds whatever other markers the directory holds, and wherever in
/// the walk they come.
pub proof fn lemma_depsfile_takes_precedence(tree: FileTree, opts: Opts, at: int)
    requires
        0 <= at < tree.walk_positions(opts.target.canonicalized@).len(),
        marker_in_walk(tree, opts, at) is Some,
        marker_in_walk(tree, opts, at)->0.filetype == DepsfileType::Depsfile,
        marker_in_walk(tree, opts, at)->0.service.canonical != opts.target.canonicalized@,
    ensures
        ({
            let root = opts.target.canonicalized@;
            let dir = marker_in_walk(tree, opts, at)->0.service.canonical;
            let contexts = contexts_of(tree, opts, tree.walk_positions(root).len() as int);
            let k = context_index(contexts, dir, 0);
            &&& 0 <= k < contexts.len()
            &&& contexts[k].service.canonical == dir
            &&& contexts[k].filetype == DepsfileType::Depsfile
            &&& exists|seen: int|
                0 <= seen < tree.walk_positions(root).len() && #[trigger] marker_in_walk(
                    tree,
                    opts,
                    seen,
                ) == Some(contexts[k])
            &&& forall|j: int|
                0 <= j < contexts.len() && j != k ==> (#[trigger] contexts[j]).service.canonical
                    != dir
            &&& discovery(tree, opts) is Ok ==> {
                let services = discovery(tree, opts)->Ok_0;
                &&& services.len() == contexts.len()
                &&& services[k].path.canonical == dir
                &&& service_for(tree, opts, contexts[k], root) == Ok::<
                    ServiceView,
                    DiscoverError,
                >(services[k])
                &&& forall|j: int|
                    0 <= j < services.len() && j != k ==> (#[trigger] services[j]).path.canonical
                        != dir
            }
        }),
{
    let root = opts.target.canonicalized@;
    let upto = tree.walk_positions(root).len() as int;
    let dir = marker_in_walk(tree, opts, at)->0.service.canonical;
    let contexts = contexts_of(tree, opts, upto);
    lemma_depsfile_stays(tree, opts, at, upto);
    lemma_contexts_distinct(tree, opts, upto);
    lemma_services_follow_contexts(tree, opts, contexts, contexts.len() as int);
    let k = context_index(contexts, dir, 0);
    let seen = lemma_contexts_from_walk(tree, opts, upto, k);
    assert(marker_in_walk(tree, opts, seen) == Some(contexts[k]));
    assert forall|j: int| 0 <= j < contexts.len() && j != k implies (
    #[trigger] contexts[j]).service.canonical != dir by {
        if j < k {
            assert(contexts[j].service.canonical != contexts[k].service.canonical);
        } else {
            assert(contexts[k].service.canonical != contexts[j].service.canonical);
        }
    }
    if discovery(tree, opts) is Ok {
        let services = discovery(tree, opts)->Ok_0;
        assert forall|j: int| 0 <= j < services.len() && j != k implies (
        #[trigger] services[j]).path.canonical != dir by {
            assert(services[j].path == contexts[j].service);
        }
    }
}

/// Once a marker could not be loaded, further contexts do not help.
proof fn lemma_failure_stays(
    tree: FileTree,
    opts: Opts,
    contexts: Seq<ContextView>,
    from: int,
    upto: int,
)
    requires
        0 <= from <= upto,
        services_of(tree, opts, contexts, from) is Err,
    ensures
        services_of(tree, opts, contexts, upto) == services_of(tree, opts, contexts, from),
    decreases upto - from,
{
    if from < upto {
        lemma_failure_stays(tree, opts, contexts, from, upto - 1);
    }
}

/// Position of the first context for the service directory `dir`.
fn find_context(contexts: &Vec<ServiceContext>, dir: &str) -> (r: Option<usize>)
    ensures
        match r {
            Some(at) => at == context_index(context_views(contexts@), dir@, 0) && at
                < contexts@.len(),
            None => context_index(context_views(contexts@), dir@, 0) == contexts@.len(),
        },
{
    let mut i: usize = 0;
    while i < contexts.len()
        invariant
            i <= contexts.len(),
            context_index(context_views(contexts@), dir@, i as int) == context_index(
                context_views(contexts@),
                dir@,
                0,
            ),
        decreases contexts.len() - i,
    {
        assert(context_views(contexts@)[i as int] == contexts@[i as int]@);
        if str_eq(contexts[i].service_location.canonicalized.as_str(), dir) {
            return Some(i);
        }
        i = i + 1;
    }
    None
}

/// The markers that stand for services in the repository of `opts`.
fn collect_contexts<'a>(tree: &FileTree, root_dir: &'a str, opts: &Opts) -> (r: Vec<
    ServiceContext<'a>,
>)
    requires
        is_absolute(root_dir@),
        root_dir@ == opts.target.canonicalized@,
    ensures
        context_views(r@) == contexts_of(
            *tree,
            *opts,
            tree.walk_positions(root_dir@).len() as int,
        ),
        forall|k: int|
            0 <= k < r@.len() ==> (#[trigger] r@[k]).root_dir@ == root_dir@ && is_absolute(
                r@[k].service_location.canonicalized@,
            ),
{
    let walk = tree.walk(root_dir);
    let ghost positions = tree.walk_positions(root_dir@);
    let mut contexts: Vec<ServiceContext<'a>> = Vec::new();
    let mut i: usize = 0;
    assert(context_views(contexts@) =~= Seq::<ContextView>::empty());
    while i < walk.len()
        invariant
            i <= walk.len(),
            is_absolute(root_dir@),
            root_dir@ == opts.target.canonicalized@,
            positions == tree.walk_positions(root_dir@),
            walk@.len() == positions.len(),
            forall|k: int| 0 <= k < walk@.len() ==> walk@[k] == positions[k],
            forall|k: int|
                0 <= k < walk@.len() ==> (#[trigger] walk@[k]) < tree.entries@.len() && walked(
                    tree.entries@[walk@[k] as int].path@,
                    root_dir@,
                ),
            context_views(contexts@) == contexts_of(*tree, *opts, i as int),
            forall|k: int|
                0 <= k < contexts@.len() ==> (#[trigger] contexts@[k]).root_dir@ == root_dir@
                    && is_absolute(contexts@[k].service_location.canonicalized@),
        decreases walk.len() - i,
    {
        assert(walk@[i as int] == positions[i as int]);
        let entry = &tree.entries[walk[i]];
        proof {
            lemma_walked_absolute(entry.path@, root_dir@);
        }
        match ServiceContext::from_depsfile(tree, entry.path.as_str(), root_dir, opts) {
            Some(ctx) => {
                let dir = ctx.service_location.canonicalized.as_str();
                if !str_eq(dir, root_dir) {
                    let ghost before = context_views(contexts@);
                    match find_context(&contexts, dir) {
                        Some(at) => {
                            let mut existing = contexts.remove(at);
                            assert(existing@ == before[at as int]);
                            let ghost other = ctx@;
                            existing.merge(ctx, opts);
                            contexts.insert(at, existing);
                            assert(context_views(contexts@) =~= before.update(
                                at as int,
                                merged_context(before[at as int], other, *opts),
                            ));
                        },
                        None => {
                            assert(context_views(contexts@.push(ctx)) =~= before.push(ctx@));
                            contexts.push(ctx);
                        },
                    }
                }
            },
            None => {},
        }
        i = i + 1;
    }
    contexts
}

impl Service {
    /// Discovers the services of the repository of `opts` among the
    /// files `tree`. A walk of the root, which passes over what is hidden
    /// and over `node_modules`, finds the markers; each directory but the
    /// root itself that holds a marker is a service, declared by the
    /// marker that takes precedence. Fails where the marker of a service
    /// cannot be loaded. Every service has a directory of its own, other
    /// than the root, and no trigger.
    pub fn discover(tree: &FileTree, opts: &Opts) -> (r: Result<Vec<Service>, DiscoverError>)
        requires
            is_absolute(opts.target.canonicalized@),
        ensures
            is_discovery(r, discovery(*tree, *opts)),
            r is Ok ==> {
                let services = r->Ok_0@;
                &&& forall|i: int|
                    0 <= i < services.len() ==> (#[trigger] services[i]).path.canonicalized@
                        != opts.target.canonicalized@ && services[i].trigger is None
                &&& forall|i: int, j: int|
                    0 <= i < j < services.len() ==> (#[trigger] services[i]).path.canonicalized@
                        != (#[trigger] services[j]).path.canonicalized@
            },
    {
        let mut diagnostics: Vec<Diagnostic> = Vec::new();
        Service::discover_reporting(tree, opts, &mut diagnostics)
    }

    /// Discovers the services as `discover` does, and appends to
    /// `diagnostics` what was passed over on the way: what means nothing
    /// or does not compile in a marker, and the analyzers that gave up
    /// on a service.
    pub fn discover_reporting(
        tree: &FileTree,
        opts: &Opts,
        diagnostics: &mut Vec<Diagnostic>,
    ) -> (r: Result<Vec<Service>, DiscoverError>)
        requires
            is_absolute(opts.target.canonicalized@),
        ensures
            is_discovery(r, discovery(*tree, *opts)),
            r is Ok ==> {
                let services = r->Ok_0@;
                &&& forall|i: int|
                    0 <= i < services.len() ==> (#[trigger] services[i]).path.canonicalized@
                        != opts.target.canonicalized@ && services[i].trigger is None
                &&& forall|i: int, j: int|
                    0 <= i < j < services.len() ==> (#[trigger] services[i]).path.canonicalized@
                        != (#[trigger] services[j]).path.canonicalized@
            },
            r is Ok ==> diagnostic_views(final(diagnostics)@) == diagnostic_views(
                old(diagnostics)@,
            ) + discovery_diagnostics(*tree, *opts),
    {
        let ghost reported = diagnostic_views(diagnostics@);
        let analyzer = Analyzer::new(opts, tree);
        let root_dir = opts.target.canonicalized.as_str();
        let contexts = collect_contexts(tree, root_dir, opts);
        let ghost all = context_views(contexts@);
        let ghost n = contexts@.len();
        proof {
            lemma_contexts_distinct(*tree, *opts, tree.walk_positions(root_dir@).len() as int);
        }
        let mut pending = reversed(contexts);
        let mut services: Vec<Service> = Vec::new();
        assert(service_views(services@) =~= Seq::<ServiceView>::empty());
        assert(reported + diagnostics_of(*tree, *opts, all, 0) =~= reported);
        while pending.len() > 0
            invariant
                analyzer.wf(*tree, *opts),
                diagnostic_views(diagnostics@) == reported + diagnostics_of(
                    *tree,
                    *opts,
                    all,
                    n - pending@.len(),
                ),
                root_dir@ == opts.target.canonicalized@,
                is_absolute(root_dir@),
                n == all.len(),
                all == contexts_of(*tree, *opts, tree.walk_positions(root_dir@).len() as int),
                pending@.len() <= n,
                forall|i: int|
                    0 <= i < pending@.len() ==> (#[trigger] pending@[i])@ == all[n - 1 - i]
                        && pending@[i].root_dir@ == root_dir@ && is_absolute(
                        pending@[i].service_location.canonicalized@,
                    ),
                services_of(*tree, *opts, all, n - pending@.len()) == Ok::<
                    Seq<ServiceView>,
                    DiscoverError,
                >(service_views(services@)),
            decreases pending.len(),
        {
            let ghost at = n - pending@.len();
            match pending.pop() {
                Some(ctx) => {
                    assert(ctx@ == all[at]);
                    let ghost so_far = diagnostics_of(*tree, *opts, all, at);
                    let ghost added = service_diagnostics(*tree, *opts, all[at], root_dir@);
                    match Service::discover_service(&analyzer, ctx, tree, opts, diagnostics) {
                        Ok(service) => {
                            assert(diagnostic_views(diagnostics@) =~= reported + (so_far + added));
                            assert(service_views(services@.push(service)) =~= service_views(
                                services@,
                            ).push(service@));
                            services.push(service);
                        },
                        Err(e) => {
                            proof {
                                lemma_failure_stays(*tree, *opts, all, at + 1, n as int);
                            }
                            return Err(e);
                        },
                    }
                },
                None => {},
            }
        }
        proof {
            lemma_services_follow_contexts(*tree, *opts, all, n as int);
            let views = service_views(services@);
            assert forall|i: int| 0 <= i < services@.len() implies (
            #[trigger] services@[i]).path.canonicalized@ != opts.target.canonicalized@
                && services@[i].trigger is None by {
                assert(views[i] == services@[i]@);
                assert(views[i].path == all[i].service);
            }
            assert forall|i: int, j: int| 0 <= i < j < services@.len() implies (
            #[trigger] services@[i]).path.canonicalized@ != (
            #[trigger] services@[j]).path.canonicalized@ by {
                assert(views[i] == services@[i]@);
                assert(views[j] == services@[j]@);
                assert(views[i].path == all[i].service);
                assert(views[j].path == all[j].service);
            }
        }
        Ok(services)
    }

    /// The service at `path`: the one that the marker at `path`
    /// declares or, failing that, the first of `Depsfile`,
    /// `Buildfile.yaml`, `justfile` and `Makefile` in the directory
    /// `path` that is a marker. Fails with `NoServiceRoot` where none of
    /// these is a marker, and where the marker that is found cannot be loaded.
    pub fn try_determine(path: &str, tree: &FileTree, opts: &Opts) -> (r: Result<
        Service,
        DiscoverError,
    >)
        requires
            is_absolute(opts.target.canonicalized@),
        ensures
            is_service(r, determined(*tree, *opts, path@)),
    {
        let mut diagnostics: Vec<Diagnostic> = Vec::new();
        Service::try_determine_reporting(path, tree, opts, &mut diagnostics)
    }

    /// The service at `path` as `try_determine` gives it; what was
    /// passed over on the way is appended to `diagnostics`: what means
    /// nothing or does not compile in the marker, and the analyzers that
    /// gave up on the service.
    pub fn try_determine_reporting(
        path: &str,
        tree: &FileTree,
        opts: &Opts,
        diagnostics: &mut Vec<Diagnostic>,
    ) -> (r: Result<Service, DiscoverError>)
        requires
            is_absolute(opts.target.canonicalized@),
        ensures
            is_service(r, determined(*tree, *opts, path@)),
            r is Ok ==> diagnostic_views(final(diagnostics)@) == diagnostic_views(
                old(diagnostics)@,
            ) + determined_diagnostics(*tree, *opts, path@),
            r is Err ==> final(diagnostics)@ == old(diagnostics)@,
    {
        let analyzer = Analyzer::new(opts, tree);
        let root_dir = opts.target.canonicalized.as_str();
        let base = join(&to_chars(root_dir), &to_chars(path));
        let names: Vec<&str> = vec!["Depsfile", "Buildfile.yaml", "justfile", "Makefile"];
        assert(names@.len() == 4);
        let ghost candidates = marker_candidates(joined(root_dir@, path@));
        assert(candidates.len() == 5);
        let mut k: usize = 0;
        while k < 5
            invariant
                k <= 5,
                analyzer.wf(*tree, *opts),
                diagnostics@ == old(diagnostics)@,
                root_dir@ == opts.target.canonicalized@,
                is_absolute(root_dir@),
                base@ == joined(root_dir@, path@),
                candidates == marker_candidates(base@),
                names@.len() == 4,
                names@[0]@ == "Depsfile"@,
                names@[1]@ == "Buildfile.yaml"@,
                names@[2]@ == "justfile"@,
                names@[3]@ == "Makefile"@,
                first_marker(*tree, *opts, candidates, k as int) == first_marker(
                    *tree,
                    *opts,
                    candidates,
                    0,
                ),
            decreases 5 - k,
        {
            let full_path = if k == 0 {
                from_chars(&base)
            } else {
                from_chars(&join(&base, &to_chars(names[k - 1])))
            };
            assert(full_path@ == candidates[k as int]);
            assert(is_absolute(full_path@));
            match ServiceContext::from_depsfile(tree, full_path.as_str(), root_dir, opts) {
                Some(ctx) => {
                    return Service::discover_service(&analyzer, ctx, tree, opts, diagnostics);
                },
                None => {},
            }
            k = k + 1;
        }
        Err(DiscoverError::NoServiceRoot)
    }
}

/// Where the marker of the service at `base` may stand: at `base`
/// itself, or in the directory `base` under one of the names of a
/// marker, in the order of precedence.
pub open spec fn marker_candidates(base: Seq<char>) -> Seq<Seq<char>> {
    seq![
        base,
        joined(base, "Depsfile"@),
        joined(base, "Buildfile.yaml"@),
        joined(base, "justfile"@),
        joined(base, "Makefile"@),
    ]
}

/// The first of `candidates`, at or after `from`, at which a marker stands.
pub open spec fn first_marker(
    tree: FileTree,
    opts: Opts,
    candidates: Seq<Seq<char>>,
    from: int,
) -> Option<ContextView>
    decreases candidates.len() - from,
{
    if from < 0 || from >= candidates.len() {
        None
    } else {
        match context_at(tree, opts, candidates[from]) {
            Some(context) => Some(context),
            None => first_marker(tree, opts, candidates, from + 1),
        }
    }
}

/// The service at `path`, located below the root of the repository.
pub open spec fn determined(
    tree: FileTree,
    opts: Opts,
    path: Seq<char>,
) -> Result<ServiceView, DiscoverError> {
    let root = opts.target.canonicalized@;
    match first_marker(tree, opts, marker_candidates(joined(root, path)), 0) {
        Some(context) => service_for(tree, opts, context, root),
        None => Err(DiscoverError::NoServiceRoot),
    }
}

/// What is passed over while the service at `path` is determined.
pub open spec fn determined_diagnostics(tree: FileTree, opts: Opts, path: Seq<char>) -> Seq<
    DiagnosticView,
> {
    let root = opts.target.canonicalized@;
    match first_marker(tree, opts, marker_candidates(joined(root, path)), 0) {
        Some(context) => service_diagnostics(tree, opts, context, root),
        None => Seq::<DiagnosticView>::empty(),
    }
}

/// Discovery is a function of the files and the options: two runs over
/// the same files with the same options end alike, with services that
/// say the same.
pub proof fn lemma_discovery_is_stable(
    first: Result<Vec<Service>, DiscoverError>,
    second: Result<Vec<Service>, DiscoverError>,
    tree: FileTree,
    opts: Opts,
)
    requires
        is_discovery(first, discovery(tree, opts)),
        is_discovery(second, discovery(tree, opts)),
    ensures
        first is Ok == second is Ok,
        first is Ok ==> service_views(first->Ok_0@) == service_views(second->Ok_0@),
        first is Err ==> first->Err_0 == second->Err_0,
{
}

/// No two literal patterns among the discovered dependencies of a
/// service have the same canonical form: of those with one canonical
/// form only the first stays.
pub proof fn lemma_auto_dependencies_unique(
    service: ServiceView,
    tree: FileTree,
    opts: Opts,
    context: ContextView,
    root: Seq<char>,
)
    requires
        service_for(tree, opts, context, root) == Ok::<ServiceView, DiscoverError>(service),
    ensures
        forall|a: int, b: int|
            0 <= a < b < service.auto_dependencies.len() && (
            #[trigger] service.auto_dependencies[a]).pattern.regex is None && (
            #[trigger] service.auto_dependencies[b]).pattern.regex is None
                ==> service.auto_dependencies[a].pattern.raw.canonical
                != service.auto_dependencies[b].pattern.raw.canonical,
{
    let dir = context.service.canonical;
    let languages = service.languages;
    let found = discovered(tree, opts, languages, dir, languages.len() as int);
    lemma_kept_auto_distinct(found, dir, found.len() as int);
}

} // verus!
