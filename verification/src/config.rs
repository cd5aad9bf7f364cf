//! Configuration, dependency patterns, languages and the declarative
//! marker files.

use crate::path::{cleaned, is_absolute, joined, located, PathInfo, PathView};
use crate::text::{contains_char, from_chars, has_prefix, starts_with, str_eq, to_chars};
use crate::utils::{
    child_at, load_yaml, source_view, str_list_at, top_level, views, yaml_documents, LoadError,
    YamlEntry, YamlNode,
};
use vstd::prelude::*;
use vstd::string::StringExecFns;

pub use crate::marker::DepsfileType;

verus! {

/// Whether `regex::Regex::new` accepts `source` as a regular expression.
pub uninterp spec fn regex_valid(source: Seq<char>) -> bool;

/// Whether the regular expression compiled from `source` finds a match
/// anywhere in `text` (`regex::Regex::is_match`).
pub uninterp spec fn regex_matches(source: Seq<char>, text: Seq<char>) -> bool;

/// Calls `regex::Regex::new` and reports whether it accepted `source`.
#[verifier::external_body]
pub(crate) fn regex_compiles(source: &str) -> (r: bool)
    ensures
        r == regex_valid(source@),
{
    regex::Regex::new(source).is_ok()
}

/// Compiles `source` with `regex::Regex::new` and calls
/// `regex::Regex::is_match` on `text`. A source that does not compile
/// matches nothing.
#[verifier::external_body]
pub(crate) fn regex_is_match(source: &str, text: &str) -> (r: bool)
    ensures
        r == (regex_valid(source@) && regex_matches(source@, text@)),
{
    match regex::Regex::new(source) {
        Ok(compiled) => compiled.is_match(text),
        Err(_) => false,
    }
}

/// Settings read from the configuration file.
#[derive(Default, Debug, PartialEq)]
pub struct Config {
    pub auto_discovery: AutoDiscoveryConfig,
    pub global_dependencies: Vec<String>,
}

/// Hints for the language analyzers.
#[derive(Default, Debug, PartialEq)]
pub struct AutoDiscoveryConfig {
    pub go: GoDepsConfig,
    pub dotnet: DotnetConfig,
}

/// Import prefixes that mark a Go package as part of the repository.
#[derive(Default, Debug, PartialEq)]
pub struct GoDepsConfig {
    pub package_prefixes: Vec<String>,
}

/// Name prefixes of the referenced .NET projects that count as dependencies.
#[derive(Default, Debug, PartialEq)]
pub struct DotnetConfig {
    pub package_namespaces: Vec<String>,
}

/// An ecosystem for which dependencies can be discovered.
#[derive(Debug, Eq, PartialEq, Structural, Hash, Clone, Copy)]
pub enum Language {
    Golang,
    Dotnet,
    Flutter,
    Kustomize,
    JavaScript,
    Protobuf,
    Justfile,
}

/// The language that `name` stands for in a marker file.
pub open spec fn language_named(name: Seq<char>) -> Option<Language> {
    if name == "go"@ || name == "golang"@ {
        Some(Language::Golang)
    } else if name == "dotnet"@ || name == "csharp"@ {
        Some(Language::Dotnet)
    } else if name == "dart"@ || name == "flutter"@ {
        Some(Language::Flutter)
    } else if name == "kustomize"@ {
        Some(Language::Kustomize)
    } else {
        None
    }
}

impl Language {
    /// The language that `name` stands for, if it is one of the known names.
    pub fn from_name(name: &str) -> (r: Option<Language>)
        ensures
            r == language_named(name@),
    {
        if str_eq(name, "go") || str_eq(name, "golang") {
            Some(Language::Golang)
        } else if str_eq(name, "dotnet") || str_eq(name, "csharp") {
            Some(Language::Dotnet)
        } else if str_eq(name, "dart") || str_eq(name, "flutter") {
            Some(Language::Flutter)
        } else if str_eq(name, "kustomize") {
            Some(Language::Kustomize)
        } else {
            None
        }
    }

    /// The name under which the language is shown.
    pub open spec fn label_of(self) -> Seq<char> {
        match self {
            Language::Golang => "go"@,
            Language::Dotnet => "C#"@,
            Language::Flutter => "flutter"@,
            Language::Kustomize => "kustomize"@,
            Language::JavaScript => "javascript"@,
            Language::Protobuf => "protobuf"@,
            Language::Justfile => "justfile"@,
        }
    }

    /// The name under which the language is shown.
    pub fn label(&self) -> (r: &'static str)
        ensures
            r@ == self.label_of(),
    {
        match self {
            Language::Golang => "go",
            Language::Dotnet => "C#",
            Language::Flutter => "flutter",
            Language::Kustomize => "kustomize",
            Language::JavaScript => "javascript",
            Language::Protobuf => "protobuf",
            Language::Justfile => "justfile",
        }
    }
}

impl Config {
    /// Whether dependencies of `language` are to be discovered: Go only
    /// when package prefixes are configured, every other language always.
    pub fn auto_discovery_enabled(&self, language: &Language) -> (r: bool)
        ensures
            r == match *language {
                Language::Golang => self.auto_discovery.go.package_prefixes@.len() > 0,
                _ => true,
            },
    {
        match language {
            Language::Golang => self.auto_discovery.go.package_prefixes.len() > 0,
            Language::Dotnet => true,
            Language::Flutter => true,
            Language::Kustomize => true,
            Language::JavaScript => true,
            Language::Protobuf => true,
            Language::Justfile => true,
        }
    }
}

/// Why a dependency pattern was rejected.
#[derive(Debug, Clone, Copy, PartialEq, Eq)]
pub enum PatternError {
    /// The regular expression made from the glob does not compile.
    InvalidPattern,
}

/// Whether a dependency is written as a glob.
pub open spec fn is_glob(dependency: Seq<char>) -> bool {
    dependency.contains('?') || dependency.contains('*')
}

/// The regular expression that a glob stands for: `.` is a literal dot,
/// `**` any non-empty run of characters, `*` any non-empty run without a
/// path separator, `?` any one character; everything else is kept.
pub open spec fn glob_regex(glob: Seq<char>) -> Seq<char>
    decreases glob.len(),
{
    if glob.len() == 0 {
        Seq::<char>::empty()
    } else if glob[0] == '.' {
        seq!['\\', '.'] + glob_regex(glob.skip(1))
    } else if glob[0] == '*' && glob.len() >= 2 && glob[1] == '*' {
        seq!['.', '+'] + glob_regex(glob.skip(2))
    } else if glob[0] == '*' {
        seq!['[', '^', '/', '\\', '\\', ']', '+'] + glob_regex(glob.skip(1))
    } else if glob[0] == '?' {
        seq!['.'] + glob_regex(glob.skip(1))
    } else {
        seq![glob[0]] + glob_regex(glob.skip(1))
    }
}

/// The regular expression that a glob stands for.
pub fn to_glob_regex(glob: &Vec<char>) -> (r: Vec<char>)
    ensures
        r@ == glob_regex(glob@),
{
    let mut out: Vec<char> = Vec::new();
    let mut i: usize = 0;
    assert(glob@.skip(0) =~= glob@);
    while i < glob.len()
        invariant
            i <= glob.len(),
            out@ + glob_regex(glob@.skip(i as int)) == glob_regex(glob@),
        decreases glob.len() - i,
    {
        let c = glob[i];
        let ghost rest = glob@.skip(i as int);
        let ghost before = out@;
        assert(rest[0] == c);
        if c == '.' {
            out.push('\\');
            out.push('.');
            assert(rest.skip(1) =~= glob@.skip(i + 1));
            assert(out@ + glob_regex(rest.skip(1)) =~= before + (seq!['\\', '.'] + glob_regex(
                rest.skip(1),
            )));
            i = i + 1;
        } else if c == '*' && i + 1 < glob.len() && glob[i + 1] == '*' {
            out.push('.');
            out.push('+');
            assert(rest[1] == glob@[i + 1]);
            assert(rest.skip(2) =~= glob@.skip(i + 2));
            assert(out@ + glob_regex(rest.skip(2)) =~= before + (seq!['.', '+'] + glob_regex(
                rest.skip(2),
            )));
            i = i + 2;
        } else if c == '*' {
            out.push('[');
            out.push('^');
            out.push('/');
            out.push('\\');
            out.push('\\');
            out.push(']');
            out.push('+');
            assert(rest.len() >= 2 ==> rest[1] == glob@[i + 1]);
            assert(rest.skip(1) =~= glob@.skip(i + 1));
            assert(out@ + glob_regex(rest.skip(1)) =~= before + (seq![
                '[',
                '^',
                '/',
                '\\',
                '\\',
                ']',
                '+',
            ] + glob_regex(rest.skip(1))));
            i = i + 1;
        } else if c == '?' {
            out.push('.');
            assert(rest.skip(1) =~= glob@.skip(i + 1));
            assert(out@ + glob_regex(rest.skip(1)) =~= before + (seq!['.'] + glob_regex(
                rest.skip(1),
            )));
            i = i + 1;
        } else {
            out.push(c);
            assert(rest.skip(1) =~= glob@.skip(i + 1));
            assert(out@ + glob_regex(rest.skip(1)) =~= before + (seq![c] + glob_regex(
                rest.skip(1),
            )));
            i = i + 1;
        }
    }
    assert(out@ + glob_regex(glob@.skip(glob.len() as int)) =~= out@);
    out
}

/// Whether a dependency can be compiled: a literal always, a glob when its
/// regular expression compiles.
pub open spec fn compilable(dependency: Seq<char>) -> bool {
    !is_glob(dependency) || regex_valid(glob_regex(dependency))
}

/// `p` is the literal pattern for `path`, declared for `dir`.
pub open spec fn literal_from(p: DepPattern, path: Seq<char>, dir: Seq<char>) -> bool {
    &&& p.pattern is None
    &&& p.raw.display_path@ == path
    &&& exists|resolved: Option<Seq<char>>|
        p.raw.canonicalized@ == #[trigger] located(dir, path, resolved)
    &&& is_absolute(joined(dir, path)) ==> p@ == literal_view(path, dir) && is_absolute(
        p.raw.canonicalized@,
    )
}

/// The literal pattern for `path`, declared for a `dir` that makes the
/// joined path absolute.
pub open spec fn literal_view(path: Seq<char>, dir: Seq<char>) -> PatternView {
    PatternView {
        raw: PathView { display: path, canonical: cleaned(joined(dir, path)) },
        regex: None,
    }
}

/// What `dependency` compiles to, declared for a `root` that makes the
/// joined path absolute.
pub open spec fn compiled_view(dependency: Seq<char>, root: Seq<char>) -> PatternView {
    PatternView {
        raw: PathView { display: dependency, canonical: cleaned(joined(root, dependency)) },
        regex: if is_glob(dependency) {
            Some(glob_regex(dependency))
        } else {
            None
        },
    }
}

/// A dependency pattern with its texts as sequences of characters.
pub struct PatternView {
    pub raw: PathView,
    pub regex: Option<Seq<char>>,
}

impl View for DepPattern {
    type V = PatternView;

    open spec fn view(&self) -> PatternView {
        PatternView {
            raw: self.raw@,
            regex: match self.pattern {
                Some(source) => Some(source@),
                None => None,
            },
        }
    }
}

/// What each pattern says.
pub open spec fn pattern_views(patterns: Seq<DepPattern>) -> Seq<PatternView> {
    patterns.map_values(|p: DepPattern| p@)
}

impl PatternView {
    /// The pattern as text: the regular expression of a glob, the
    /// canonical form of a literal.
    pub open spec fn text(self) -> Seq<char> {
        match self.regex {
            Some(source) => source,
            None => self.raw.canonical,
        }
    }

    /// Whether the pattern applies to `path`.
    pub open spec fn matches(self, path: Seq<char>) -> bool {
        match self.regex {
            Some(source) => regex_valid(source) && regex_matches(source, path),
            None => has_prefix(path, self.raw.canonical),
        }
    }
}

/// `p` is what `dependency`, declared for `root`, compiles to.
pub open spec fn compiled_from(p: DepPattern, dependency: Seq<char>, root: Seq<char>) -> bool {
    &&& p.raw.display_path@ == dependency
    &&& exists|resolved: Option<Seq<char>>|
        p.raw.canonicalized@ == #[trigger] located(root, dependency, resolved)
    &&& is_absolute(joined(root, dependency)) ==> p@ == compiled_view(dependency, root)
        && is_absolute(p.raw.canonicalized@)
    &&& is_glob(dependency) ==> p.pattern is Some && p.pattern->0@ == glob_regex(dependency)
    &&& !is_glob(dependency) ==> p.pattern is None
}

/// The dependencies among `names` that can be compiled, in order.
pub open spec fn accepted(names: Seq<Seq<char>>) -> Seq<Seq<char>>
    decreases names.len(),
{
    if names.len() == 0 {
        Seq::<Seq<char>>::empty()
    } else if compilable(names.last()) {
        accepted(names.drop_last()).push(names.last())
    } else {
        accepted(names.drop_last())
    }
}

/// `patterns` are what the compilable ones among `names` compile to, in order.
pub open spec fn compiled_list(
    patterns: Seq<DepPattern>,
    names: Seq<Seq<char>>,
    root: Seq<char>,
) -> bool {
    &&& patterns.len() == accepted(names).len()
    &&& forall|i: int|
        0 <= i < patterns.len() ==> compiled_from(#[trigger] patterns[i], accepted(names)[i], root)
}

/// The literal pattern for each of `names`, declared for the absolute `dir`.
pub open spec fn literal_views(names: Seq<Seq<char>>, dir: Seq<char>) -> Seq<PatternView> {
    names.map_values(|name: Seq<char>| literal_view(name, dir))
}

/// `patterns` are the literal patterns for `names`, declared for `dir`, in order.
pub open spec fn literal_list(
    patterns: Seq<DepPattern>,
    names: Seq<Seq<char>>,
    dir: Seq<char>,
) -> bool {
    &&& patterns.len() == names.len()
    &&& forall|i: int|
        0 <= i < patterns.len() ==> literal_from(#[trigger] patterns[i], names[i], dir)
}

/// Literal patterns that are declared for an absolute directory say
/// what `literal_views` says.
pub proof fn lemma_literal_views(patterns: Seq<DepPattern>, names: Seq<Seq<char>>, dir: Seq<char>)
    requires
        is_absolute(dir),
        literal_list(patterns, names, dir),
    ensures
        pattern_views(patterns) == literal_views(names, dir),
{
    assert forall|i: int| 0 <= i < patterns.len() implies (#[trigger] patterns[i])@
        == literal_view(names[i], dir) by {
        assert(literal_from(patterns[i], names[i], dir));
        assert(is_absolute(joined(dir, names[i])));
    }
    assert(pattern_views(patterns) =~= literal_views(names, dir));
}

/// What each of the compilable ones among `names` compiles to,
/// declared for the absolute `root`.
pub open spec fn compiled_views(names: Seq<Seq<char>>, root: Seq<char>) -> Seq<PatternView> {
    accepted(names).map_values(|name: Seq<char>| compiled_view(name, root))
}

/// Patterns that are compiled for an absolute root say what
/// `compiled_views` says.
pub proof fn lemma_compiled_views(patterns: Seq<DepPattern>, names: Seq<Seq<char>>, root: Seq<char>)
    requires
        is_absolute(root),
        compiled_list(patterns, names, root),
    ensures
        pattern_views(patterns) == compiled_views(names, root),
{
    assert forall|i: int| 0 <= i < patterns.len() implies (#[trigger] patterns[i])@
        == compiled_view(accepted(names)[i], root) by {
        assert(compiled_from(patterns[i], accepted(names)[i], root));
        assert(is_absolute(joined(root, accepted(names)[i])));
    }
    assert(pattern_views(patterns) =~= compiled_views(names, root));
}

/// The languages that the known ones among `names` stand for, in order.
pub open spec fn known_languages(names: Seq<Seq<char>>) -> Seq<Language>
    decreases names.len(),
{
    if names.len() == 0 {
        Seq::<Language>::empty()
    } else {
        match language_named(names.last()) {
            Some(language) => known_languages(names.drop_last()).push(language),
            None => known_languages(names.drop_last()),
        }
    }
}

/// A compiled dependency: either a literal canonical prefix, or a regular
/// expression made from a glob.
#[derive(Debug, Clone)]
pub struct DepPattern {
    /// The dependency as written, located below the directory it was declared for.
    pub raw: PathInfo,
    /// The regular expression of a glob; `None` for a literal prefix.
    pub pattern: Option<String>,
}

impl DepPattern {
    /// Whether the pattern applies to `path`: a glob when its regular
    /// expression finds a match anywhere in `path`, a literal when `path`
    /// begins with its canonical form.
    pub open spec fn matches(&self, path: Seq<char>) -> bool {
        match self.pattern {
            Some(source) => regex_valid(source@) && regex_matches(source@, path),
            None => has_prefix(path, self.raw.canonicalized@),
        }
    }

    /// Whether the pattern is a literal that lies at or below `dir`.
    pub open spec fn child_of(&self, dir: Seq<char>) -> bool {
        self.pattern is None && has_prefix(self.raw.canonicalized@, dir)
    }

    /// The canonical form of a literal pattern.
    pub open spec fn key(&self) -> Option<Seq<char>> {
        match self.pattern {
            Some(_) => None,
            None => Some(self.raw.canonicalized@),
        }
    }

    /// Compiles `dependency`, declared for `root_dir`. A dependency with
    /// `?` or `*` in it is a glob and is rejected when its regular
    /// expression does not compile; every other one is a literal.
    pub fn new(dependency: &str, root_dir: &str) -> (r: Result<DepPattern, PatternError>)
        ensures
            r is Ok <==> compilable(dependency@),
            r is Err ==> r == Err::<DepPattern, PatternError>(PatternError::InvalidPattern),
            r is Ok ==> compiled_from(r->Ok_0, dependency@, root_dir@),
    {
        let chars = to_chars(dependency);
        let pattern = if contains_char(&chars, '?') || contains_char(&chars, '*') {
            let source = from_chars(&to_glob_regex(&chars));
            if !regex_compiles(source.as_str()) {
                return Err(PatternError::InvalidPattern);
            }
            Some(source)
        } else {
            None
        };
        let raw = PathInfo::locate(dependency, root_dir);
        Ok(DepPattern { raw, pattern })
    }

    /// The literal pattern for `path`, declared for `dir`, whatever
    /// characters `path` holds.
    pub fn literal(path: &str, dir: &str) -> (r: DepPattern)
        ensures
            literal_from(r, path@, dir@),
    {
        DepPattern { raw: PathInfo::locate(path, dir), pattern: None }
    }

    /// The literal pattern for `path`, declared for `dir`, as `literal`
    /// gives it. This never fails.
    pub fn plain(path: &str, dir: &str) -> (r: Result<DepPattern, PatternError>)
        ensures
            r is Ok,
            literal_from(r->Ok_0, path@, dir@),
    {
        Ok(DepPattern::literal(path, dir))
    }

    /// A copy of this pattern.
    pub fn duplicate(&self) -> (r: DepPattern)
        ensures
            r == *self,
            r@ == self@,
    {
        DepPattern {
            raw: self.raw.duplicate(),
            pattern: match &self.pattern {
                Some(source) => Some(source.clone()),
                None => None,
            },
        }
    }

    /// Whether the pattern applies to `path`.
    pub fn is_match(&self, path: &str) -> (r: bool)
        ensures
            r == self.matches(path@),
    {
        match &self.pattern {
            Some(source) => regex_is_match(source.as_str(), path),
            None => {
                let text = to_chars(path);
                let prefix = to_chars(self.raw.canonicalized.as_str());
                starts_with(&text, &prefix)
            },
        }
    }

    /// Whether the pattern is a literal whose canonical form begins with
    /// `canonicalized_path`; never for a glob.
    pub fn is_child_of(&self, canonicalized_path: &str) -> (r: bool)
        ensures
            r == self.child_of(canonicalized_path@),
    {
        match &self.pattern {
            Some(_) => false,
            None => {
                let own = to_chars(self.raw.canonicalized.as_str());
                let dir = to_chars(canonicalized_path);
                starts_with(&own, &dir)
            },
        }
    }

    /// The canonical form of a literal pattern, by which duplicates are
    /// told; `None` for a glob.
    pub fn hash(&self) -> (r: Option<&str>)
        ensures
            r is Some == self.key() is Some,
            r is Some ==> r->0@ == self.key()->0,
    {
        match &self.pattern {
            Some(_) => None,
            None => Some(self.raw.canonicalized.as_str()),
        }
    }

    /// The pattern as text: the regular expression of a glob, the
    /// canonical form of a literal.
    pub fn to_text(&self) -> (r: String)
        ensures
            r@ == self@.text(),
    {
        match &self.pattern {
            Some(source) => source.clone(),
            None => self.raw.canonicalized.clone(),
        }
    }
}

/// Compiles each of `names`, declared for `root_dir`, and keeps those
/// that compile.
pub fn compile_all(names: &Vec<String>, root_dir: &str) -> (r: Vec<DepPattern>)
    ensures
        compiled_list(r@, views(names@), root_dir@),
{
    let mut out: Vec<DepPattern> = Vec::new();
    let mut i: usize = 0;
    assert(views(names@).take(0) =~= Seq::<Seq<char>>::empty());
    while i < names.len()
        invariant
            i <= names.len(),
            compiled_list(out@, views(names@).take(i as int), root_dir@),
        decreases names.len() - i,
    {
        assert(views(names@).take(i + 1).drop_last() =~= views(names@).take(i as int));
        assert(views(names@).take(i + 1).last() == names@[i as int]@);
        match DepPattern::new(names[i].as_str(), root_dir) {
            Ok(pattern) => {
                out.push(pattern);
            },
            Err(_) => {},
        }
        i = i + 1;
    }
    assert(views(names@).take(names.len() as int) =~= views(names@));
    out
}

/// The literal pattern for each of `names`, declared for `dir`.
pub fn plain_all(names: &Vec<String>, dir: &str) -> (r: Vec<DepPattern>)
    ensures
        literal_list(r@, views(names@), dir@),
        is_absolute(dir@) ==> pattern_views(r@) == literal_views(views(names@), dir@),
{
    let mut out: Vec<DepPattern> = Vec::new();
    let mut i: usize = 0;
    while i < names.len()
        invariant
            i <= names.len(),
            out@.len() == i,
            forall|k: int| 0 <= k < i ==> literal_from(#[trigger] out@[k], names@[k]@, dir@),
        decreases names.len() - i,
    {
        out.push(DepPattern::literal(names[i].as_str(), dir));
        i = i + 1;
    }
    proof {
        assert(literal_list(out@, views(names@), dir@));
        if is_absolute(dir@) {
            lemma_literal_views(out@, views(names@), dir@);
        }
    }
    out
}

/// The languages that the known ones among `names` stand for, in order.
pub fn parse_languages(names: &Vec<String>) -> (r: Vec<Language>)
    ensures
        r@ == known_languages(views(names@)),
{
    let mut out: Vec<Language> = Vec::new();
    let mut i: usize = 0;
    assert(views(names@).take(0) =~= Seq::<Seq<char>>::empty());
    while i < names.len()
        invariant
            i <= names.len(),
            out@ == known_languages(views(names@).take(i as int)),
        decreases names.len() - i,
    {
        assert(views(names@).take(i + 1).drop_last() =~= views(names@).take(i as int));
        assert(views(names@).take(i + 1).last() == names@[i as int]@);
        match Language::from_name(names[i].as_str()) {
            Some(language) => {
                out.push(language);
            },
            None => {},
        }
        i = i + 1;
    }
    assert(views(names@).take(names.len() as int) =~= views(names@));
    out
}

/// What a marker file declares: dependencies and languages, in the order written.
#[derive(Debug)]
pub struct Depsfile {
    pub dependencies: Vec<DepPattern>,
    pub languages: Vec<Language>,
}

/// The dependencies that a marker file of kind `kind` with the text
/// `text` names: the `dependencies` of a Depsfile, the `spec.dependsOn` of
/// a Buildfile, none for the other kinds.
pub open spec fn declared_dependencies(kind: DepsfileType, text: Seq<char>) -> Seq<Seq<char>> {
    match kind {
        DepsfileType::Depsfile => top_level(text, "dependencies"@).str_list(),
        DepsfileType::Buildfile => top_level(text, "spec"@).child("dependsOn"@).str_list(),
        _ => Seq::<Seq<char>>::empty(),
    }
}

/// The languages that a marker file of kind `kind` with the text `text`
/// names: the known ones among the `languages` of a Depsfile, the
/// `metadata.builder` of a Buildfile where it is a known name, none for
/// the other kinds.
pub open spec fn declared_languages(kind: DepsfileType, text: Seq<char>) -> Seq<Language> {
    match kind {
        DepsfileType::Depsfile => known_languages(top_level(text, "languages"@).str_list()),
        DepsfileType::Buildfile => match top_level(text, "metadata"@).child("builder"@).text() {
            Some(name) => match language_named(name) {
                Some(language) => seq![language],
                None => Seq::<Language>::empty(),
            },
            None => Seq::<Language>::empty(),
        },
        _ => Seq::<Language>::empty(),
    }
}

/// Whether `r` is what loading a marker file of kind `kind` gives. A
/// justfile or Makefile declares nothing, whatever it holds. A Depsfile or
/// Buildfile that is not there fails with `NotFound`, one that is not
/// well-formed YAML with `Parse`; otherwise it declares the dependencies
/// that compile and the languages that are known, in the order written.
pub open spec fn is_marker_load(
    r: Result<Depsfile, LoadError>,
    kind: DepsfileType,
    source: Option<Seq<char>>,
    root: Seq<char>,
) -> bool {
    match kind {
        DepsfileType::Justfile | DepsfileType::Makefile => {
            &&& r is Ok
            &&& r->Ok_0.dependencies@.len() == 0
            &&& r->Ok_0.languages@.len() == 0
        },
        _ => match source {
            None => r == Err::<Depsfile, LoadError>(LoadError::NotFound),
            Some(text) => if yaml_documents(text) is None {
                r == Err::<Depsfile, LoadError>(LoadError::Parse)
            } else {
                &&& r is Ok
                &&& r->Ok_0.languages@ == declared_languages(kind, text)
                &&& compiled_list(r->Ok_0.dependencies@, declared_dependencies(kind, text), root)
            },
        },
    }
}

impl Depsfile {
    /// Loads what a marker file of kind `file_type` declares from the
    /// file's text; `None` stands for a file that is not there.
    /// Dependencies are declared for `root_dir`.
    pub fn load(file_type: DepsfileType, source: Option<&str>, root_dir: &str) -> (r: Result<
        Depsfile,
        LoadError,
    >)
        ensures
            is_marker_load(r, file_type, source_view(source), root_dir@),
    {
        match file_type {
            DepsfileType::Depsfile => {
                match load_yaml(source) {
                    Ok(document) => Ok(Depsfile::depsfile_from_yaml(&document, root_dir)),
                    Err(e) => Err(e),
                }
            },
            DepsfileType::Buildfile => {
                match load_yaml(source) {
                    Ok(document) => Ok(Depsfile::buildfile_from_yaml(&document, root_dir)),
                    Err(e) => Err(e),
                }
            },
            DepsfileType::Justfile => Ok(Depsfile::empty()),
            DepsfileType::Makefile => Ok(Depsfile::empty()),
        }
    }

    /// A marker that declares nothing.
    pub fn empty() -> (r: Depsfile)
        ensures
            r.dependencies@.len() == 0,
            r.languages@.len() == 0,
    {
        Depsfile { dependencies: Vec::new(), languages: Vec::new() }
    }

    /// What the document of a Depsfile declares: the known names under
    /// `languages`, and the dependencies under `dependencies` that compile.
    pub fn depsfile_from_yaml(config_yaml: &YamlNode, root_dir: &str) -> (r: Depsfile)
        ensures
            r.languages@ == known_languages(config_yaml.child("languages"@).str_list()),
            compiled_list(
                r.dependencies@,
                config_yaml.child("dependencies"@).str_list(),
                root_dir@,
            ),
    {
        let language_names = str_list_at(config_yaml.get("languages"));
        let languages = parse_languages(&language_names);
        let dep_patterns = str_list_at(config_yaml.get("dependencies"));
        let dependencies = compile_all(&dep_patterns, root_dir);
        Depsfile { dependencies, languages }
    }

    /// What the document of a Buildfile declares: the language named by
    /// `metadata.builder`, where that is a known name, and the
    /// dependencies under `spec.dependsOn` that compile.
    pub fn buildfile_from_yaml(config_yaml: &YamlNode, root_dir: &str) -> (r: Depsfile)
        ensures
            r.languages@ == (match config_yaml.child("metadata"@).child("builder"@).text() {
                Some(name) => match language_named(name) {
                    Some(language) => seq![language],
                    None => Seq::<Language>::empty(),
                },
                None => Seq::<Language>::empty(),
            }),
            compiled_list(
                r.dependencies@,
                config_yaml.child("spec"@).child("dependsOn"@).str_list(),
                root_dir@,
            ),
    {
        let spec = config_yaml.get("spec");
        let dep_patterns = str_list_at(child_at(spec, "dependsOn"));
        let metadata = config_yaml.get("metadata");
        let mut languages: Vec<Language> = Vec::new();
        match child_at(metadata, "builder") {
            Some(builder) => match builder.as_str() {
                Some(name) => match Language::from_name(name) {
                    Some(language) => {
                        languages.push(language);
                        assert(languages@ =~= seq![language]);
                    },
                    None => {},
                },
                None => {},
            },
            None => {},
        }
        let dependencies = compile_all(&dep_patterns, root_dir);
        Depsfile { dependencies, languages }
    }
}

/// Something in a marker file that is passed over.
#[derive(Debug, Clone, PartialEq)]
pub enum MarkerWarning {
    /// A name under `languages` that stands for no language.
    UnknownLanguage(String),
    /// A dependency that does not compile.
    InvalidDependency(String),
    /// A key at the top of the document that means nothing.
    UnknownKey(String),
}

/// A `MarkerWarning` with its text as a sequence of characters.
pub enum WarningView {
    UnknownLanguage(Seq<char>),
    InvalidDependency(Seq<char>),
    UnknownKey(Seq<char>),
}

impl View for MarkerWarning {
    type V = WarningView;

    open spec fn view(&self) -> WarningView {
        match self {
            MarkerWarning::UnknownLanguage(name) => WarningView::UnknownLanguage(name@),
            MarkerWarning::InvalidDependency(name) => WarningView::InvalidDependency(name@),
            MarkerWarning::UnknownKey(name) => WarningView::UnknownKey(name@),
        }
    }
}

/// What each warning says.
pub open spec fn warning_views(warnings: Seq<MarkerWarning>) -> Seq<WarningView> {
    warnings.map_values(|w: MarkerWarning| w@)
}

impl WarningView {
    /// The warning in words.
    pub open spec fn text(self) -> Seq<char> {
        match self {
            WarningView::UnknownLanguage(name) => "unknown language: "@ + name,
            WarningView::InvalidDependency(name) => "invalid dependency '"@ + name + "'"@,
            WarningView::UnknownKey(name) => "unknown configuration '"@ + name + "'"@,
        }
    }
}

impl MarkerWarning {
    /// A copy of this warning.
    pub fn duplicate(&self) -> (r: MarkerWarning)
        ensures
            r@ == self@,
    {
        match self {
            MarkerWarning::UnknownLanguage(name) => MarkerWarning::UnknownLanguage(name.clone()),
            MarkerWarning::InvalidDependency(name) => MarkerWarning::InvalidDependency(
                name.clone(),
            ),
            MarkerWarning::UnknownKey(name) => MarkerWarning::UnknownKey(name.clone()),
        }
    }

    /// The warning in words.
    pub fn to_text(&self) -> (r: String)
        ensures
            r@ == self@.text(),
    {
        match self {
            MarkerWarning::UnknownLanguage(name) => {
                let mut out = "unknown language: ".to_owned();
                out.append(name.as_str());
                out
            },
            MarkerWarning::InvalidDependency(name) => {
                let mut out = "invalid dependency '".to_owned();
                out.append(name.as_str());
                out.append("'");
                out
            },
            MarkerWarning::UnknownKey(name) => {
                let mut out = "unknown configuration '".to_owned();
                out.append(name.as_str());
                out.append("'");
                out
            },
        }
    }
}

/// A warning for each of `names` that stands for no language, in order.
pub open spec fn unknown_languages(names: Seq<Seq<char>>) -> Seq<WarningView>
    decreases names.len(),
{
    if names.len() == 0 {
        Seq::<WarningView>::empty()
    } else if language_named(names.last()) is None {
        unknown_languages(names.drop_last()).push(WarningView::UnknownLanguage(names.last()))
    } else {
        unknown_languages(names.drop_last())
    }
}

/// A warning for each of `names` that does not compile, in order.
pub open spec fn rejected(names: Seq<Seq<char>>) -> Seq<WarningView>
    decreases names.len(),
{
    if names.len() == 0 {
        Seq::<WarningView>::empty()
    } else if !compilable(names.last()) {
        rejected(names.drop_last()).push(WarningView::InvalidDependency(names.last()))
    } else {
        rejected(names.drop_last())
    }
}

/// A warning for each of the keys of `entries` that is a string other
/// than `languages` and `dependencies`, in order.
pub open spec fn unknown_keys(entries: Seq<YamlEntry>) -> Seq<WarningView>
    decreases entries.len(),
{
    if entries.len() == 0 {
        Seq::<WarningView>::empty()
    } else {
        let before = unknown_keys(entries.drop_last());
        match entries.last().key.text() {
            Some(key) => if key == "languages"@ || key == "dependencies"@ {
                before
            } else {
                before.push(WarningView::UnknownKey(key))
            },
            None => before,
        }
    }
}

/// What is passed over in the document of a marker of kind `kind`. In a
/// Depsfile: the names under `languages` that stand for no language,
/// then the dependencies that do not compile, then the keys that mean
/// nothing. In a Buildfile: the dependencies that do not compile.
pub open spec fn document_warnings(kind: DepsfileType, document: YamlNode) -> Seq<WarningView> {
    match kind {
        DepsfileType::Depsfile => unknown_languages(document.child("languages"@).str_list())
            + rejected(document.child("dependencies"@).str_list()) + unknown_keys(
            document.entries(),
        ),
        DepsfileType::Buildfile => rejected(
            document.child("spec"@).child("dependsOn"@).str_list(),
        ),
        _ => Seq::<WarningView>::empty(),
    }
}

/// A warning for each of `names` that stands for no language.
fn find_unknown_languages(names: &Vec<String>, out: &mut Vec<MarkerWarning>)
    ensures
        warning_views(final(out)@) == warning_views(old(out)@) + unknown_languages(views(names@)),
{
    let ghost before = warning_views(out@);
    let ghost all = views(names@);
    let mut i: usize = 0;
    assert(all.take(0) =~= Seq::<Seq<char>>::empty());
    assert(before + unknown_languages(all.take(0)) =~= before);
    while i < names.len()
        invariant
            i <= names.len(),
            all == views(names@),
            warning_views(out@) == before + unknown_languages(all.take(i as int)),
        decreases names.len() - i,
    {
        assert(all.take(i + 1).drop_last() =~= all.take(i as int));
        assert(all.take(i + 1).last() == names@[i as int]@);
        if Language::from_name(names[i].as_str()).is_none() {
            let warning = MarkerWarning::UnknownLanguage(names[i].clone());
            assert(warning_views(out@.push(warning)) =~= warning_views(out@).push(warning@));
            assert((before + unknown_languages(all.take(i as int))).push(warning@) =~= before
                + unknown_languages(all.take(i as int)).push(warning@));
            out.push(warning);
        }
        i = i + 1;
    }
    assert(all.take(names.len() as int) =~= all);
}

/// A warning for each of `names` that does not compile.
fn find_rejected(names: &Vec<String>, out: &mut Vec<MarkerWarning>)
    ensures
        warning_views(final(out)@) == warning_views(old(out)@) + rejected(views(names@)),
{
    let ghost before = warning_views(out@);
    let ghost all = views(names@);
    let mut i: usize = 0;
    assert(all.take(0) =~= Seq::<Seq<char>>::empty());
    assert(before + rejected(all.take(0)) =~= before);
    while i < names.len()
        invariant
            i <= names.len(),
            all == views(names@),
            warning_views(out@) == before + rejected(all.take(i as int)),
        decreases names.len() - i,
    {
        assert(all.take(i + 1).drop_last() =~= all.take(i as int));
        assert(all.take(i + 1).last() == names@[i as int]@);
        if !is_compilable(names[i].as_str()) {
            let warning = MarkerWarning::InvalidDependency(names[i].clone());
            assert(warning_views(out@.push(warning)) =~= warning_views(out@).push(warning@));
            assert((before + rejected(all.take(i as int))).push(warning@) =~= before + rejected(
                all.take(i as int),
            ).push(warning@));
            out.push(warning);
        }
        i = i + 1;
    }
    assert(all.take(names.len() as int) =~= all);
}

/// A warning for each key of `document` that means nothing.
fn find_unknown_keys(document: &YamlNode, out: &mut Vec<MarkerWarning>)
    ensures
        warning_views(final(out)@) == warning_views(old(out)@) + unknown_keys(document.entries()),
{
    let ghost before = warning_views(out@);
    let entries = match document.as_hash() {
        Some(entries) => entries,
        None => {
            assert(before + unknown_keys(document.entries()) =~= before);
            return ;
        },
    };
    let mut i: usize = 0;
    assert(entries@.take(0) =~= Seq::<YamlEntry>::empty());
    assert(before + unknown_keys(entries@.take(0)) =~= before);
    while i < entries.len()
        invariant
            i <= entries.len(),
            warning_views(out@) == before + unknown_keys(entries@.take(i as int)),
        decreases entries.len() - i,
    {
        assert(entries@.take(i + 1).drop_last() =~= entries@.take(i as int));
        assert(entries@.take(i + 1).last() == entries@[i as int]);
        match entries[i].key.as_str() {
            Some(key) => {
                if !str_eq(key, "languages") && !str_eq(key, "dependencies") {
                    let warning = MarkerWarning::UnknownKey(key.to_owned());
                    assert(warning_views(out@.push(warning)) =~= warning_views(out@).push(
                        warning@,
                    ));
                    assert((before + unknown_keys(entries@.take(i as int))).push(warning@)
                        =~= before + unknown_keys(entries@.take(i as int)).push(warning@));
                    out.push(warning);
                }
            },
            None => {},
        }
        i = i + 1;
    }
    assert(entries@.take(entries.len() as int) =~= entries@);
}

/// Whether a dependency can be compiled.
pub fn is_compilable(dependency: &str) -> (r: bool)
    ensures
        r == compilable(dependency@),
{
    let chars = to_chars(dependency);
    if contains_char(&chars, '?') || contains_char(&chars, '*') {
        let source = from_chars(&to_glob_regex(&chars));
        regex_compiles(source.as_str())
    } else {
        true
    }
}

impl Depsfile {
    /// What is passed over when the document of a marker of kind
    /// `file_type` is read: what stands for nothing and what does not compile.
    pub fn warnings(file_type: DepsfileType, document: &YamlNode) -> (r: Vec<MarkerWarning>)
        ensures
            warning_views(r@) == document_warnings(file_type, *document),
    {
        let mut out: Vec<MarkerWarning> = Vec::new();
        assert(warning_views(out@) =~= Seq::<WarningView>::empty());
        match file_type {
            DepsfileType::Depsfile => {
                let names = str_list_at(document.get("languages"));
                find_unknown_languages(&names, &mut out);
                let dependencies = str_list_at(document.get("dependencies"));
                find_rejected(&dependencies, &mut out);
                find_unknown_keys(document, &mut out);
                assert(warning_views(out@) =~= document_warnings(file_type, *document));
            },
            DepsfileType::Buildfile => {
                let dependencies = str_list_at(child_at(document.get("spec"), "dependsOn"));
                find_rejected(&dependencies, &mut out);
                assert(warning_views(out@) =~= document_warnings(file_type, *document));
            },
            _ => {},
        }
        out
    }
}

/// Whether `r` is what loading the configuration file gives. A file that
/// is not there fails with `NotFound`, one that is not well-formed YAML
/// with `Parse`; otherwise each setting holds the non-empty strings
/// listed under its key.
pub open spec fn is_config_load(r: Result<Config, LoadError>, source: Option<Seq<char>>) -> bool {
    match source {
        None => r == Err::<Config, LoadError>(LoadError::NotFound),
        Some(text) => if yaml_documents(text) is None {
            r == Err::<Config, LoadError>(LoadError::Parse)
        } else {
            &&& r is Ok
            &&& views(r->Ok_0.global_dependencies@) == top_level(
                text,
                "global_dependencies"@,
            ).str_list()
            &&& views(r->Ok_0.auto_discovery.go.package_prefixes@) == top_level(
                text,
                "auto_discovery"@,
            ).child("go"@).child("package_prefixes"@).str_list()
            &&& views(r->Ok_0.auto_discovery.dotnet.package_namespaces@) == top_level(
                text,
                "auto_discovery"@,
            ).child("dotnet"@).child("package_namespaces"@).str_list()
        },
    }
}

impl Config {
    /// Loads the configuration from the text of the configuration file;
    /// `None` stands for a file that is not there.
    pub fn new(source: Option<&str>) -> (r: Result<Config, LoadError>)
        ensures
            is_config_load(r, source_view(source)),
    {
        let yaml = match load_yaml(source) {
            Ok(document) => document,
            Err(e) => {
                return Err(e);
            },
        };
        let auto_disc = yaml.get("auto_discovery");
        let global_dependencies = str_list_at(yaml.get("global_dependencies"));
        let go_disc = child_at(auto_disc, "go");
        let go_package_prefixes = str_list_at(child_at(go_disc, "package_prefixes"));
        let dotnet_disc = child_at(auto_disc, "dotnet");
        let dotnet_package_namespaces = str_list_at(child_at(dotnet_disc, "package_namespaces"));
        Ok(
            Config {
                auto_discovery: AutoDiscoveryConfig {
                    go: GoDepsConfig { package_prefixes: go_package_prefixes },
                    dotnet: DotnetConfig { package_namespaces: dotnet_package_namespaces },
                },
                global_dependencies,
            },
        )
    }
}

} // verus!
