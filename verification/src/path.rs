//! The path model: a path as the user wrote it, paired with its canonical
//! form, and the lexical predicates on canonical paths.
//!
//! Paths are text with `/` between components. A canonical path is absolute
//! and cleaned; it is the identity of a file or directory.

use crate::text::{concat, from_chars, has_prefix, slice, starts_with, to_chars};
use vstd::prelude::*;

verus! {

/// What `path_clean::clean` returns for `path`: the path with repeated
/// separators, `.` components, and `..` components together with the
/// component before them removed.
pub uninterp spec fn cleaned(path: Seq<char>) -> Seq<char>;

/// Calls `path_clean::clean`, which works on the text of the path alone and
/// never fails. The cleaned form of valid UTF-8 is valid UTF-8, so the
/// conversion back to a string loses nothing. The root at the beginning
/// of a path is never removed: `..` directly below the root is dropped,
/// so the cleaned form of an absolute path is absolute. It is the root
/// followed by ordinary components with one separator between them, and
/// cleaning such a path again yields the same components, so the cleaned
/// form of an absolute path is its own cleaned form.
#[verifier::external_body]
fn clean_path(path: &str) -> (r: String)
    ensures
        r@ == cleaned(path@),
        is_absolute(path@) ==> is_absolute(r@),
        is_absolute(path@) ==> cleaned(r@) == r@,
{
    path_clean::clean(path).to_string_lossy().into_owned()
}

/// Calls `std::path::absolute`, which resolves a relative path against the
/// working directory of the process. The outcome differs from process to
/// process, and there is none for an empty path or when the working
/// directory cannot be had; all that is claimed is that a path that comes
/// back is absolute.
#[verifier::external_body]
fn absolute_path(path: &str) -> (r: Option<String>)
    ensures
        r is Some ==> is_absolute(r->0@),
{
    std::path::absolute(path).ok().and_then(|p| p.to_str().map(|s| s.to_owned()))
}

/// Why a path has no canonical form.
#[derive(Debug, Clone, Copy, PartialEq, Eq)]
pub enum PathError {
    /// The path is relative and could not be resolved against the working directory.
    Unresolvable,
}

/// A path begins at the root.
pub open spec fn is_absolute(path: Seq<char>) -> bool {
    path.len() > 0 && path[0] == '/'
}

/// `path` adjoined to `root`: an absolute `path` replaces `root`, and a
/// separator is added unless `root` is empty or already ends in one.
pub open spec fn joined(root: Seq<char>, path: Seq<char>) -> Seq<char> {
    if is_absolute(path) || root.len() == 0 {
        path
    } else if root.last() == '/' {
        root + path
    } else {
        root + seq!['/'] + path
    }
}

/// Position of the last `c` in `s`, or -1.
pub open spec fn last_index(s: Seq<char>, c: char) -> int
    decreases s.len(),
{
    if s.len() == 0 {
        -1
    } else if s.last() == c {
        s.len() - 1
    } else {
        last_index(s.drop_last(), c)
    }
}

/// The directory that holds `path`: `None` for the root and for the empty
/// path, the empty path for a single relative component.
pub open spec fn parent_of(path: Seq<char>) -> Option<Seq<char>> {
    let cut = last_index(path, '/');
    if path.len() == 0 || path == seq!['/'] {
        None
    } else if cut < 0 {
        Some(Seq::<char>::empty())
    } else if cut == 0 {
        Some(seq!['/'])
    } else {
        Some(path.subrange(0, cut))
    }
}

/// The last component of `path`.
pub open spec fn file_name_of(path: Seq<char>) -> Seq<char> {
    path.subrange(last_index(path, '/') + 1, path.len() as int)
}

/// The part of a file name after its last dot; a name that only begins
/// with its one dot, or has none, has no extension.
pub open spec fn extension_of(name: Seq<char>) -> Option<Seq<char>> {
    let dot = last_index(name, '.');
    if dot <= 0 || name == seq!['.', '.'] {
        None
    } else {
        Some(name.subrange(dot + 1, name.len() as int))
    }
}

/// The part of a file name before its extension.
pub open spec fn file_stem_of(name: Seq<char>) -> Seq<char> {
    let dot = last_index(name, '.');
    if dot <= 0 || name == seq!['.', '.'] {
        name
    } else {
        name.subrange(0, dot)
    }
}

/// What is left of `path` below `base`, when `base` is `path` itself or
/// one of the directories above it.
pub open spec fn stripped(path: Seq<char>, base: Seq<char>) -> Option<Seq<char>> {
    if base.len() == 0 {
        Some(path)
    } else if !has_prefix(path, base) {
        None
    } else if path.len() == base.len() {
        Some(Seq::<char>::empty())
    } else if base.last() == '/' {
        Some(path.skip(base.len() as int))
    } else if path[base.len() as int] == '/' {
        Some(path.skip(base.len() as int + 1))
    } else {
        None
    }
}

/// `path` is `dir` or lies below it.
pub open spec fn is_under(path: Seq<char>, dir: Seq<char>) -> bool {
    stripped(path, dir) is Some
}

/// `path` as seen from `origin`: `./` and the remainder below `origin`, or
/// `path` itself when it does not lie below `origin`.
pub open spec fn relative(path: Seq<char>, origin: Seq<char>) -> Seq<char> {
    match stripped(path, origin) {
        Some(rest) => seq!['.', '/'] + rest,
        None => path,
    }
}

/// The canonical form of `path`, given what the working directory makes of
/// it: an absolute path is cleaned as it stands, a relative one after it
/// was resolved, and a relative one that could not be resolved has none.
pub open spec fn canonical_of(path: Seq<char>, resolved: Option<Seq<char>>) -> Option<Seq<char>> {
    if is_absolute(path) {
        Some(cleaned(path))
    } else {
        match resolved {
            Some(abs) => Some(cleaned(abs)),
            None => None,
        }
    }
}

/// The canonical form that a path is given when it is located below `root`:
/// that of the joined path, or the joined path itself where it has none.
pub open spec fn located(
    root: Seq<char>,
    path: Seq<char>,
    resolved: Option<Seq<char>>,
) -> Seq<char> {
    match canonical_of(joined(root, path), resolved) {
        Some(canonical) => canonical,
        None => joined(root, path),
    }
}

/// A path is in canonical form: absolute, and its own cleaned form.
pub open spec fn is_canonical(path: Seq<char>) -> bool {
    is_absolute(path) && cleaned(path) == path
}

/// `r` is what canonicalization gives for `path` when the working directory
/// makes `resolved` of it.
pub open spec fn is_canonical_outcome(
    r: Result<String, PathError>,
    path: Seq<char>,
    resolved: Option<Seq<char>>,
) -> bool {
    match canonical_of(path, resolved) {
        Some(canonical) => r is Ok && r->Ok_0@ == canonical,
        None => r == Err::<String, PathError>(PathError::Unresolvable),
    }
}

/// What `last_index` finds: the last occurrence.
pub proof fn lemma_last_index(s: Seq<char>, c: char)
    ensures
        -1 <= last_index(s, c) < s.len(),
        last_index(s, c) >= 0 ==> s[last_index(s, c)] == c,
        forall|j: int| last_index(s, c) < j < s.len() ==> s[j] != c,
    decreases s.len(),
{
    if s.len() > 0 && s.last() != c {
        lemma_last_index(s.drop_last(), c);
        assert forall|j: int| last_index(s, c) < j < s.len() implies s[j] != c by {
            if j < s.len() - 1 {
                assert(s.drop_last()[j] == s[j]);
            }
        }
    }
}

/// The directory above a path is shorter than the path.
pub proof fn lemma_parent_shorter(path: Seq<char>)
    ensures
        parent_of(path) is Some ==> parent_of(path)->0.len() < path.len(),
{
    lemma_last_index(path, '/');
    if parent_of(path) is Some && last_index(path, '/') == 0 {
        if path.len() == 1 {
            assert(path =~= seq!['/']);
        }
    }
}

/// The directory above an absolute path is absolute.
pub proof fn lemma_parent_absolute(path: Seq<char>)
    requires
        is_absolute(path),
    ensures
        parent_of(path) is Some ==> is_absolute(parent_of(path)->0),
{
    lemma_last_index(path, '/');
    let cut = last_index(path, '/');
    if cut < 0 {
        assert(path[0] == '/');
    }
}

/// Position after the last `c` in `s`; 0 when there is none.
pub fn after_last(s: &Vec<char>, c: char) -> (r: usize)
    ensures
        r == last_index(s@, c) + 1,
        r <= s.len(),
{
    let mut i: usize = s.len();
    assert(s@.take(i as int) =~= s@);
    while i > 0 && s[i - 1] != c
        invariant
            i <= s.len(),
            last_index(s@.take(i as int), c) == last_index(s@, c),
        decreases i,
    {
        assert(s@.take(i as int).drop_last() =~= s@.take(i - 1));
        assert(s@.take(i as int).last() == s@[i - 1]);
        i = i - 1;
    }
    proof {
        if i > 0 {
            assert(s@.take(i as int).last() == s@[i - 1]);
        }
    }
    i
}

/// `path` adjoined to `root`.
pub fn join(root: &Vec<char>, path: &Vec<char>) -> (r: Vec<char>)
    ensures
        r@ == joined(root@, path@),
{
    if (path.len() > 0 && path[0] == '/') || root.len() == 0 {
        path.clone()
    } else if root[root.len() - 1] == '/' {
        concat(root, path)
    } else {
        let mut with_sep = root.clone();
        with_sep.push('/');
        concat(&with_sep, path)
    }
}

/// The directory that holds `path`.
pub fn parent(path: &Vec<char>) -> (r: Option<Vec<char>>)
    ensures
        r is Some == parent_of(path@) is Some,
        r is Some ==> r->0@ == parent_of(path@)->0,
{
    let after = after_last(path, '/');
    let is_root = path.len() == 1 && path[0] == '/';
    proof {
        if is_root {
            assert(path@ =~= seq!['/']);
        } else if path@ == seq!['/'] {
            assert(path@.len() == 1);
            assert(path@[0] == '/');
        }
    }
    if path.len() == 0 || is_root {
        None
    } else if after == 0 {
        Some(Vec::new())
    } else if after == 1 {
        let root: Vec<char> = vec!['/'];
        assert(root@ =~= seq!['/']);
        Some(root)
    } else {
        Some(slice(path, 0, after - 1))
    }
}

/// The last component of `path`.
pub fn file_name(path: &Vec<char>) -> (r: Vec<char>)
    ensures
        r@ == file_name_of(path@),
{
    let after = after_last(path, '/');
    slice(path, after, path.len())
}

/// Whether `name` is the two-dot name of a parent directory.
pub fn is_dot_dot(name: &Vec<char>) -> (r: bool)
    ensures
        r == (name@ == seq!['.', '.']),
{
    let r = name.len() == 2 && name[0] == '.' && name[1] == '.';
    proof {
        if r {
            assert(name@ =~= seq!['.', '.']);
        } else if name@ == seq!['.', '.'] {
            assert(name@.len() == 2);
            assert(name@[0] == '.');
            assert(name@[1] == '.');
        }
    }
    r
}

/// The extension of a file name.
pub fn extension(name: &Vec<char>) -> (r: Option<Vec<char>>)
    ensures
        r is Some == extension_of(name@) is Some,
        r is Some ==> r->0@ == extension_of(name@)->0,
{
    let after = after_last(name, '.');
    if after <= 1 || is_dot_dot(name) {
        None
    } else {
        Some(slice(name, after, name.len()))
    }
}

/// The part of a file name before its extension.
pub fn file_stem(name: &Vec<char>) -> (r: Vec<char>)
    ensures
        r@ == file_stem_of(name@),
{
    let after = after_last(name, '.');
    if after <= 1 || is_dot_dot(name) {
        name.clone()
    } else {
        slice(name, 0, after - 1)
    }
}

/// What is left of `path` below `base`.
pub fn strip_base(path: &Vec<char>, base: &Vec<char>) -> (r: Option<Vec<char>>)
    ensures
        r is Some == stripped(path@, base@) is Some,
        r is Some ==> r->0@ == stripped(path@, base@)->0,
{
    if base.len() == 0 {
        Some(path.clone())
    } else if !starts_with(path, base) {
        None
    } else if path.len() == base.len() {
        Some(Vec::new())
    } else if base[base.len() - 1] == '/' {
        let rest = slice(path, base.len(), path.len());
        assert(path@.subrange(base.len() as int, path.len() as int) =~= path@.skip(
            base.len() as int,
        ));
        Some(rest)
    } else if path[base.len()] == '/' {
        let rest = slice(path, base.len() + 1, path.len());
        assert(path@.subrange(base.len() + 1, path.len() as int) =~= path@.skip(base.len() + 1));
        Some(rest)
    } else {
        None
    }
}

/// Whether `path` is `dir` or lies below it.
pub fn under(path: &Vec<char>, dir: &Vec<char>) -> (r: bool)
    ensures
        r == is_under(path@, dir@),
{
    if dir.len() == 0 {
        true
    } else if !starts_with(path, dir) {
        false
    } else {
        path.len() == dir.len() || dir[dir.len() - 1] == '/' || path[dir.len()] == '/'
    }
}

/// The canonical form of `path`, given what the working directory makes
/// of it.
pub fn canonical_from(path: &str, resolved: Option<String>) -> (r: Result<String, PathError>)
    ensures
        is_absolute(path@) ==> r is Ok && is_canonical(r->Ok_0@),
        resolved is Some && is_absolute(resolved->0@) ==> r is Ok && is_canonical(r->Ok_0@),
        is_canonical_outcome(
            r,
            path@,
            match resolved {
                Some(abs) => Some(abs@),
                None => None,
            },
        ),
{
    let chars = to_chars(path);
    if chars.len() > 0 && chars[0] == '/' {
        Ok(clean_path(path))
    } else {
        match resolved {
            Some(abs) => Ok(clean_path(abs.as_str())),
            None => Err(PathError::Unresolvable),
        }
    }
}

/// The canonical form of `path`: cleaned as it stands when absolute,
/// resolved against the working directory first when relative. What
/// comes out is in canonical form, and canonicalization is idempotent:
/// the canonical form of the result is the result, whatever the working
/// directory.
pub fn canonicalize(path: &str) -> (r: Result<String, PathError>)
    ensures
        is_absolute(path@) ==> r is Ok && r->Ok_0@ == cleaned(path@),
        exists|resolved: Option<Seq<char>>| #[trigger] is_canonical_outcome(r, path@, resolved),
        r is Ok ==> is_canonical(r->Ok_0@),
        r is Ok ==> forall|again: Option<Seq<char>>| #[trigger]
            is_canonical_outcome(r, r->Ok_0@, again),
{
    let chars = to_chars(path);
    let resolved = if chars.len() > 0 && chars[0] == '/' {
        None
    } else {
        absolute_path(path)
    };
    let ghost witness = match &resolved {
        Some(abs) => Some(abs@),
        None => None,
    };
    let r = canonical_from(path, resolved);
    assert(is_canonical_outcome(r, path@, witness));
    r
}

/// A path as the user wrote it, with its canonical form.
#[derive(Debug, Clone)]
pub struct PathInfo {
    pub display_path: String,
    pub canonicalized: String,
}

/// The two forms of a path as sequences of characters.
pub struct PathView {
    pub display: Seq<char>,
    pub canonical: Seq<char>,
}

impl View for PathInfo {
    type V = PathView;

    open spec fn view(&self) -> PathView {
        PathView { display: self.display_path@, canonical: self.canonicalized@ }
    }
}

impl PartialEq for PathInfo {
    /// Two paths are equal when their canonical forms are.
    fn eq(&self, other: &PathInfo) -> (r: bool) {
        self.canonicalized == other.canonicalized
    }
}

impl vstd::std_specs::cmp::PartialEqSpecImpl for PathInfo {
    open spec fn obeys_eq_spec() -> bool {
        true
    }

    open spec fn eq_spec(&self, other: &PathInfo) -> bool {
        self.canonicalized@ == other.canonicalized@
    }
}

/// The two forms of each path.
pub open spec fn path_views(paths: Seq<PathInfo>) -> Seq<PathView> {
    paths.map_values(|p: PathInfo| p@)
}

impl PathInfo {
    /// Locates `path` below `root_dir`. The display form keeps `path` as
    /// written; the canonical form is that of the joined path, or the
    /// joined path itself where it is relative and cannot be resolved.
    pub fn locate(path: &str, root_dir: &str) -> (r: PathInfo)
        ensures
            r.display_path@ == path@,
            is_absolute(joined(root_dir@, path@)) ==> r.canonicalized@ == cleaned(
                joined(root_dir@, path@),
            ) && is_canonical(r.canonicalized@),
            exists|resolved: Option<Seq<char>>|
                r.canonicalized@ == #[trigger] located(root_dir@, path@, resolved),
    {
        let root_chars = to_chars(root_dir);
        let path_chars = to_chars(path);
        let base = from_chars(&join(&root_chars, &path_chars));
        let canonical = canonicalize(base.as_str());
        let ghost resolved = choose|resolved: Option<Seq<char>>| #[trigger]
            is_canonical_outcome(canonical, base@, resolved);
        let canonicalized = match canonical {
            Ok(c) => c,
            Err(_) => base,
        };
        assert(canonicalized@ == located(root_dir@, path@, resolved));
        PathInfo { display_path: path.to_owned(), canonicalized }
    }

    /// Locates `path` below `root_dir`, as `locate` does. This never fails.
    pub fn new(path: &str, root_dir: &str) -> (r: Result<PathInfo, PathError>)
        ensures
            r is Ok,
            r->Ok_0.display_path@ == path@,
            is_absolute(joined(root_dir@, path@)) ==> r->Ok_0.canonicalized@ == cleaned(
                joined(root_dir@, path@),
            ) && is_canonical(r->Ok_0.canonicalized@),
            exists|resolved: Option<Seq<char>>|
                r->Ok_0.canonicalized@ == #[trigger] located(root_dir@, path@, resolved),
    {
        Ok(PathInfo::locate(path, root_dir))
    }

    /// A copy of this path.
    pub fn duplicate(&self) -> (r: PathInfo)
        ensures
            r == *self,
    {
        PathInfo {
            display_path: self.display_path.clone(),
            canonicalized: self.canonicalized.clone(),
        }
    }

    /// This path as seen from `origin`: `./` and the remainder when it lies
    /// below `origin`, its canonical form otherwise.
    pub fn relative_to(&self, origin: &PathInfo) -> (r: String)
        ensures
            r@ == relative(self.canonicalized@, origin.canonicalized@),
    {
        let own = to_chars(self.canonicalized.as_str());
        let base = to_chars(origin.canonicalized.as_str());
        match strip_base(&own, &base) {
            Some(rest) => {
                let mut out: Vec<char> = Vec::new();
                out.push('.');
                out.push('/');
                assert(out@ =~= seq!['.', '/']);
                from_chars(&concat(&out, &rest))
            },
            None => self.canonicalized.clone(),
        }
    }
}

} // verus!
