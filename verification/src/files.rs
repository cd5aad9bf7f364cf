//! The files of a repository as plain values: what was found on disk,
//! each entry under its canonical path, in the order in which the
//! directories were walked.

use crate::path::{file_name, file_name_of, is_absolute, joined, strip_base, stripped};
use crate::text::{chars_eq, has_prefix, lines_of, split, split_chars, split_lines, to_chars};
use vstd::prelude::*;

verus! {

/// What kind of thing an entry is.
#[derive(Debug, Clone, Copy, PartialEq, Eq, Structural)]
pub enum EntryKind {
    File,
    Directory,
    /// Neither a regular file nor a directory.
    Other,
}

/// What a `package.json` declares.
#[derive(Debug)]
pub struct PackageJson {
    pub name: String,
    /// The names under `devDependencies`.
    pub dev_dependencies: Vec<String>,
    /// The names under `dependencies`.
    pub dependencies: Vec<String>,
}

/// One file or directory.
#[derive(Debug)]
pub struct FileEntry {
    /// The canonical path.
    pub path: String,
    pub kind: EntryKind,
    /// The text of a file; `None` for a file that could not be read as
    /// text, and for what is no file.
    pub content: Option<String>,
    /// What a file named `package.json` declares; `None` where it is not
    /// a well-formed manifest, and for every other entry.
    pub package: Option<PackageJson>,
}

/// The files and directories of a repository.
#[derive(Debug)]
pub struct FileTree {
    pub entries: Vec<FileEntry>,
}

/// The most lines that are read of one file.
pub const SCAN_MAX_LINES: usize = 300;

/// Position of the first entry, at or after `from`, with the path
/// `path`; `entries.len()` when there is none.
pub open spec fn entry_at(entries: Seq<FileEntry>, path: Seq<char>, from: int) -> int
    decreases entries.len() - from,
{
    if from < 0 || from >= entries.len() {
        entries.len() as int
    } else if entries[from].path@ == path {
        from
    } else {
        entry_at(entries, path, from + 1)
    }
}

/// What `entry_at` finds is an entry with that path, and none before it has it.
pub proof fn lemma_entry_at(entries: Seq<FileEntry>, path: Seq<char>, from: int)
    requires
        0 <= from <= entries.len(),
    ensures
        from <= entry_at(entries, path, from) <= entries.len(),
        entry_at(entries, path, from) < entries.len() ==> entries[entry_at(
            entries,
            path,
            from,
        )].path@ == path,
    decreases entries.len() - from,
{
    if from < entries.len() && entries[from].path@ != path {
        lemma_entry_at(entries, path, from + 1);
    }
}

/// A name that a walk passes over: one that begins with a dot, and `node_modules`.
pub open spec fn hidden_name(name: Seq<char>) -> bool {
    has_prefix(name, seq!['.']) || name == "node_modules"@
}

/// None of the components of the relative path `rest` is passed over.
pub open spec fn visible(rest: Seq<char>) -> bool {
    forall|k: int| 0 <= k < split(rest, '/').len() ==> !hidden_name(#[trigger] split(rest, '/')[k])
}

/// A walk of `dir` comes by `path`: `path` is `dir` or lies below it, and
/// neither `dir` itself nor anything on the way down is passed over.
pub open spec fn walked(path: Seq<char>, dir: Seq<char>) -> bool {
    match stripped(path, dir) {
        Some(rest) => !hidden_name(file_name_of(dir)) && (rest.len() == 0 || visible(rest)),
        None => false,
    }
}

/// The positions, among the first `upto` entries, of those that a walk
/// of `dir` comes by, in order.
pub open spec fn walk_of(entries: Seq<FileEntry>, dir: Seq<char>, upto: int) -> Seq<int>
    decreases upto,
{
    if upto <= 0 {
        Seq::<int>::empty()
    } else if walked(entries[upto - 1].path@, dir) {
        walk_of(entries, dir, upto - 1).push(upto - 1)
    } else {
        walk_of(entries, dir, upto - 1)
    }
}

/// What a walk of an absolute directory comes by has an absolute path,
/// which joined to the directory is itself.
pub proof fn lemma_walked_absolute(path: Seq<char>, dir: Seq<char>)
    requires
        is_absolute(dir),
        walked(path, dir),
    ensures
        is_absolute(path),
        joined(dir, path) == path,
{
    assert(has_prefix(path, dir));
    assert(path.subrange(0, dir.len() as int)[0] == path[0]);
}

/// The lines of `text` that are read: the first `SCAN_MAX_LINES`.
pub open spec fn scanned_lines(text: Seq<char>) -> Seq<Seq<char>> {
    let all = lines_of(text);
    if all.len() > SCAN_MAX_LINES {
        all.take(SCAN_MAX_LINES as int)
    } else {
        all
    }
}

/// Whether a walk passes over `name`.
pub fn is_hidden(name: &Vec<char>) -> (r: bool)
    ensures
        r == hidden_name(name@),
{
    if name.len() > 0 && name[0] == '.' {
        assert(name@.subrange(0, 1) =~= seq!['.']);
        return true;
    }
    proof {
        if has_prefix(name@, seq!['.']) {
            assert(name@.subrange(0, 1)[0] == '.');
        }
    }
    let other = to_chars("node_modules");
    chars_eq(name, &other)
}

/// Whether none of the components of `rest` is passed over.
fn is_visible(rest: &Vec<char>) -> (r: bool)
    ensures
        r == visible(rest@),
{
    let parts = split_chars(rest, '/');
    let mut k: usize = 0;
    while k < parts.len()
        invariant
            k <= parts.len(),
            parts.len() == split(rest@, '/').len(),
            forall|j: int| 0 <= j < parts.len() ==> parts[j]@ == #[trigger] split(rest@, '/')[j],
            forall|j: int| 0 <= j < k ==> !hidden_name(#[trigger] split(rest@, '/')[j]),
        decreases parts.len() - k,
    {
        if is_hidden(&parts[k]) {
            assert(hidden_name(split(rest@, '/')[k as int]));
            return false;
        }
        k = k + 1;
    }
    true
}

/// Whether a walk of `dir` comes by `path`.
pub fn is_walked(path: &Vec<char>, dir: &Vec<char>) -> (r: bool)
    ensures
        r == walked(path@, dir@),
{
    match strip_base(path, dir) {
        Some(rest) => {
            let name = file_name(dir);
            if is_hidden(&name) {
                false
            } else {
                rest.len() == 0 || is_visible(&rest)
            }
        },
        None => false,
    }
}

impl FileTree {
    /// Position of the first entry with the path `path`;
    /// `entries.len()` when there is none.
    pub open spec fn position(&self, path: Seq<char>) -> int {
        entry_at(self.entries@, path, 0)
    }

    /// There is an entry at `path`.
    pub open spec fn has(&self, path: Seq<char>) -> bool {
        self.position(path) < self.entries@.len()
    }

    /// There is a file at `path`.
    pub open spec fn has_file(&self, path: Seq<char>) -> bool {
        self.has(path) && self.entries@[self.position(path)].kind == EntryKind::File
    }

    /// There is a directory at `path`.
    pub open spec fn has_dir(&self, path: Seq<char>) -> bool {
        self.has(path) && self.entries@[self.position(path)].kind == EntryKind::Directory
    }

    /// The text of the file at `path`, where there is a file that could be read.
    pub open spec fn text(&self, path: Seq<char>) -> Option<Seq<char>> {
        if self.has_file(path) {
            match self.entries@[self.position(path)].content {
                Some(content) => Some(content@),
                None => None,
            }
        } else {
            None
        }
    }

    /// The positions of the entries that a walk of `dir` comes by, in order.
    pub open spec fn walk_positions(&self, dir: Seq<char>) -> Seq<int> {
        walk_of(self.entries@, dir, self.entries@.len() as int)
    }

    /// Position of the first entry with the path `path`.
    pub fn find(&self, path: &str) -> (r: Option<usize>)
        ensures
            match r {
                Some(i) => i == self.position(path@) && i < self.entries@.len()
                    && self.entries@[i as int].path@ == path@,
                None => !self.has(path@),
            },
    {
        let wanted = to_chars(path);
        let mut i: usize = 0;
        while i < self.entries.len()
            invariant
                i <= self.entries.len(),
                wanted@ == path@,
                entry_at(self.entries@, path@, i as int) == entry_at(self.entries@, path@, 0),
            decreases self.entries.len() - i,
        {
            let own = to_chars(self.entries[i].path.as_str());
            if chars_eq(&own, &wanted) {
                return Some(i);
            }
            i = i + 1;
        }
        None
    }

    /// Whether there is an entry at `path`.
    pub fn contains_path(&self, path: &str) -> (r: bool)
        ensures
            r == self.has(path@),
    {
        self.find(path).is_some()
    }

    /// Whether there is a file at `path`.
    pub fn is_file(&self, path: &str) -> (r: bool)
        ensures
            r == self.has_file(path@),
    {
        match self.find(path) {
            Some(i) => self.entries[i].kind == EntryKind::File,
            None => false,
        }
    }

    /// Whether there is a directory at `path`.
    pub fn is_dir(&self, path: &str) -> (r: bool)
        ensures
            r == self.has_dir(path@),
    {
        match self.find(path) {
            Some(i) => self.entries[i].kind == EntryKind::Directory,
            None => false,
        }
    }

    /// The text of the file at `path`.
    pub fn read(&self, path: &str) -> (r: Option<&str>)
        ensures
            r is Some == self.text(path@) is Some,
            r is Some ==> r->0@ == self.text(path@)->0,
    {
        match self.find(path) {
            Some(i) => {
                if self.entries[i].kind == EntryKind::File {
                    match &self.entries[i].content {
                        Some(content) => Some(content.as_str()),
                        None => None,
                    }
                } else {
                    None
                }
            },
            None => None,
        }
    }

    /// The positions of the entries that a walk of `dir` comes by: `dir`
    /// itself and everything below it, but for what is hidden and what
    /// lies below something hidden.
    pub fn walk(&self, dir: &str) -> (r: Vec<usize>)
        ensures
            r@.len() == self.walk_positions(dir@).len(),
            forall|k: int| 0 <= k < r@.len() ==> r@[k] == self.walk_positions(dir@)[k],
            forall|k: int|
                0 <= k < r@.len() ==> (#[trigger] r@[k]) < self.entries@.len() && walked(
                    self.entries@[r@[k] as int].path@,
                    dir@,
                ),
    {
        let base = to_chars(dir);
        let mut out: Vec<usize> = Vec::new();
        let mut i: usize = 0;
        while i < self.entries.len()
            invariant
                i <= self.entries.len(),
                base@ == dir@,
                out@.len() == walk_of(self.entries@, dir@, i as int).len(),
                forall|k: int|
                    0 <= k < out@.len() ==> out@[k] == walk_of(self.entries@, dir@, i as int)[k],
                forall|k: int|
                    0 <= k < out@.len() ==> (#[trigger] out@[k]) < i && walked(
                        self.entries@[out@[k] as int].path@,
                        dir@,
                    ),
            decreases self.entries.len() - i,
        {
            let own = to_chars(self.entries[i].path.as_str());
            if is_walked(&own, &base) {
                out.push(i);
            }
            i = i + 1;
        }
        out
    }
}

/// The lines of `text` that are read: the first `SCAN_MAX_LINES`.
pub fn scan_lines(text: &str) -> (r: Vec<Vec<char>>)
    ensures
        r@.len() == scanned_lines(text@).len(),
        forall|k: int| 0 <= k < r@.len() ==> r@[k]@ == #[trigger] scanned_lines(text@)[k],
{
    let mut lines = split_lines(&to_chars(text));
    if lines.len() > SCAN_MAX_LINES {
        lines.truncate(SCAN_MAX_LINES);
    }
    lines
}

} // verus!
