//! YAML documents as plain trees, and the few queries the rest of the
//! library makes of them.

use crate::text::str_eq;
use vstd::prelude::*;

verus! {

/// A node of a YAML document. The variants are those of `yaml_rust::Yaml`.
#[derive(Debug)]
pub enum YamlNode {
    /// A float, kept as written.
    Real(String),
    Integer(i64),
    /// A string scalar.
    Text(String),
    Boolean(bool),
    Array(Vec<YamlNode>),
    /// A mapping, in the order written; no key occurs twice.
    Hash(Vec<YamlEntry>),
    Alias(usize),
    Null,
    /// What a lookup gives where there is nothing to find.
    BadValue,
}

/// One key of a mapping with its value.
#[derive(Debug)]
pub struct YamlEntry {
    pub key: YamlNode,
    pub value: YamlNode,
}

/// Why a document could not be loaded.
#[derive(Debug, Clone, Copy, PartialEq, Eq, Structural)]
pub enum LoadError {
    /// There is no file at the claimed location.
    NotFound,
    /// The file does not hold well-formed YAML.
    Parse,
}

impl LoadError {
    /// What went wrong, in words.
    pub fn describe(&self) -> (r: &'static str)
        ensures
            r@ == (match *self {
                LoadError::NotFound => "cannot find file"@,
                LoadError::Parse => "malformed document"@,
            }),
    {
        match self {
            LoadError::NotFound => "cannot find file",
            LoadError::Parse => "malformed document",
        }
    }
}

/// A parsed YAML source, as handed over by the `yaml_rust` crate.
#[verifier::external_type_specification]
#[verifier::external_body]
pub struct ExYaml(yaml_rust::Yaml);

/// The documents that `yaml_rust::YamlLoader::load_from_str` reads from
/// `source`, each as a plain tree; `None` where it reports a scan error.
pub uninterp spec fn yaml_documents(source: Seq<char>) -> Option<Seq<YamlNode>>;

/// Copies one `yaml_rust::Yaml` node, variant for variant, with the nodes
/// below it.
#[verifier::external_body]
fn plain_node(node: &yaml_rust::Yaml) -> (r: YamlNode) {
    match node {
        yaml_rust::Yaml::Real(v) => YamlNode::Real(v.clone()),
        yaml_rust::Yaml::Integer(v) => YamlNode::Integer(*v),
        yaml_rust::Yaml::String(v) => YamlNode::Text(v.clone()),
        yaml_rust::Yaml::Boolean(v) => YamlNode::Boolean(*v),
        yaml_rust::Yaml::Array(v) => YamlNode::Array(v.iter().map(plain_node).collect()),
        yaml_rust::Yaml::Hash(h) => YamlNode::Hash(
            h.iter().map(|(k, v)| YamlEntry { key: plain_node(k), value: plain_node(v) }).collect(),
        ),
        yaml_rust::Yaml::Alias(v) => YamlNode::Alias(*v),
        yaml_rust::Yaml::Null => YamlNode::Null,
        yaml_rust::Yaml::BadValue => YamlNode::BadValue,
    }
}

/// Calls `yaml_rust::YamlLoader::load_from_str` and hands the documents
/// out as plain trees.
#[verifier::external_body]
fn parse_documents(source: &str) -> (r: Option<Vec<YamlNode>>)
    ensures
        r is Some == yaml_documents(source@) is Some,
        r is Some ==> r->0@ == yaml_documents(source@)->0,
{
    match yaml_rust::YamlLoader::load_from_str(source) {
        Ok(documents) => Some(documents.iter().map(plain_node).collect()),
        Err(_) => None,
    }
}

/// Position of the first entry at or after `from` whose key is the string
/// `key`; `entries.len()` when there is none.
pub open spec fn entry_index(entries: Seq<YamlEntry>, key: Seq<char>, from: int) -> int
    decreases entries.len() - from,
{
    if from < 0 || from >= entries.len() {
        entries.len() as int
    } else if entries[from].key matches YamlNode::Text(k) && k@ == key {
        from
    } else {
        entry_index(entries, key, from + 1)
    }
}

/// The strings among `items` that are not empty, in order.
pub open spec fn texts_of(items: Seq<YamlNode>) -> Seq<Seq<char>>
    decreases items.len(),
{
    if items.len() == 0 {
        Seq::<Seq<char>>::empty()
    } else {
        let before = texts_of(items.drop_last());
        match items.last() {
            YamlNode::Text(s) => if s@.len() > 0 {
                before.push(s@)
            } else {
                before
            },
            _ => before,
        }
    }
}

/// The characters of each string.
pub open spec fn views(strings: Seq<String>) -> Seq<Seq<char>> {
    strings.map_values(|s: String| s@)
}

/// Appending a string appends its characters to the views.
pub proof fn lemma_views_push(strings: Seq<String>, s: String)
    ensures
        views(strings.push(s)) == views(strings).push(s@),
{
    assert(views(strings.push(s)) =~= views(strings).push(s@));
}

/// Appends copies of `more` to `out`.
pub fn append_strings(out: &mut Vec<String>, more: &Vec<String>)
    ensures
        views(final(out)@) == views(old(out)@) + views(more@),
{
    let ghost before = out@;
    let mut i: usize = 0;
    assert(views(out@) =~= views(before) + views(more@.take(0)));
    while i < more.len()
        invariant
            i <= more.len(),
            views(out@) == views(before) + views(more@.take(i as int)),
        decreases more.len() - i,
    {
        proof {
            lemma_views_push(out@, more@[i as int]);
            assert(views(more@.take(i + 1)) =~= views(more@.take(i as int)).push(more@[i as int]@));
            assert(views(before) + views(more@.take(i as int)).push(more@[i as int]@) =~= (views(
                before,
            ) + views(more@.take(i as int))).push(more@[i as int]@));
        }
        out.push(more[i].clone());
        i = i + 1;
    }
    assert(more@.take(more@.len() as int) =~= more@);
}

/// The items of `v` in reverse order.
pub fn reversed<T>(v: Vec<T>) -> (r: Vec<T>)
    ensures
        r@.len() == v@.len(),
        forall|i: int| 0 <= i < r@.len() ==> r@[i] == v@[v@.len() - 1 - i],
{
    let mut rest = v;
    let mut out: Vec<T> = Vec::new();
    while rest.len() > 0
        invariant
            rest@.len() + out@.len() == v@.len(),
            rest@ == v@.take(rest@.len() as int),
            forall|i: int| 0 <= i < out@.len() ==> out@[i] == v@[v@.len() - 1 - i],
        decreases rest.len(),
    {
        let ghost n = rest@.len();
        match rest.pop() {
            Some(item) => {
                assert(rest@ =~= v@.take(n - 1));
                out.push(item);
            },
            None => {},
        }
    }
    out
}

impl YamlNode {
    /// The value under the string `key` of a mapping; `BadValue` for a
    /// key that is not there and for a node that is no mapping.
    pub open spec fn child(self, key: Seq<char>) -> YamlNode {
        match self {
            YamlNode::Hash(entries) => {
                let at = entry_index(entries@, key, 0);
                if at < entries@.len() {
                    entries@[at].value
                } else {
                    YamlNode::BadValue
                }
            },
            _ => YamlNode::BadValue,
        }
    }

    /// The characters of a string scalar.
    pub open spec fn text(self) -> Option<Seq<char>> {
        match self {
            YamlNode::Text(s) => Some(s@),
            _ => None,
        }
    }

    /// The items of a sequence; none for any other node.
    pub open spec fn items(self) -> Seq<YamlNode> {
        match self {
            YamlNode::Array(items) => items@,
            _ => Seq::<YamlNode>::empty(),
        }
    }

    /// The entries of a mapping; none for any other node.
    pub open spec fn entries(self) -> Seq<YamlEntry> {
        match self {
            YamlNode::Hash(entries) => entries@,
            _ => Seq::<YamlEntry>::empty(),
        }
    }

    /// The non-empty strings of a sequence, in order; none for any other node.
    pub open spec fn str_list(self) -> Seq<Seq<char>> {
        texts_of(self.items())
    }

    /// The value under the string `key` of a mapping, if this is a
    /// mapping that has the key.
    pub fn get(&self, key: &str) -> (r: Option<&YamlNode>)
        ensures
            node_or_bad(r) == self.child(key@),
            r is Some ==> self is Hash && entry_index(self.entries(), key@, 0)
                < self.entries().len(),
    {
        match self {
            YamlNode::Hash(entries) => {
                let mut i: usize = 0;
                while i < entries.len()
                    invariant
                        i <= entries.len(),
                        self is Hash,
                        self.entries() == entries@,
                        entry_index(entries@, key@, i as int) == entry_index(entries@, key@, 0),
                    decreases entries.len() - i,
                {
                    match &entries[i].key {
                        YamlNode::Text(k) => {
                            if str_eq(k.as_str(), key) {
                                assert(entries@[i as int].key matches YamlNode::Text(t) && t@
                                    == key@);
                                assert(entry_index(entries@, key@, i as int) == i);
                                return Some(&entries[i].value);
                            }
                        },
                        _ => {},
                    }
                    i = i + 1;
                }
                None
            },
            _ => None,
        }
    }

    /// The string of a string scalar.
    pub fn as_str(&self) -> (r: Option<&str>)
        ensures
            r is Some == self.text() is Some,
            r is Some ==> r->0@ == self.text()->0,
    {
        match self {
            YamlNode::Text(s) => Some(s.as_str()),
            _ => None,
        }
    }

    /// The items of a sequence.
    pub fn as_vec(&self) -> (r: Option<&Vec<YamlNode>>)
        ensures
            r is Some == self is Array,
            r is Some ==> r->0@ == self.items(),
    {
        match self {
            YamlNode::Array(items) => Some(items),
            _ => None,
        }
    }

    /// The entries of a mapping.
    pub fn as_hash(&self) -> (r: Option<&Vec<YamlEntry>>)
        ensures
            r is Some == self is Hash,
            r is Some ==> r->0@ == self.entries(),
    {
        match self {
            YamlNode::Hash(entries) => Some(entries),
            _ => None,
        }
    }
}

/// The node that an optional reference stands for: `BadValue` for none.
pub open spec fn node_or_bad(node: Option<&YamlNode>) -> YamlNode {
    match node {
        Some(n) => *n,
        None => YamlNode::BadValue,
    }
}

/// The value under `key` at the top of the first document of `text`;
/// `BadValue` where the text holds no document or is not well-formed.
pub open spec fn top_level(text: Seq<char>, key: Seq<char>) -> YamlNode {
    match yaml_documents(text) {
        Some(documents) => if documents.len() > 0 {
            documents[0].child(key)
        } else {
            YamlNode::BadValue
        },
        None => YamlNode::BadValue,
    }
}

/// A loaded document has under each key what the top of the text has.
pub proof fn lemma_loaded_child(document: YamlNode, text: Seq<char>, key: Seq<char>)
    requires
        is_loaded(Ok(document), Some(text)),
    ensures
        document.child(key) == top_level(text, key),
{
}

/// The value under `key` of `node`, where `node` may itself be missing.
pub fn child_at<'a>(node: Option<&'a YamlNode>, key: &str) -> (r: Option<&'a YamlNode>)
    ensures
        node_or_bad(r) == node_or_bad(node).child(key@),
{
    match node {
        Some(n) => n.get(key),
        None => None,
    }
}

/// The non-empty strings of the sequence `node`, where `node` may be missing.
pub fn str_list_at(node: Option<&YamlNode>) -> (r: Vec<String>)
    ensures
        views(r@) == node_or_bad(node).str_list(),
{
    match node {
        Some(n) => yaml_str_list(n),
        None => {
            let out: Vec<String> = Vec::new();
            assert(views(out@) =~= Seq::<Seq<char>>::empty());
            out
        },
    }
}

/// Whether `r` is what loading a file with the text `source` gives: the
/// first document of the text, or the empty string scalar where the text
/// holds no document. A file that is not there (`None`) fails with
/// `NotFound`, a text that is not well-formed with `Parse`.
pub open spec fn is_loaded(r: Result<YamlNode, LoadError>, source: Option<Seq<char>>) -> bool {
    match source {
        None => r == Err::<YamlNode, LoadError>(LoadError::NotFound),
        Some(text) => match yaml_documents(text) {
            None => r == Err::<YamlNode, LoadError>(LoadError::Parse),
            Some(documents) => r is Ok && if documents.len() == 0 {
                r->Ok_0.text() == Some(Seq::<char>::empty())
            } else {
                r->Ok_0 == documents[0]
            },
        },
    }
}

/// The text of a source that may be missing.
pub open spec fn source_view(source: Option<&str>) -> Option<Seq<char>> {
    match source {
        Some(text) => Some(text@),
        None => None,
    }
}

/// Loads the document that a file holds from the file's text; `None`
/// stands for a file that is not there.
pub fn load_yaml(source: Option<&str>) -> (r: Result<YamlNode, LoadError>)
    ensures
        is_loaded(r, source_view(source)),
{
    match source {
        None => Err(LoadError::NotFound),
        Some(text) => match parse_documents(text) {
            None => Err(LoadError::Parse),
            Some(mut documents) => {
                if documents.len() == 0 {
                    Ok(YamlNode::Text(String::new()))
                } else {
                    Ok(documents.swap_remove(0))
                }
            },
        },
    }
}

/// The non-empty strings of a sequence node, in order; an empty list for
/// any other node.
pub fn yaml_str_list(yaml: &YamlNode) -> (r: Vec<String>)
    ensures
        views(r@) == yaml.str_list(),
{
    let mut out: Vec<String> = Vec::new();
    assert(views(out@) =~= Seq::<Seq<char>>::empty());
    match yaml {
        YamlNode::Array(items) => {
            let mut i: usize = 0;
            assert(items@.take(0) =~= Seq::<YamlNode>::empty());
            while i < items.len()
                invariant
                    i <= items.len(),
                    views(out@) == texts_of(items@.take(i as int)),
                decreases items.len() - i,
            {
                assert(items@.take(i + 1).drop_last() =~= items@.take(i as int));
                assert(items@.take(i + 1).last() == items@[i as int]);
                match &items[i] {
                    YamlNode::Text(s) => {
                        if s.as_str().unicode_len() > 0 {
                            proof {
                                lemma_views_push(out@, *s);
                            }
                            out.push(s.clone());
                        }
                    },
                    _ => {},
                }
                i = i + 1;
            }
            assert(items@.take(items.len() as int) =~= items@);
        },
        _ => {},
    }
    out
}

} // verus!
