//! YAML documents as values of the library, and the loader of the
//! `yaml_rust2` crate behind a contract that is taken on trust.

use crate::text::same_text;
use vstd::prelude::*;
use yaml_rust2::{ScanError, Yaml, YamlLoader};

verus! {

/// `yaml_rust2::ScanError`, carried as it is from the loader to the text
/// of the error.
#[verifier::external_type_specification]
#[verifier::external_body]
pub struct ExScanError(ScanError);

/// `yaml_rust2::Yaml`, the node of the loader that is copied into a
/// [`YamlNode`].
#[verifier::external_type_specification]
#[verifier::external_body]
pub struct ExYaml(Yaml);

/// A node of a YAML document, as the loader hands it out: a scalar, a
/// sequence, or a mapping with its entries in the order of the document.
#[derive(Debug, PartialEq)]
pub enum YamlNode {
    /// A float, kept as the text that the document holds.
    Real(String),
    Integer(i64),
    String(String),
    Boolean(bool),
    Array(Vec<YamlNode>),
    Hash(Vec<(YamlNode, YamlNode)>),
    Alias(usize),
    Null,
    BadValue,
}

/// A [`YamlNode`] as plain values.
pub enum YamlValue {
    Real(Seq<char>),
    Integer(int),
    String(Seq<char>),
    Boolean(bool),
    Array(Seq<YamlValue>),
    Hash(Seq<(YamlValue, YamlValue)>),
    Alias(nat),
    Null,
    BadValue,
}

/// The value that `n` stands for.
pub open spec fn yaml_value_of(n: YamlNode) -> YamlValue
    decreases n,
{
    match n {
        YamlNode::Real(s) => YamlValue::Real(s@),
        YamlNode::Integer(i) => YamlValue::Integer(i as int),
        YamlNode::String(s) => YamlValue::String(s@),
        YamlNode::Boolean(b) => YamlValue::Boolean(b),
        YamlNode::Array(items) => YamlValue::Array(
            Seq::new(
                items.len() as nat,
                |i: int|
                    if 0 <= i < items.len() {
                        yaml_value_of(items[i])
                    } else {
                        YamlValue::Null
                    },
            ),
        ),
        YamlNode::Hash(entries) => YamlValue::Hash(
            Seq::new(
                entries.len() as nat,
                |i: int|
                    if 0 <= i < entries.len() {
                        (yaml_value_of(entries[i].0), yaml_value_of(entries[i].1))
                    } else {
                        (YamlValue::Null, YamlValue::Null)
                    },
            ),
        ),
        YamlNode::Alias(n) => YamlValue::Alias(n as nat),
        YamlNode::Null => YamlValue::Null,
        YamlNode::BadValue => YamlValue::BadValue,
    }
}

impl View for YamlNode {
    type V = YamlValue;

    open spec fn view(&self) -> YamlValue {
        yaml_value_of(*self)
    }
}

impl DeepView for YamlNode {
    type V = YamlValue;

    open spec fn deep_view(&self) -> YamlValue {
        yaml_value_of(*self)
    }
}

/// The nodes of a list as plain values.
pub open spec fn yaml_nodes_view(nodes: Seq<YamlNode>) -> Seq<YamlValue> {
    Seq::new(nodes.len(), |i: int| nodes[i]@)
}

/// The entries of a mapping as plain values.
pub open spec fn yaml_entries_view(entries: Seq<(YamlNode, YamlNode)>) -> Seq<
    (YamlValue, YamlValue),
> {
    Seq::new(entries.len(), |i: int| (entries[i].0@, entries[i].1@))
}

/// How the view of a node reads through its lists.
pub proof fn lemma_yaml_view(n: YamlNode)
    ensures
        n matches YamlNode::Array(items) ==> n@ == YamlValue::Array(yaml_nodes_view(items@)),
        n matches YamlNode::Hash(entries) ==> n@ == YamlValue::Hash(yaml_entries_view(entries@)),
{
    if n is Array {
        assert(n@->Array_0 =~= yaml_nodes_view(n->Array_0@));
    } else if n is Hash {
        assert(n@->Hash_0 =~= yaml_entries_view(n->Hash_0@));
    }
}

/// The documents that the YAML loader reads out of `source`, or `None`
/// where it reports an error: what `YamlLoader::load_from_str` yields.
pub uninterp spec fn yaml_documents(source: Seq<char>) -> Option<Seq<YamlValue>>;

/// Copies a node of the loader, variant by variant, into a [`YamlNode`];
/// a mapping keeps the order of its entries. [`load_documents`] applies it
/// to every document.
#[verifier::external_body]
fn yaml_node(y: &Yaml) -> YamlNode {
    match y {
        Yaml::Real(s) => YamlNode::Real(s.clone()),
        Yaml::Integer(i) => YamlNode::Integer(*i),
        Yaml::String(s) => YamlNode::String(s.clone()),
        Yaml::Boolean(b) => YamlNode::Boolean(*b),
        Yaml::Array(a) => YamlNode::Array(a.iter().map(yaml_node).collect()),
        Yaml::Hash(h) => YamlNode::Hash(h.iter().map(|(k, v)| (yaml_node(k), yaml_node(v))).collect()),
        Yaml::Alias(n) => YamlNode::Alias(*n),
        Yaml::Null => YamlNode::Null,
        Yaml::BadValue => YamlNode::BadValue,
    }
}

/// `YamlLoader::load_from_str`: the documents of `source`, or the loader's
/// error.
#[verifier::external_body]
pub(crate) fn load_documents(source: &str) -> (r: Result<Vec<YamlNode>, ScanError>)
    ensures
        match r {
            Ok(docs) => yaml_documents(source@) == Some(yaml_nodes_view(docs@)),
            Err(_) => yaml_documents(source@) is None,
        },
{
    YamlLoader::load_from_str(source).map(|docs| docs.iter().map(yaml_node).collect())
}

/// The text that the loader prints for its error (`Display`). Nothing is
/// claimed of it.
#[verifier::external_body]
pub(crate) fn scan_error_text(e: &ScanError) -> String {
    e.to_string()
}

/// The index of the first entry from `from` on whose key is the string
/// `key`, or the number of entries.
pub open spec fn yaml_key_index(entries: Seq<(YamlValue, YamlValue)>, key: Seq<char>, from: int) -> int
    decreases entries.len() - from,
{
    if from < 0 || from >= entries.len() || entries[from].0 == YamlValue::String(key) {
        from
    } else {
        yaml_key_index(entries, key, from + 1)
    }
}

/// The index of the first entry whose key is the string `key`.
pub fn find_yaml_key(entries: &Vec<(YamlNode, YamlNode)>, key: &str) -> (r: usize)
    ensures
        r == yaml_key_index(yaml_entries_view(entries@), key@, 0),
        r <= entries.len(),
{
    let ghost all = yaml_entries_view(entries@);
    let mut i: usize = 0;
    while i < entries.len()
        invariant
            i <= entries.len(),
            all == yaml_entries_view(entries@),
            yaml_key_index(all, key@, 0) == yaml_key_index(all, key@, i as int),
        decreases entries.len() - i,
    {
        assert(all[i as int] == (entries@[i as int].0@, entries@[i as int].1@));
        match &entries[i].0 {
            YamlNode::String(k) => {
                if same_text(k.as_str(), key) {
                    return i;
                }
            },
            _ => {},
        }
        i += 1;
    }
    i
}

} // verus!
