use crate::text::{same, to_chars};
use vstd::prelude::*;

verus! {

/// A node of a YAML document, as the loader of the yaml-rust2 crate gives
/// it: variant for variant what its `Yaml` holds.
#[derive(Debug)]
pub enum YamlNode {
    /// A floating-point number, kept as its text.
    Real(String),
    Integer(i64),
    /// A string scalar.
    Text(String),
    Boolean(bool),
    /// A sequence.
    List(Vec<YamlNode>),
    /// A mapping: its entries, key and value, in the order of the text.
    Mapping(Vec<(YamlNode, YamlNode)>),
    Alias(usize),
    Null,
    /// An empty document, or a value that could not be read.
    BadValue,
}

/// A node of the yaml-rust2 crate. Verus sees nothing inside it.
#[verifier::external_type_specification]
#[verifier::external_body]
pub struct ExYaml(yaml_rust2::Yaml);

/// The error of the scanner of the yaml-rust2 crate: a position and a
/// message.
#[verifier::external_type_specification]
#[verifier::external_body]
pub struct ExScanError(yaml_rust2::ScanError);

/// The documents that the loader of the yaml-rust2 crate reads in `text`,
/// or `None` where it refuses the text.
pub uninterp spec fn yaml_documents(text: Seq<char>) -> Option<Seq<YamlNode>>;

/// Copies one `Yaml` of the yaml-rust2 crate into a `YamlNode`, variant for
/// variant, and the nodes below it in the same way.
#[verifier::external_body]
fn node_of(y: &yaml_rust2::Yaml) -> YamlNode {
    match y {
        yaml_rust2::Yaml::Real(s) => YamlNode::Real(s.clone()),
        yaml_rust2::Yaml::Integer(i) => YamlNode::Integer(*i),
        yaml_rust2::Yaml::String(s) => YamlNode::Text(s.clone()),
        yaml_rust2::Yaml::Boolean(b) => YamlNode::Boolean(*b),
        yaml_rust2::Yaml::Array(a) => YamlNode::List(a.iter().map(node_of).collect()),
        yaml_rust2::Yaml::Hash(h) => YamlNode::Mapping(
            h.iter().map(|(k, v)| (node_of(k), node_of(v))).collect(),
        ),
        yaml_rust2::Yaml::Alias(n) => YamlNode::Alias(*n),
        yaml_rust2::Yaml::Null => YamlNode::Null,
        yaml_rust2::Yaml::BadValue => YamlNode::BadValue,
    }
}

/// `YamlLoader::load_from_str` of the yaml-rust2 crate: reads `text` as a
/// stream of YAML documents. What it gives depends on the text alone; it is
/// handed on node for node.
#[verifier::external_body]
fn load_documents(text: &str) -> (r: Result<Vec<YamlNode>, yaml_rust2::ScanError>)
    ensures
        match r {
            Ok(docs) => yaml_documents(text@) == Some(docs@),
            Err(_) => yaml_documents(text@) is None,
        },
{
    let docs = yaml_rust2::YamlLoader::load_from_str(text)?;
    Ok(docs.iter().map(node_of).collect())
}

/// Reads `text` as a stream of YAML documents; `None` where it is no YAML.
pub fn read_documents(text: &str) -> (r: Option<Vec<YamlNode>>)
    ensures
        match r {
            Some(docs) => yaml_documents(text@) == Some(docs@),
            None => yaml_documents(text@) is None,
        },
{
    match load_documents(text) {
        Ok(docs) => Some(docs),
        Err(_) => None,
    }
}

/// The value of the first entry at or after `i` whose key is the string
/// `key`.
pub open spec fn entry_from(entries: Seq<(YamlNode, YamlNode)>, key: Seq<char>, i: int) -> Option<
    YamlNode,
>
    decreases entries.len() - i,
{
    if i < 0 || i >= entries.len() {
        None
    } else if entries[i].0 matches YamlNode::Text(k) && k@ == key {
        Some(entries[i].1)
    } else {
        entry_from(entries, key, i + 1)
    }
}

/// The value that the mapping `doc` gives to the string key `key`; `None`
/// if `doc` is no mapping or has no such key.
pub open spec fn field(doc: YamlNode, key: Seq<char>) -> Option<YamlNode> {
    match doc {
        YamlNode::Mapping(entries) => entry_from(entries@, key, 0),
        _ => None,
    }
}

/// The string that `node` holds, or the empty string if it holds none.
pub open spec fn text_of(node: Option<YamlNode>) -> Seq<char> {
    match node {
        Some(YamlNode::Text(s)) => s@,
        _ => seq![],
    }
}

/// The strings among `items`, in order.
pub open spec fn texts_among(items: Seq<YamlNode>) -> Seq<Seq<char>>
    decreases items.len(),
{
    if items.len() == 0 {
        seq![]
    } else {
        let head = texts_among(items.drop_last());
        match items.last() {
            YamlNode::Text(s) => head.push(s@),
            _ => head,
        }
    }
}

/// The strings of the sequence that `node` holds, or none if it holds no
/// sequence.
pub open spec fn list_of(node: Option<YamlNode>) -> Seq<Seq<char>> {
    match node {
        Some(YamlNode::List(items)) => texts_among(items@),
        _ => seq![],
    }
}

/// Whether the string `s` holds the characters of `key`.
fn text_is(s: &String, key: &str) -> (r: bool)
    ensures
        r == (s@ == key@),
{
    same(&to_chars(s.as_str()), &to_chars(key))
}

/// The value that the mapping `doc` gives to the string key `key`.
pub fn get_field<'a>(doc: &'a YamlNode, key: &str) -> (r: Option<&'a YamlNode>)
    ensures
        match r {
            Some(node) => field(*doc, key@) == Some(*node),
            None => field(*doc, key@) is None,
        },
{
    match doc {
        YamlNode::Mapping(entries) => {
            let mut i: usize = 0;
            while i < entries.len()
                invariant
                    i <= entries.len(),
                    field(*doc, key@) == entry_from(entries@, key@, i as int),
                decreases entries.len() - i,
            {
                let found = match &entries[i].0 {
                    YamlNode::Text(k) => text_is(k, key),
                    _ => false,
                };
                if found {
                    return Some(&entries[i].1);
                }
                i += 1;
            }
            None
        },
        _ => None,
    }
}

/// The string that the mapping `doc` gives to `key`, or the empty string.
pub fn get_string(doc: &YamlNode, key: &str) -> (r: String)
    ensures
        r@ == text_of(field(*doc, key@)),
{
    match get_field(doc, key) {
        Some(YamlNode::Text(s)) => s.clone(),
        _ => String::new(),
    }
}

/// The strings of the sequence that the mapping `doc` gives to `key`.
pub fn get_array(doc: &YamlNode, key: &str) -> (r: Vec<String>)
    ensures
        crate::text::texts(r@) == list_of(field(*doc, key@)),
{
    let mut out: Vec<String> = Vec::new();
    assert(crate::text::texts(out@) == Seq::<Seq<char>>::empty());
    match get_field(doc, key) {
        Some(YamlNode::List(items)) => {
            let mut i: usize = 0;
            assert(items@.take(0) == Seq::<YamlNode>::empty());
            while i < items.len()
                invariant
                    i <= items.len(),
                    crate::text::texts(out@) == texts_among(items@.take(i as int)),
                decreases items.len() - i,
            {
                assert(items@.take(i + 1).drop_last() == items@.take(i as int));
                match &items[i] {
                    YamlNode::Text(s) => {
                        let ghost before = crate::text::texts(out@);
                        out.push(s.clone());
                        assert(crate::text::texts(out@) == before.push(s@));
                    },
                    _ => {},
                }
                i += 1;
            }
            assert(items@.take(items.len() as int) == items@);
            out
        },
        _ => out,
    }
}

} // verus!
