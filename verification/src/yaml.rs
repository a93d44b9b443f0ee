//! YAML documents as plain values. The text is read by `serde_yaml`; what
//! it read is copied, node for node, into [`Yaml`], on which the rest of
//! the library works.
use crate::text::same_text;
use vstd::prelude::*;

verus! {

/// `serde_yaml::Value`, carried through as it is: nothing is known of
/// what a value holds but through [`yaml_value_tree`].
#[verifier::external_type_specification]
#[verifier::external_body]
pub struct ExYamlValue(serde_yaml::Value);

/// `serde_yaml::Error`, carried through as it is.
#[verifier::external_type_specification]
#[verifier::external_body]
pub struct ExYamlError(serde_yaml::Error);

/// A YAML document.
#[derive(Debug)]
pub enum Yaml {
    Null,
    Bool(bool),
    /// A number, as text.
    Number(String),
    Text(String),
    List(Vec<Yaml>),
    /// The entries of a mapping, in document order.
    Table(Vec<YamlEntry>),
    /// A node under a tag.
    Tagged(String, Box<Yaml>),
}

/// One entry of a YAML mapping.
#[derive(Debug)]
pub struct YamlEntry {
    pub key: Yaml,
    pub value: Yaml,
}

/// Mathematical value of a [`Yaml`].
pub enum YamlTree {
    Null,
    Bool(bool),
    Number(Seq<char>),
    Text(Seq<char>),
    List(Seq<YamlTree>),
    Table(Seq<(YamlTree, YamlTree)>),
    Tagged(Seq<char>, Box<YamlTree>),
}

/// The mathematical value of a document.
pub open spec fn yaml_view(y: Yaml) -> YamlTree
    decreases y,
{
    match y {
        Yaml::Null => YamlTree::Null,
        Yaml::Bool(b) => YamlTree::Bool(b),
        Yaml::Number(n) => YamlTree::Number(n@),
        Yaml::Text(s) => YamlTree::Text(s@),
        Yaml::List(items) => YamlTree::List(
            Seq::new(
                items@.len(),
                |i: int|
                    if 0 <= i < items@.len() {
                        yaml_view(items@[i])
                    } else {
                        YamlTree::Null
                    },
            ),
        ),
        Yaml::Table(entries) => YamlTree::Table(
            Seq::new(
                entries@.len(),
                |i: int|
                    if 0 <= i < entries@.len() {
                        (yaml_view(entries@[i].key), yaml_view(entries@[i].value))
                    } else {
                        (YamlTree::Null, YamlTree::Null)
                    },
            ),
        ),
        Yaml::Tagged(tag, inner) => YamlTree::Tagged(tag@, Box::new(yaml_view(*inner))),
    }
}

impl View for Yaml {
    type V = YamlTree;

    open spec fn view(&self) -> YamlTree {
        yaml_view(*self)
    }
}

/// The views of a list of documents.
pub open spec fn yaml_views(v: Seq<Yaml>) -> Seq<YamlTree> {
    Seq::new(v.len(), |i: int| v[i]@)
}

/// The views of the entries of a mapping.
pub open spec fn entry_views(v: Seq<YamlEntry>) -> Seq<(YamlTree, YamlTree)> {
    Seq::new(v.len(), |i: int| (v[i].key@, v[i].value@))
}

/// What `serde_yaml` reads from a text as a generic value: the document,
/// or `None` where it rejects the text.
pub uninterp spec fn yaml_document(text: Seq<char>) -> Option<YamlTree>;

/// The document that a value of `serde_yaml` holds.
pub uninterp spec fn yaml_value_tree(v: serde_yaml::Value) -> YamlTree;

/// `serde_yaml::from_str` at the type `serde_yaml::Value`: the value read
/// holds the document of the text; an error means that the text has none.
#[verifier::external_body]
fn yaml_load(text: &str) -> (r: Result<serde_yaml::Value, serde_yaml::Error>)
    ensures
        r is Ok <==> yaml_document(text@) is Some,
        r matches Ok(v) ==> yaml_document(text@) == Some(yaml_value_tree(v)),
{
    serde_yaml::from_str::<serde_yaml::Value>(text)
}

/// Copies a value of `serde_yaml` into a [`Yaml`], variant for variant. A
/// number and a tag keep their `Display` text; the entries of a mapping
/// come in the order of `Mapping::iter`.
#[verifier::external_body]
fn yaml_of_value(v: &serde_yaml::Value) -> (y: Yaml)
    ensures
        y@ == yaml_value_tree(*v),
{
    match v {
        serde_yaml::Value::Null => Yaml::Null,
        serde_yaml::Value::Bool(b) => Yaml::Bool(*b),
        serde_yaml::Value::Number(n) => Yaml::Number(n.to_string()),
        serde_yaml::Value::String(s) => Yaml::Text(s.clone()),
        serde_yaml::Value::Sequence(xs) => Yaml::List(xs.iter().map(yaml_of_value).collect()),
        serde_yaml::Value::Mapping(m) => Yaml::Table(
            m.iter().map(|(k, x)| YamlEntry { key: yaml_of_value(k), value: yaml_of_value(x) }).collect(),
        ),
        serde_yaml::Value::Tagged(t) => Yaml::Tagged(
            t.tag.to_string(),
            Box::new(yaml_of_value(&t.value)),
        ),
    }
}

/// The message of an error of `serde_yaml`, as its `Display` gives it.
#[verifier::external_body]
fn yaml_error_text(e: &serde_yaml::Error) -> (s: String) {
    e.to_string()
}

/// The view of a list node is the list of the views of its items; that of
/// a mapping node the list of its entries; that of a tagged node the view
/// of what stands under the tag.
pub proof fn lemma_yaml_view(y: Yaml)
    ensures
        y matches Yaml::List(items) ==> y@ == YamlTree::List(yaml_views(items@)),
        y matches Yaml::Table(entries) ==> y@ == YamlTree::Table(entry_views(entries@)),
        y matches Yaml::Tagged(tag, inner) ==> y@ == YamlTree::Tagged(tag@, Box::new(inner@)),
{
    match y {
        Yaml::List(items) => {
            assert(y@->List_0 =~= yaml_views(items@));
        },
        Yaml::Table(entries) => {
            assert(y@->Table_0 =~= entry_views(entries@));
        },
        _ => {},
    }
}

/// Reads a YAML text. Succeeds exactly on the texts that `serde_yaml`
/// accepts, with the document that it reads; else returns its message.
pub fn parse_yaml(text: &str) -> (r: Result<Yaml, String>)
    ensures
        match yaml_document(text@) {
            Some(t) => r matches Ok(y) && y@ == t,
            None => r is Err,
        },
{
    match yaml_load(text) {
        Ok(v) => Ok(yaml_of_value(&v)),
        Err(e) => Err(yaml_error_text(&e)),
    }
}

/// The node without the tags around it.
pub open spec fn untag(t: YamlTree) -> YamlTree
    decreases t,
{
    match t {
        YamlTree::Tagged(_, inner) => untag(*inner),
        _ => t,
    }
}

/// The entries of a node read as a record: those of a mapping, none for
/// `null`; `None` for any other node. Tags around the node do not count.
pub open spec fn record_of(t: YamlTree) -> Option<Seq<(YamlTree, YamlTree)>> {
    match untag(t) {
        YamlTree::Table(entries) => Some(entries),
        YamlTree::Null => Some(Seq::empty()),
        _ => None,
    }
}

/// The value of the first entry at or behind `from` whose key is the text
/// `name`. Tags around a key do not count.
pub open spec fn entry_from(entries: Seq<(YamlTree, YamlTree)>, name: Seq<char>, from: int)
    -> Option<YamlTree>
    decreases entries.len() - from,
{
    if from < 0 || from >= entries.len() {
        None
    } else if untag(entries[from].0) == YamlTree::Text(name) {
        Some(entries[from].1)
    } else {
        entry_from(entries, name, from + 1)
    }
}

/// The value of the first entry whose key is the text `name`.
pub open spec fn entry(entries: Seq<(YamlTree, YamlTree)>, name: Seq<char>) -> Option<YamlTree> {
    entry_from(entries, name, 0)
}

/// Whether every key is a text. Tags around a key do not count.
pub open spec fn keys_are_texts(entries: Seq<(YamlTree, YamlTree)>) -> bool {
    forall|i: int| 0 <= i < entries.len() ==> untag((#[trigger] entries[i]).0) is Text
}

/// The text that a scalar stands for: a text itself, the text of a
/// number, `true` or `false`, `null`. `None` for a list or a mapping.
/// Tags around the node do not count.
pub open spec fn scalar_text(t: YamlTree) -> Option<Seq<char>> {
    match untag(t) {
        YamlTree::Text(s) => Some(s),
        YamlTree::Number(n) => Some(n),
        YamlTree::Bool(b) => Some(
            if b {
                "true"@
            } else {
                "false"@
            },
        ),
        YamlTree::Null => Some("null"@),
        _ => None,
    }
}

/// The entries that an optional list of entries stands for.
pub open spec fn entries_of(v: Option<&Vec<YamlEntry>>) -> Seq<(YamlTree, YamlTree)> {
    match v {
        Some(entries) => entry_views(entries@),
        None => Seq::empty(),
    }
}

impl Yaml {
    /// The node without the tags around it.
    pub fn untagged(&self) -> (r: &Yaml)
        ensures
            r@ == untag(self@),
            !(r@ is Tagged),
        decreases self,
    {
        proof {
            lemma_yaml_view(*self);
        }
        match self {
            Yaml::Tagged(_, inner) => inner.untagged(),
            _ => self,
        }
    }

    /// Whether the node itself is `null`.
    pub fn is_null(&self) -> (r: bool)
        ensures
            r == (self@ is Null),
    {
        proof {
            lemma_yaml_view(*self);
        }
        match self {
            Yaml::Null => true,
            _ => false,
        }
    }

    /// The node read as a record.
    pub fn as_record(&self) -> (r: Option<Option<&Vec<YamlEntry>>>)
        ensures
            match r {
                Some(v) => record_of(self@) == Some(entries_of(v)),
                None => record_of(self@) is None,
            },
    {
        let inner = self.untagged();
        proof {
            lemma_yaml_view(*inner);
        }
        match inner {
            Yaml::Table(entries) => Some(Some(entries)),
            Yaml::Null => Some(None),
            _ => None,
        }
    }

    /// The text of a text node. Tags around the node do not count.
    pub fn as_str(&self) -> (r: Option<&str>)
        ensures
            match r {
                Some(s) => untag(self@) == YamlTree::Text(s@),
                None => !(untag(self@) is Text),
            },
    {
        let inner = self.untagged();
        proof {
            lemma_yaml_view(*inner);
        }
        match inner {
            Yaml::Text(s) => Some(s.as_str()),
            _ => None,
        }
    }

    /// The items of a list node. Tags around the node do not count.
    pub fn as_list(&self) -> (r: Option<&Vec<Yaml>>)
        ensures
            match r {
                Some(items) => untag(self@) == YamlTree::List(yaml_views(items@)),
                None => !(untag(self@) is List),
            },
    {
        let inner = self.untagged();
        proof {
            lemma_yaml_view(*inner);
        }
        match inner {
            Yaml::List(items) => Some(items),
            _ => None,
        }
    }

    /// The text that a scalar stands for.
    pub fn to_scalar_text(&self) -> (r: Option<String>)
        ensures
            crate::text::opt_text(r) == scalar_text(self@),
    {
        let inner = self.untagged();
        proof {
            lemma_yaml_view(*inner);
        }
        match inner {
            Yaml::Text(s) => Some(s.clone()),
            Yaml::Number(n) => Some(n.clone()),
            Yaml::Bool(b) => if *b {
                Some("true".to_owned())
            } else {
                Some("false".to_owned())
            },
            Yaml::Null => Some("null".to_owned()),
            _ => None,
        }
    }
}

/// The value of the first entry whose key is the text `name`.
pub fn find_entry<'a>(entries: Option<&'a Vec<YamlEntry>>, name: &str) -> (r: Option<&'a Yaml>)
    ensures
        match r {
            Some(v) => entry(entries_of(entries), name@) == Some(v@),
            None => entry(entries_of(entries), name@) is None,
        },
{
    match entries {
        None => None,
        Some(list) => {
            let ghost ev = entry_views(list@);
            let mut i: usize = 0;
            while i < list.len()
                invariant
                    i <= list@.len(),
                    ev == entry_views(list@),
                    ev == entries_of(entries),
                    entry_from(ev, name@, 0) == entry_from(ev, name@, i as int),
                decreases list@.len() - i,
            {
                assert(ev[i as int] == (list@[i as int].key@, list@[i as int].value@));
                let hit = match list[i].key.as_str() {
                    Some(k) => same_text(k, name),
                    None => false,
                };
                if hit {
                    return Some(&list[i].value);
                }
                i = i + 1;
            }
            None
        },
    }
}

/// Whether every key is a text.
pub fn all_keys_texts(entries: Option<&Vec<YamlEntry>>) -> (r: bool)
    ensures
        r == keys_are_texts(entries_of(entries)),
{
    match entries {
        None => true,
        Some(list) => {
            let ghost ev = entry_views(list@);
            let mut i: usize = 0;
            while i < list.len()
                invariant
                    i <= list@.len(),
                    ev == entry_views(list@),
                    ev == entries_of(entries),
                    forall|k: int| 0 <= k < i ==> untag((#[trigger] ev[k]).0) is Text,
                decreases list@.len() - i,
            {
                assert(ev[i as int] == (list@[i as int].key@, list@[i as int].value@));
                if list[i].key.as_str().is_none() {
                    return false;
                }
                i = i + 1;
            }
            true
        },
    }
}

} // verus!
