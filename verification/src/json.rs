//! JSON documents as plain values. The text is read by `serde_json`; what
//! it read is copied, node for node, into [`Json`], on which the rest of
//! the library works.
use crate::text::{same_text, text_less};
use vstd::prelude::*;

verus! {

/// `serde_json::Value`, carried through as it is: nothing is known of
/// what a value holds but through [`json_value_tree`].
#[verifier::external_type_specification]
#[verifier::external_body]
pub struct ExJsonValue(serde_json::Value);

/// `serde_json::Error`, carried through as it is.
#[verifier::external_type_specification]
#[verifier::external_body]
pub struct ExJsonError(serde_json::Error);

/// A JSON document.
#[derive(Debug)]
pub enum Json {
    Null,
    Bool(bool),
    /// A number; its value where it is a non-negative integer below 2^64.
    Number(Option<u64>),
    Text(String),
    List(Vec<Json>),
    /// The members of an object, in the order in which the reader walks them.
    Object(Vec<JsonField>),
}

/// One member of a JSON object.
#[derive(Debug)]
pub struct JsonField {
    pub name: String,
    pub value: Json,
}

/// Mathematical value of a [`Json`].
pub enum JsonTree {
    Null,
    Bool(bool),
    Number(Option<u64>),
    Text(Seq<char>),
    List(Seq<JsonTree>),
    Object(Seq<(Seq<char>, JsonTree)>),
}

/// The mathematical value of a document.
pub open spec fn json_view(j: Json) -> JsonTree
    decreases j,
{
    match j {
        Json::Null => JsonTree::Null,
        Json::Bool(b) => JsonTree::Bool(b),
        Json::Number(n) => JsonTree::Number(n),
        Json::Text(s) => JsonTree::Text(s@),
        Json::List(items) => JsonTree::List(
            Seq::new(
                items@.len(),
                |i: int|
                    if 0 <= i < items@.len() {
                        json_view(items@[i])
                    } else {
                        JsonTree::Null
                    },
            ),
        ),
        Json::Object(fields) => JsonTree::Object(
            Seq::new(
                fields@.len(),
                |i: int|
                    if 0 <= i < fields@.len() {
                        (fields@[i].name@, json_view(fields@[i].value))
                    } else {
                        (Seq::empty(), JsonTree::Null)
                    },
            ),
        ),
    }
}

impl View for Json {
    type V = JsonTree;

    open spec fn view(&self) -> JsonTree {
        json_view(*self)
    }
}

/// The views of a list of documents.
pub open spec fn json_views(v: Seq<Json>) -> Seq<JsonTree> {
    Seq::new(v.len(), |i: int| v[i]@)
}

/// The views of the members of an object.
pub open spec fn field_views(v: Seq<JsonField>) -> Seq<(Seq<char>, JsonTree)> {
    Seq::new(v.len(), |i: int| (v[i].name@, v[i].value@))
}

/// What `serde_json` reads from a text as a generic value: the document,
/// or `None` where it rejects the text.
pub uninterp spec fn json_document(text: Seq<char>) -> Option<JsonTree>;

/// The document that a value of `serde_json` holds.
pub uninterp spec fn json_value_tree(v: serde_json::Value) -> JsonTree;

/// `serde_json::from_str` at the type `serde_json::Value`: the value read
/// holds the document of the text; an error means that the text has none.
#[verifier::external_body]
fn json_load(text: &str) -> (r: Result<serde_json::Value, serde_json::Error>)
    ensures
        r is Ok <==> json_document(text@) is Some,
        r matches Ok(v) ==> json_document(text@) == Some(json_value_tree(v)),
{
    serde_json::from_str::<serde_json::Value>(text)
}

/// Copies a value of `serde_json` into a [`Json`], variant for variant. A
/// number keeps what `Number::as_u64` gives; the members of an object come
/// in the order of `Map::iter`.
#[verifier::external_body]
fn json_of_value(v: &serde_json::Value) -> (j: Json)
    ensures
        j@ == json_value_tree(*v),
{
    match v {
        serde_json::Value::Null => Json::Null,
        serde_json::Value::Bool(b) => Json::Bool(*b),
        serde_json::Value::Number(n) => Json::Number(n.as_u64()),
        serde_json::Value::String(s) => Json::Text(s.clone()),
        serde_json::Value::Array(xs) => Json::List(xs.iter().map(json_of_value).collect()),
        serde_json::Value::Object(m) => Json::Object(
            m.iter().map(|(k, x)| JsonField { name: k.clone(), value: json_of_value(x) }).collect(),
        ),
    }
}

/// The message of an error of `serde_json`, as its `Display` gives it.
#[verifier::external_body]
fn json_error_text(e: &serde_json::Error) -> (s: String) {
    e.to_string()
}

/// The view of a list node is the list of the views of its items; that of
/// an object node the list of its members.
pub proof fn lemma_json_view(j: Json)
    ensures
        j matches Json::List(items) ==> j@ == JsonTree::List(json_views(items@)),
        j matches Json::Object(fields) ==> j@ == JsonTree::Object(field_views(fields@)),
{
    match j {
        Json::List(items) => {
            assert(j@->List_0 =~= json_views(items@));
        },
        Json::Object(fields) => {
            assert(j@->Object_0 =~= field_views(fields@));
        },
        _ => {},
    }
}

/// Reads a JSON text. Succeeds exactly on the texts that `serde_json`
/// accepts, with the document that it reads; else returns its message.
pub fn parse_json(text: &str) -> (r: Result<Json, String>)
    ensures
        match json_document(text@) {
            Some(t) => r matches Ok(j) && j@ == t,
            None => r is Err,
        },
{
    match json_load(text) {
        Ok(v) => Ok(json_of_value(&v)),
        Err(e) => Err(json_error_text(&e)),
    }
}

/// The value of the first member called `name` of an object; `None` for
/// an object without such a member and for any other document.
pub open spec fn member(t: JsonTree, name: Seq<char>) -> Option<JsonTree> {
    match t {
        JsonTree::Object(fields) => member_from(fields, name, 0),
        _ => None,
    }
}

/// The value of the first member called `name` at or behind `from`.
pub open spec fn member_from(fields: Seq<(Seq<char>, JsonTree)>, name: Seq<char>, from: int)
    -> Option<JsonTree>
    decreases fields.len() - from,
{
    if from < 0 || from >= fields.len() {
        None
    } else if fields[from].0 == name {
        Some(fields[from].1)
    } else {
        member_from(fields, name, from + 1)
    }
}

/// The text of a text node.
pub open spec fn text_of(t: JsonTree) -> Option<Seq<char>> {
    match t {
        JsonTree::Text(s) => Some(s),
        _ => None,
    }
}

impl Json {
    /// The member `name` of an object.
    pub fn get(&self, name: &str) -> (r: Option<&Json>)
        ensures
            match r {
                Some(v) => member(self@, name@) == Some(v@),
                None => member(self@, name@) is None,
            },
    {
        proof {
            lemma_json_view(*self);
        }
        match self {
            Json::Object(fields) => {
                let mut i: usize = 0;
                while i < fields.len()
                    invariant
                        i <= fields@.len(),
                        self@ == JsonTree::Object(field_views(fields@)),
                        member_from(field_views(fields@), name@, 0) == member_from(
                            field_views(fields@),
                            name@,
                            i as int,
                        ),
                    decreases fields@.len() - i,
                {
                    proof {
                        let fv = field_views(fields@);
                        assert(fv[i as int] == (fields@[i as int].name@, fields@[i as int].value@));
                    }
                    if same_text(fields[i].name.as_str(), name) {
                        return Some(&fields[i].value);
                    }
                    i = i + 1;
                }
                None
            },
            _ => None,
        }
    }

    /// The text of a text node.
    pub fn as_str(&self) -> (r: Option<&str>)
        ensures
            match r {
                Some(s) => text_of(self@) == Some(s@),
                None => text_of(self@) is None,
            },
    {
        match self {
            Json::Text(s) => Some(s.as_str()),
            _ => None,
        }
    }

    /// Whether the node is `null`.
    pub fn is_null(&self) -> (r: bool)
        ensures
            r == (self@ is Null),
    {
        match self {
            Json::Null => true,
            _ => false,
        }
    }
}

/// A document that has not the shape that its reader expects.
#[derive(Debug, Clone, Copy, PartialEq, Eq, Structural)]
pub struct Malformed;

impl Malformed {
    /// A one-line description.
    pub fn to_string(&self) -> (s: String)
        ensures
            s@ == "unexpected shape of document"@,
    {
        "unexpected shape of document".to_owned()
    }
}

/// An optional text member: `None` where the member is missing or `null`,
/// its text where it is a text. Any other member is a fault: outer `None`.
pub open spec fn opt_text_member(t: JsonTree, name: Seq<char>) -> Option<Option<Seq<char>>> {
    match member(t, name) {
        None => Some(None),
        Some(JsonTree::Null) => Some(None),
        Some(JsonTree::Text(s)) => Some(Some(s)),
        Some(_) => None,
    }
}

/// A text member with the empty text as default: the empty text where the
/// member is missing, its text where it is a text, else a fault.
pub open spec fn text_member_or_empty(t: JsonTree, name: Seq<char>) -> Option<Seq<char>> {
    match member(t, name) {
        None => Some(Seq::empty()),
        Some(JsonTree::Text(s)) => Some(s),
        Some(_) => None,
    }
}

/// A text member that must be there.
pub open spec fn text_member(t: JsonTree, name: Seq<char>) -> Option<Seq<char>> {
    match member(t, name) {
        Some(JsonTree::Text(s)) => Some(s),
        _ => None,
    }
}

/// A list member with the empty list as default: no items where the
/// member is missing, its items where it is a list, else a fault.
pub open spec fn list_member(t: JsonTree, name: Seq<char>) -> Option<Seq<JsonTree>> {
    match member(t, name) {
        None => Some(Seq::empty()),
        Some(JsonTree::List(items)) => Some(items),
        Some(_) => None,
    }
}

/// The items that an optional list stands for.
pub open spec fn items_of(v: Option<&Vec<Json>>) -> Seq<JsonTree> {
    match v {
        Some(items) => json_views(items@),
        None => Seq::empty(),
    }
}

impl Json {
    /// Whether the node is an object.
    pub fn is_object(&self) -> (r: bool)
        ensures
            r == (self@ is Object),
    {
        match self {
            Json::Object(_) => true,
            _ => false,
        }
    }

    /// The items of a list node.
    pub fn as_list(&self) -> (r: Option<&Vec<Json>>)
        ensures
            match r {
                Some(items) => self@ == JsonTree::List(json_views(items@)),
                None => !(self@ is List),
            },
    {
        proof {
            lemma_json_view(*self);
        }
        match self {
            Json::List(items) => Some(items),
            _ => None,
        }
    }

    /// The members of an object node.
    pub fn as_object(&self) -> (r: Option<&Vec<JsonField>>)
        ensures
            match r {
                Some(fields) => self@ == JsonTree::Object(field_views(fields@)),
                None => !(self@ is Object),
            },
    {
        proof {
            lemma_json_view(*self);
        }
        match self {
            Json::Object(fields) => Some(fields),
            _ => None,
        }
    }

    /// The value of a number node that is a non-negative integer below 2^64.
    pub fn as_u64(&self) -> (r: Option<u64>)
        ensures
            r == (match self@ {
                JsonTree::Number(n) => n,
                _ => None,
            }),
    {
        match self {
            Json::Number(n) => *n,
            _ => None,
        }
    }

    /// Reads an optional text member.
    pub fn opt_text(&self, name: &str) -> (r: Result<Option<String>, Malformed>)
        ensures
            match r {
                Ok(v) => opt_text_member(self@, name@) == Some(crate::text::opt_text(v)),
                Err(_) => opt_text_member(self@, name@) is None,
            },
    {
        match self.get(name) {
            None => Ok(None),
            Some(v) => match v {
                Json::Null => Ok(None),
                Json::Text(s) => Ok(Some(s.clone())),
                _ => Err(Malformed),
            },
        }
    }

    /// Reads a text member that may be missing.
    pub fn text_or_empty(&self, name: &str) -> (r: Result<String, Malformed>)
        ensures
            match r {
                Ok(v) => text_member_or_empty(self@, name@) == Some(v@),
                Err(_) => text_member_or_empty(self@, name@) is None,
            },
    {
        match self.get(name) {
            None => Ok(String::new()),
            Some(v) => match v {
                Json::Text(s) => Ok(s.clone()),
                _ => Err(Malformed),
            },
        }
    }

    /// Reads a text member that must be there.
    pub fn text(&self, name: &str) -> (r: Result<String, Malformed>)
        ensures
            match r {
                Ok(v) => text_member(self@, name@) == Some(v@),
                Err(_) => text_member(self@, name@) is None,
            },
    {
        match self.get(name) {
            None => Err(Malformed),
            Some(v) => match v {
                Json::Text(s) => Ok(s.clone()),
                _ => Err(Malformed),
            },
        }
    }

    /// Reads a list member that may be missing.
    pub fn list(&self, name: &str) -> (r: Result<Option<&Vec<Json>>, Malformed>)
        ensures
            match r {
                Ok(v) => list_member(self@, name@) == Some(items_of(v)),
                Err(_) => list_member(self@, name@) is None,
            },
    {
        match self.get(name) {
            None => Ok(None),
            Some(v) => match v.as_list() {
                Some(items) => Ok(Some(items)),
                None => Err(Malformed),
            },
        }
    }
}

/// Whether the names of the members stand in ascending order, none twice.
pub open spec fn ascending_names(fields: Seq<(Seq<char>, JsonTree)>) -> bool {
    forall|i: int, j: int|
        0 <= i < j < fields.len() ==> text_less((#[trigger] fields[i]).0, (#[trigger] fields[j]).0)
}

/// Whether a document can be written as it stands: it holds no number,
/// and the members of each of its objects stand in ascending order of
/// their names, which is the order in which the writer walks them.
pub open spec fn writable(t: JsonTree) -> bool
    decreases t,
{
    match t {
        JsonTree::Number(_) => false,
        JsonTree::List(items) => forall|i: int|
            0 <= i < items.len() ==> writable(#[trigger] items[i]),
        JsonTree::Object(fields) => ascending_names(fields) && forall|i: int|
            0 <= i < fields.len() ==> writable((#[trigger] fields[i]).1),
        _ => true,
    }
}

/// The items of a writable list are writable; so are the members of a
/// writable object, whose names ascend.
pub proof fn lemma_writable(t: JsonTree)
    requires
        writable(t),
    ensures
        t matches JsonTree::List(items) ==> forall|k: int|
            0 <= k < items.len() ==> writable(#[trigger] items[k]),
        t matches JsonTree::Object(fields) ==> ascending_names(fields) && forall|k: int|
            0 <= k < fields.len() ==> writable((#[trigger] fields[k]).1),
{
}

/// What `serde_json::to_string_pretty` makes of a value that holds a
/// writable document: the text that it writes, or `None` where it fails.
pub uninterp spec fn json_pretty_text(t: JsonTree) -> Option<Seq<char>>;

/// The documents that a list of values of `serde_json` holds.
pub open spec fn value_trees(v: Seq<serde_json::Value>) -> Seq<JsonTree> {
    Seq::new(v.len(), |i: int| json_value_tree(v[i]))
}

/// The members that a list of named values of `serde_json` holds.
pub open spec fn member_trees(v: Seq<(String, serde_json::Value)>) -> Seq<(Seq<char>, JsonTree)> {
    Seq::new(v.len(), |i: int| (v[i].0@, json_value_tree(v[i].1)))
}

/// `serde_json::Value::Null`.
#[verifier::external_body]
fn value_null() -> (v: serde_json::Value)
    ensures
        json_value_tree(v) == JsonTree::Null,
{
    serde_json::Value::Null
}

/// `serde_json::Value::Bool`.
#[verifier::external_body]
fn value_bool(b: bool) -> (v: serde_json::Value)
    ensures
        json_value_tree(v) == JsonTree::Bool(b),
{
    serde_json::Value::Bool(b)
}

/// `serde_json::Value::String`.
#[verifier::external_body]
fn value_text(s: String) -> (v: serde_json::Value)
    ensures
        json_value_tree(v) == JsonTree::Text(s@),
{
    serde_json::Value::String(s)
}

/// `serde_json::Value::Array`: the value holds the documents of the items,
/// in their order.
#[verifier::external_body]
fn value_list(items: Vec<serde_json::Value>) -> (v: serde_json::Value)
    ensures
        json_value_tree(v) == JsonTree::List(value_trees(items@)),
{
    serde_json::Value::Array(items)
}

/// `serde_json::Value::Object` over `Map::from_iter`. The map keeps its
/// members in ascending order of their names, so for members that are
/// given in that order, no name twice, the value holds them as given.
#[verifier::external_body]
fn value_object(fields: Vec<(String, serde_json::Value)>) -> (v: serde_json::Value)
    requires
        ascending_names(member_trees(fields@)),
    ensures
        json_value_tree(v) == JsonTree::Object(member_trees(fields@)),
{
    serde_json::Value::Object(fields.into_iter().collect())
}

/// `serde_json::to_string_pretty` on a value. What it returns depends on
/// the value alone, and a value that holds a writable document is known
/// by that document: so the text written is the text of the document, and
/// an error means that the document has none.
#[verifier::external_body]
fn value_pretty(v: &serde_json::Value) -> (r: Result<String, serde_json::Error>)
    ensures
        writable(json_value_tree(*v)) ==> (match r {
            Ok(s) => json_pretty_text(json_value_tree(*v)) == Some(s@),
            Err(_) => json_pretty_text(json_value_tree(*v)) is None,
        }),
{
    serde_json::to_string_pretty(v)
}

/// The value of `serde_json` that holds a writable document.
#[verifier::loop_isolation(false)]
fn to_value(j: &Json) -> (v: serde_json::Value)
    requires
        writable(j@),
    ensures
        json_value_tree(v) == j@,
    decreases j,
{
    proof {
        lemma_json_view(*j);
    }
    match j {
        Json::Null => value_null(),
        Json::Bool(b) => value_bool(*b),
        // a writable document holds no number
        Json::Number(_) => value_null(),
        Json::Text(s) => value_text(s.clone()),
        Json::List(items) => {
            let ghost iv = json_views(items@);
            let mut out: Vec<serde_json::Value> = Vec::new();
            let mut i: usize = 0;
            proof {
                lemma_writable(j@);
            }
            while i < items.len()
                invariant
                    i <= items@.len(),
                    out@.len() == i,
                    forall|k: int| 0 <= k < i ==> json_value_tree(#[trigger] out@[k]) == iv[k],
                decreases items@.len() - i,
            {
                assert(iv[i as int] == items@[i as int]@);
                assert(writable(iv[i as int]));
                let v = to_value(&items[i]);
                out.push(v);
                i = i + 1;
            }
            assert(value_trees(out@) =~= iv);
            value_list(out)
        },
        Json::Object(fields) => {
            let ghost fv = field_views(fields@);
            let mut out: Vec<(String, serde_json::Value)> = Vec::new();
            let mut i: usize = 0;
            proof {
                lemma_writable(j@);
            }
            while i < fields.len()
                invariant
                    i <= fields@.len(),
                    out@.len() == i,
                    forall|k: int|
                        0 <= k < i ==> (#[trigger] out@[k]).0@ == fv[k].0 && json_value_tree(
                            out@[k].1,
                        ) == fv[k].1,
                decreases fields@.len() - i,
            {
                assert(fv[i as int] == (fields@[i as int].name@, fields@[i as int].value@));
                assert(writable(fv[i as int].1));
                let v = to_value(&fields[i].value);
                out.push((fields[i].name.clone(), v));
                i = i + 1;
            }
            assert(member_trees(out@) =~= fv);
            value_object(out)
        },
    }
}

/// Writes a writable document as indented JSON text: the text that the
/// writer has for the document, or the writer's message where it has none.
pub(crate) fn render_pretty(j: &Json) -> (r: Result<String, String>)
    requires
        writable(j@),
    ensures
        match json_pretty_text(j@) {
            Some(t) => r matches Ok(s) && s@ == t,
            None => r is Err,
        },
{
    let v = to_value(j);
    match value_pretty(&v) {
        Ok(s) => Ok(s),
        Err(e) => Err(json_error_text(&e)),
    }
}

} // verus!
