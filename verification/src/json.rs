//! JSON values.
use serde_json::Value;
use vstd::prelude::*;

use crate::deep::deep;
use crate::text::same;

verus! {

broadcast use {crate::deep::group_deep, crate::deep::lemma_take_next, crate::deep::lemma_take_all};

#[verifier::external_type_specification]
#[verifier::external_body]
pub struct ExValue(serde_json::Value);

#[verifier::external_type_specification]
#[verifier::external_body]
#[verifier::reject_recursive_types(K)]
#[verifier::reject_recursive_types(V)]
pub struct ExMap<K, V>(serde_json::Map<K, V>);

#[verifier::external_type_specification]
#[verifier::external_body]
pub struct ExError(serde_json::Error);

/// What a JSON value is. Of a number it holds what it is as an unsigned integer of 64 bits, where it
/// is one.
pub enum JsonTree {
    Null,
    Bool(bool),
    Number(Option<u64>),
    Text(Seq<char>),
    Array(Seq<JsonTree>),
    Object(Seq<(Seq<char>, JsonTree)>),
}

/// A JSON value.
#[derive(Debug)]
pub enum Json {
    Null,
    Bool(bool),
    Number(Option<u64>),
    Text(String),
    Array(Vec<Json>),
    Object(Vec<(String, Json)>),
}

/// What a JSON value is.
pub open spec fn tree(j: Json) -> JsonTree
    decreases j,
{
    match j {
        Json::Null => JsonTree::Null,
        Json::Bool(b) => JsonTree::Bool(b),
        Json::Number(n) => JsonTree::Number(n),
        Json::Text(s) => JsonTree::Text(s@),
        Json::Array(v) => JsonTree::Array(
            Seq::new(
                v@.len(),
                |i: int|
                    if 0 <= i < v@.len() {
                        tree(v@[i])
                    } else {
                        JsonTree::Null
                    },
            ),
        ),
        Json::Object(v) => JsonTree::Object(
            Seq::new(
                v@.len(),
                |i: int|
                    if 0 <= i < v@.len() {
                        (v@[i].0@, tree(v@[i].1))
                    } else {
                        (Seq::empty(), JsonTree::Null)
                    },
            ),
        ),
    }
}

/// What a parsed value is.
pub uninterp spec fn value_tree(v: serde_json::Value) -> JsonTree;

/// The entries of a parsed object, in the order in which they are walked.
pub uninterp spec fn map_entries_of(m: serde_json::Map<String, serde_json::Value>) -> Seq<(Seq<char>, JsonTree)>;

/// What a text says as JSON; nothing where it is not JSON.
pub uninterp spec fn json_of_text(text: Seq<char>) -> Option<JsonTree>;

/// One level of a parsed value.
pub enum Node {
    Null,
    Bool(bool),
    Number,
    Text(String),
    Array(Vec<Value>),
    Object(serde_json::Map<String, Value>),
}

/// `serde_json::from_str` for any value: it succeeds where the text is JSON, and then gives the
/// value that the text says.
#[verifier::external_body]
fn parse_value(text: &str) -> (r: Result<Value, serde_json::Error>)
    ensures
        match r {
            Ok(v) => json_of_text(text@) == Some(value_tree(v)),
            Err(_) => json_of_text(text@) is None,
        },
{
    serde_json::from_str::<Value>(text)
}

/// The variants of `serde_json::Value`, one for one.
#[verifier::external_body]
fn open_value(v: Value) -> (r: Node)
    ensures
        match r {
            Node::Null => value_tree(v) == JsonTree::Null,
            Node::Bool(b) => value_tree(v) == JsonTree::Bool(b),
            Node::Number => value_tree(v) is Number,
            Node::Text(s) => value_tree(v) == JsonTree::Text(s@),
            Node::Array(a) => value_tree(v) == JsonTree::Array(Seq::new(a@.len(), |i: int| value_tree(a@[i]))),
            Node::Object(m) => value_tree(v) == JsonTree::Object(map_entries_of(m)),
        },
{
    match v {
        Value::Null => Node::Null,
        Value::Bool(b) => Node::Bool(b),
        Value::Number(_) => Node::Number,
        Value::String(s) => Node::Text(s),
        Value::Array(a) => Node::Array(a),
        Value::Object(m) => Node::Object(m),
    }
}

/// `Value::as_u64`: what a number is as an unsigned integer of 64 bits, where it is one; nothing for
/// any other value.
#[verifier::external_body]
fn value_u64(v: &Value) -> (r: Option<u64>)
    ensures
        r == (match value_tree(*v) {
            JsonTree::Number(n) => n,
            _ => None,
        }),
{
    v.as_u64()
}

/// `Map::into_iter`: the entries of an object.
#[verifier::external_body]
fn map_entries(m: serde_json::Map<String, Value>) -> (r: Vec<(String, Value)>)
    ensures
        map_entries_of(m) == Seq::new(r@.len(), |i: int| (r@[i].0@, value_tree(r@[i].1))),
{
    m.into_iter().collect()
}

/// The same value as a [`Json`].
fn json_from(v: Value) -> (r: Json)
    ensures
        tree(r) == value_tree(v),
    decreases value_tree(v),
{
    let n = value_u64(&v);
    let ghost t = value_tree(v);
    match open_value(v) {
        Node::Null => Json::Null,
        Node::Bool(b) => Json::Bool(b),
        Node::Number => Json::Number(n),
        Node::Text(s) => Json::Text(s),
        Node::Array(a) => {
            let ghost all = a@;
            let mut a = a;
            let mut back: Vec<Json> = Vec::new();
            loop
                invariant_except_break
                    t == value_tree(v),
                    t == JsonTree::Array(Seq::new(all.len(), |i: int| value_tree(all[i]))),
                    a@.len() + back@.len() == all.len(),
                    a@ == all.take(a@.len() as int),
                    forall|j: int|
                        0 <= j < back@.len() ==> tree(#[trigger] back@[j]) == value_tree(
                            all[all.len() - 1 - j],
                        ),
                ensures
                    back@.len() == all.len(),
                    forall|j: int|
                        0 <= j < back@.len() ==> tree(#[trigger] back@[j]) == value_tree(
                            all[all.len() - 1 - j],
                        ),
                decreases a@.len(),
            {
                let ghost k = a@.len() - 1;
                match a.pop() {
                    Some(x) => {
                        assert(x == all[k]);
                        assert(t->Array_0[k] == value_tree(x));
                        back.push(json_from(x));
                    },
                    None => {
                        break;
                    },
                }
            }
            let mut items: Vec<Json> = Vec::new();
            loop
                invariant_except_break
                    items@.len() + back@.len() == all.len(),
                    forall|j: int|
                        0 <= j < back@.len() ==> tree(#[trigger] back@[j]) == value_tree(
                            all[all.len() - 1 - j],
                        ),
                    forall|j: int| 0 <= j < items@.len() ==> tree(#[trigger] items@[j]) == value_tree(all[j]),
                ensures
                    items@.len() == all.len(),
                    forall|j: int| 0 <= j < items@.len() ==> tree(#[trigger] items@[j]) == value_tree(all[j]),
                decreases back@.len(),
            {
                match back.pop() {
                    Some(x) => {
                        items.push(x);
                    },
                    None => {
                        break;
                    },
                }
            }
            let r = Json::Array(items);
            assert(tree(r)->Array_0 =~= t->Array_0);
            r
        },
        Node::Object(m) => {
            let ghost entries = map_entries_of(m);
            let a = map_entries(m);
            let ghost all = a@;
            let mut a = a;
            let mut back: Vec<(String, Json)> = Vec::new();
            loop
                invariant_except_break
                    t == value_tree(v),
                    t == JsonTree::Object(entries),
                    entries == Seq::new(all.len(), |i: int| (all[i].0@, value_tree(all[i].1))),
                    a@.len() + back@.len() == all.len(),
                    a@ == all.take(a@.len() as int),
                    forall|j: int|
                        0 <= j < back@.len() ==> (#[trigger] back@[j]).0@ == all[all.len() - 1 - j].0@ && tree(
                            back@[j].1,
                        ) == value_tree(all[all.len() - 1 - j].1),
                ensures
                    back@.len() == all.len(),
                    forall|j: int|
                        0 <= j < back@.len() ==> (#[trigger] back@[j]).0@ == all[all.len() - 1 - j].0@ && tree(
                            back@[j].1,
                        ) == value_tree(all[all.len() - 1 - j].1),
                decreases a@.len(),
            {
                let ghost k = a@.len() - 1;
                match a.pop() {
                    Some(x) => {
                        assert(x == all[k]);
                        assert(t->Object_0[k] == (x.0@, value_tree(x.1)));
                        assert(t->Object_0[k].1 == value_tree(x.1));
                        back.push((x.0, json_from(x.1)));
                    },
                    None => {
                        break;
                    },
                }
            }
            let mut items: Vec<(String, Json)> = Vec::new();
            loop
                invariant_except_break
                    items@.len() + back@.len() == all.len(),
                    forall|j: int|
                        0 <= j < back@.len() ==> (#[trigger] back@[j]).0@ == all[all.len() - 1 - j].0@ && tree(
                            back@[j].1,
                        ) == value_tree(all[all.len() - 1 - j].1),
                    forall|j: int|
                        0 <= j < items@.len() ==> (#[trigger] items@[j]).0@ == all[j].0@ && tree(items@[j].1)
                            == value_tree(all[j].1),
                ensures
                    items@.len() == all.len(),
                    forall|j: int|
                        0 <= j < items@.len() ==> (#[trigger] items@[j]).0@ == all[j].0@ && tree(items@[j].1)
                            == value_tree(all[j].1),
                decreases back@.len(),
            {
                match back.pop() {
                    Some(x) => {
                        items.push(x);
                    },
                    None => {
                        break;
                    },
                }
            }
            let r = Json::Object(items);
            assert(tree(r)->Object_0 =~= t->Object_0);
            r
        },
    }
}

/// What a text says as JSON; nothing where it is not JSON.
pub fn parse(text: &str) -> (r: Option<Json>)
    ensures
        match r {
            Some(j) => json_of_text(text@) == Some(tree(j)),
            None => json_of_text(text@) is None,
        },
{
    match parse_value(text) {
        Ok(v) => Some(json_from(v)),
        Err(_) => None,
    }
}

/// The value behind a key.
pub open spec fn lookup(entries: Seq<(Seq<char>, JsonTree)>, k: Seq<char>) -> Option<JsonTree>
    decreases entries.len(),
{
    if entries.len() == 0 {
        None
    } else if entries[0].0 == k {
        Some(entries[0].1)
    } else {
        lookup(entries.skip(1), k)
    }
}

impl JsonTree {
    /// The value behind a key of an object.
    pub open spec fn field(self, k: Seq<char>) -> Option<JsonTree> {
        match self {
            JsonTree::Object(entries) => lookup(entries, k),
            _ => None,
        }
    }

    pub open spec fn text(self) -> Option<Seq<char>> {
        match self {
            JsonTree::Text(s) => Some(s),
            _ => None,
        }
    }

    pub open spec fn number(self) -> Option<u64> {
        match self {
            JsonTree::Number(n) => n,
            _ => None,
        }
    }

    pub open spec fn boolean(self) -> Option<bool> {
        match self {
            JsonTree::Bool(b) => Some(b),
            _ => None,
        }
    }

    pub open spec fn items(self) -> Option<Seq<JsonTree>> {
        match self {
            JsonTree::Array(v) => Some(v),
            _ => None,
        }
    }

    /// The text behind a key of an object.
    pub open spec fn text_at(self, k: Seq<char>) -> Option<Seq<char>> {
        match self.field(k) {
            Some(v) => v.text(),
            None => None,
        }
    }

    /// The number behind a key of an object.
    pub open spec fn number_at(self, k: Seq<char>) -> Option<u64> {
        match self.field(k) {
            Some(v) => v.number(),
            None => None,
        }
    }

    /// The truth value behind a key of an object.
    pub open spec fn boolean_at(self, k: Seq<char>) -> Option<bool> {
        match self.field(k) {
            Some(v) => v.boolean(),
            None => None,
        }
    }

    /// The list behind a key of an object.
    pub open spec fn items_at(self, k: Seq<char>) -> Option<Seq<JsonTree>> {
        match self.field(k) {
            Some(v) => v.items(),
            None => None,
        }
    }
}

/// The values of a list.
pub open spec fn trees(v: Seq<Json>) -> Seq<JsonTree> {
    v.map_values(|j: Json| tree(j))
}

impl Json {
    /// The value behind a key of an object.
    pub fn get(&self, k: &str) -> (r: Option<&Json>)
        ensures
            match r {
                Some(v) => tree(*self).field(k@) == Some(tree(*v)),
                None => tree(*self).field(k@) is None,
            },
    {
        match self {
            Json::Object(v) => {
                let ghost entries = tree(*self)->Object_0;
                let mut i: usize = 0;
                assert(entries.skip(0) =~= entries);
                while i < v.len()
                    invariant
                        i <= v@.len(),
                        *self == Json::Object(*v),
                        entries == tree(*self)->Object_0,
                        entries.len() == v@.len(),
                        lookup(entries, k@) == lookup(entries.skip(i as int), k@),
                    decreases v.len() - i,
                {
                    proof {
                        assert(entries.skip(i as int)[0] == (v@[i as int].0@, tree(v@[i as int].1)));
                        assert(entries.skip(i as int).skip(1) =~= entries.skip(i + 1));
                    }
                    if same(v[i].0.as_str(), k) {
                        return Some(&v[i].1);
                    }
                    i += 1;
                }
                None
            },
            _ => None,
        }
    }

    /// A text.
    pub fn as_str(&self) -> (r: Option<&str>)
        ensures
            r.deep_view() == tree(*self).text(),
    {
        match self {
            Json::Text(s) => Some(s.as_str()),
            _ => None,
        }
    }

    /// A number.
    pub fn as_u64(&self) -> (r: Option<u64>)
        ensures
            r == tree(*self).number(),
    {
        match self {
            Json::Number(n) => *n,
            _ => None,
        }
    }

    /// A truth value.
    pub fn as_bool(&self) -> (r: Option<bool>)
        ensures
            r == tree(*self).boolean(),
    {
        match self {
            Json::Bool(b) => Some(*b),
            _ => None,
        }
    }

    /// A list.
    pub fn as_array(&self) -> (r: Option<&Vec<Json>>)
        ensures
            match r {
                Some(v) => tree(*self).items() == Some(trees(v@)),
                None => tree(*self).items() is None,
            },
    {
        match self {
            Json::Array(v) => {
                assert(tree(*self)->Array_0 =~= trees(v@));
                Some(v)
            },
            _ => None,
        }
    }

    /// The text behind a key of an object.
    pub fn str_at(&self, k: &str) -> (r: Option<&str>)
        ensures
            r.deep_view() == tree(*self).text_at(k@),
    {
        match self.get(k) {
            Some(v) => v.as_str(),
            None => None,
        }
    }

    /// The number behind a key of an object.
    pub fn u64_at(&self, k: &str) -> (r: Option<u64>)
        ensures
            r == tree(*self).number_at(k@),
    {
        match self.get(k) {
            Some(v) => v.as_u64(),
            None => None,
        }
    }

    /// The truth value behind a key of an object.
    pub fn bool_at(&self, k: &str) -> (r: Option<bool>)
        ensures
            r == tree(*self).boolean_at(k@),
    {
        match self.get(k) {
            Some(v) => v.as_bool(),
            None => None,
        }
    }

    /// The list behind a key of an object.
    pub fn array_at(&self, k: &str) -> (r: Option<&Vec<Json>>)
        ensures
            match r {
                Some(v) => tree(*self).items_at(k@) == Some(trees(v@)),
                None => tree(*self).items_at(k@) is None,
            },
    {
        match self.get(k) {
            Some(v) => v.as_array(),
            None => None,
        }
    }
}

/// The value behind a key is that of the first entry with the key, and there is none where no entry has it.
pub proof fn law_value_behind_a_key(entries: Seq<(Seq<char>, JsonTree)>, k: Seq<char>, i: int)
    requires
        0 <= i <= entries.len(),
        forall|j: int| 0 <= j < i ==> (#[trigger] entries[j]).0 != k,
        i < entries.len() ==> entries[i].0 == k,
    ensures
        i < entries.len() ==> lookup(entries, k) == Some(entries[i].1),
        i == entries.len() ==> lookup(entries, k) is None,
        JsonTree::Object(entries).field(k) == lookup(entries, k),
    decreases entries.len(),
{
    if i > 0 {
        assert(entries[0].0 != k);
        let rest = entries.skip(1);
        assert forall|j: int| 0 <= j < i - 1 implies (#[trigger] rest[j]).0 != k by {
            assert(rest[j] == entries[j + 1]);
        }
        law_value_behind_a_key(rest, k, i - 1);
    }
}

/// What is read of a value is what was written, and a value of one sort is not read as one of another.
pub proof fn law_values_keep_their_sort(v: JsonTree)
    ensures
        v.text() matches Some(s) ==> v == JsonTree::Text(s),
        v.boolean() matches Some(b) ==> v == JsonTree::Bool(b),
        v.items() matches Some(l) ==> v == JsonTree::Array(l),
        v.number() matches Some(n) ==> v == JsonTree::Number(Some(n)),
        v is Text ==> v.text() is Some,
        v is Bool ==> v.boolean() is Some,
        v is Array ==> v.items() is Some,
        v matches JsonTree::Number(n) ==> v.number() == n,
        !(v is Object) ==> forall|k: Seq<char>| (#[trigger] v.field(k)) is None,
{
}

} // verus!
