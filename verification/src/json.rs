//! JSON documents, read by `serde_json`, as the values this library looks
//! into: texts, lists and objects.

use crate::text::texts;
use vstd::prelude::*;

verus! {

/// A JSON value. Numbers are kept without their value: nothing here reads one.
pub enum JsonValue {
    Null,
    Bool(bool),
    Number,
    Text(String),
    Array(Vec<JsonValue>),
    Object(Vec<(String, JsonValue)>),
}

/// What a text holds as a JSON document; nothing where it is not one.
pub uninterp spec fn json_document(text: Seq<char>) -> Option<JsonValue>;

/// `serde_json::Value`, of which nothing is known here.
#[verifier::external_type_specification]
#[verifier::external_body]
pub struct ExSerdeJsonValue(::serde_json::Value);

/// Turns a `serde_json::Value` into a `JsonValue`, variant by variant, the
/// members of an object in the order in which its map hands them out.
#[verifier::external_body]
fn lower(value: &::serde_json::Value) -> (out: JsonValue) {
    match value {
        ::serde_json::Value::Null => JsonValue::Null,
        ::serde_json::Value::Bool(b) => JsonValue::Bool(*b),
        ::serde_json::Value::Number(_) => JsonValue::Number,
        ::serde_json::Value::String(s) => JsonValue::Text(s.clone()),
        ::serde_json::Value::Array(a) => JsonValue::Array(a.iter().map(lower).collect()),
        ::serde_json::Value::Object(m) => JsonValue::Object(
            m.iter().map(|(k, v)| (k.clone(), lower(v))).collect(),
        ),
    }
}

/// Parses a text with `serde_json::from_str`. The contract claims that the
/// document depends on the text alone, and gives it a name.
#[verifier::external_body]
pub(crate) fn parse(text: &str) -> (out: Option<JsonValue>)
    ensures
        out == json_document(text@),
{
    match ::serde_json::from_str::<::serde_json::Value>(text) {
        Ok(value) => Some(lower(&value)),
        Err(_) => None,
    }
}

/// The first member at or after `i` whose key is `key`.
pub open spec fn member_from(members: Seq<(String, JsonValue)>, key: Seq<char>, i: int) -> Option<
    JsonValue,
>
    decreases members.len() - i,
{
    if i < 0 || i >= members.len() {
        None
    } else if members[i].0@ == key {
        Some(members[i].1)
    } else {
        member_from(members, key, i + 1)
    }
}

impl JsonValue {
    /// The member of an object under `key`.
    pub open spec fn member(self, key: Seq<char>) -> Option<JsonValue> {
        match self {
            JsonValue::Object(members) => member_from(members@, key, 0),
            _ => None,
        }
    }

    /// The text that the value is, if it is one.
    pub open spec fn text(self) -> Option<Seq<char>> {
        match self {
            JsonValue::Text(s) => Some(s@),
            _ => None,
        }
    }

    /// The member of an object under `key` that is a text.
    pub open spec fn text_member(self, key: Seq<char>) -> Option<Seq<char>> {
        match self.member(key) {
            Some(v) => v.text(),
            None => None,
        }
    }

    /// The member of an object under `key`.
    pub fn get(&self, key: &str) -> (r: Option<&JsonValue>)
        ensures
            match r {
                Some(v) => self.member(key@) == Some(*v),
                None => self.member(key@) is None,
            },
    {
        match self {
            JsonValue::Object(members) => {
                let wanted = String::from_str(key);
                let mut i: usize = 0;
                while i < members.len()
                    invariant
                        i <= members.len(),
                        wanted@ == key@,
                        *self == JsonValue::Object(*members),
                        member_from(members@, key@, 0) == member_from(members@, key@, i as int),
                    decreases members.len() - i,
                {
                    if members[i].0 == wanted {
                        return Some(&members[i].1);
                    }
                    i += 1;
                }
                None
            },
            _ => None,
        }
    }

    /// The text, if the value is one.
    pub fn as_str(&self) -> (r: Option<&String>)
        ensures
            match r {
                Some(s) => self.text() == Some(s@),
                None => self.text() is None,
            },
    {
        match self {
            JsonValue::Text(s) => Some(s),
            _ => None,
        }
    }

    /// The items of the value, if it is a list.
    pub open spec fn items(self) -> Option<Seq<JsonValue>> {
        match self {
            JsonValue::Array(items) => Some(items@),
            _ => None,
        }
    }

    /// The members of the value, if it is an object.
    pub open spec fn members(self) -> Option<Seq<(String, JsonValue)>> {
        match self {
            JsonValue::Object(members) => Some(members@),
            _ => None,
        }
    }

    /// The items, if the value is a list.
    pub fn as_array(&self) -> (r: Option<&Vec<JsonValue>>)
        ensures
            match r {
                Some(items) => self.items() == Some(items@),
                None => self.items() is None,
            },
    {
        match self {
            JsonValue::Array(items) => Some(items),
            _ => None,
        }
    }

    /// The members, if the value is an object.
    pub fn as_object(&self) -> (r: Option<&Vec<(String, JsonValue)>>)
        ensures
            match r {
                Some(members) => self.members() == Some(members@),
                None => self.members() is None,
            },
    {
        match self {
            JsonValue::Object(members) => Some(members),
            _ => None,
        }
    }

    /// The member of an object under `key`, if it is a text.
    pub fn get_str(&self, key: &str) -> (r: Option<&String>)
        ensures
            match r {
                Some(s) => self.text_member(key@) == Some(s@),
                None => self.text_member(key@) is None,
            },
    {
        match self.get(key) {
            Some(v) => v.as_str(),
            None => None,
        }
    }
}

/// The texts among the first `n` of `items`, and the texts within the lists
/// and objects among them, in the order of the document.
pub open spec fn leaves_of(items: Seq<JsonValue>, n: int) -> Seq<Seq<char>>
    decreases items, n,
{
    if n <= 0 || n > items.len() {
        Seq::empty()
    } else {
        leaves_of(items, n - 1) + leaves(items[n - 1])
    }
}

/// The texts within the values of the first `n` of `members`.
pub open spec fn leaves_in(members: Seq<(String, JsonValue)>, n: int) -> Seq<Seq<char>>
    decreases members, n,
{
    if n <= 0 || n > members.len() {
        Seq::empty()
    } else {
        leaves_in(members, n - 1) + leaves(members[n - 1].1)
    }
}

/// Every text at any depth of a value: the value itself, the items of a
/// list, the values of an object's members. Keys are no leaves.
pub open spec fn leaves(value: JsonValue) -> Seq<Seq<char>>
    decreases value,
{
    match value {
        JsonValue::Text(s) => seq![s@],
        JsonValue::Array(items) => leaves_of(items@, items@.len() as int),
        JsonValue::Object(members) => leaves_in(members@, members@.len() as int),
        _ => Seq::empty(),
    }
}

/// Appends to `out` every text at any depth of `value`.
pub fn collect_strings(value: &JsonValue, out: &mut Vec<String>)
    ensures
        texts(final(out)@) == texts(old(out)@) + leaves(*value),
    decreases *value,
{
    let ghost before = texts(out@);
    match value {
        JsonValue::Text(s) => {
            out.push(s.clone());
            assert(texts(out@) =~= before + seq![s@]);
        },
        JsonValue::Array(items) => {
            let mut i: usize = 0;
            assert(texts(out@) =~= before + leaves_of(items@, 0));
            while i < items.len()
                invariant
                    i <= items.len(),
                    *value == JsonValue::Array(*items),
                    texts(out@) == before + leaves_of(items@, i as int),
                decreases items.len() - i,
            {
                proof {
                    assert((*value)->Array_0 == *items);
                    assert(decreases_to!(*value => (*value)->Array_0));
                    assert(decreases_to!(*items => items[i as int]));
                    assert(decreases_to!(*value => items[i as int]));
                }
                collect_strings(&items[i], out);
                assert(before + leaves_of(items@, i as int) + leaves(items@[i as int]) =~= before
                    + leaves_of(items@, i + 1));
                i += 1;
            }
        },
        JsonValue::Object(members) => {
            let mut i: usize = 0;
            assert(texts(out@) =~= before + leaves_in(members@, 0));
            while i < members.len()
                invariant
                    i <= members.len(),
                    *value == JsonValue::Object(*members),
                    texts(out@) == before + leaves_in(members@, i as int),
                decreases members.len() - i,
            {
                proof {
                    assert((*value)->Object_0 == *members);
                    assert(decreases_to!(*value => (*value)->Object_0));
                    assert(decreases_to!(*members => members[i as int]));
                    assert(decreases_to!(members[i as int] => members[i as int].1));
                }
                collect_strings(&members[i].1, out);
                assert(before + leaves_in(members@, i as int) + leaves(members@[i as int].1)
                    =~= before + leaves_in(members@, i + 1));
                i += 1;
            }
        },
        _ => {
            assert(texts(out@) =~= before + Seq::<Seq<char>>::empty());
        },
    }
}

} // verus!
