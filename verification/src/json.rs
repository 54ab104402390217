//! JSON documents as decoded by `serde_json`, held as a tree of the
//! library's own type so that verified code can read them.
use vstd::prelude::*;

verus! {

#[verifier::external_type_specification]
#[verifier::external_body]
pub struct ExSerdeJsonValue(serde_json::Value);

/// A decoded JSON value.  Numbers keep the text that `serde_json` prints for
/// them; object members keep the order in which the decoder yields them.
pub enum JsonValue {
    Null,
    Bool(bool),
    Number(String),
    Str(String),
    Array(Vec<JsonValue>),
    Object(Vec<(String, JsonValue)>),
}

/// The value that `serde_json::from_slice::<serde_json::Value>` decodes from
/// these bytes, or `None` where it reports an error.
pub uninterp spec fn json_document(bytes: Seq<u8>) -> Option<JsonValue>;

/// Converts a `serde_json::Value` to the library's tree, one node for one
/// node.  It is used only by `parse_json`, whose contract covers it.
#[verifier::external_body]
fn json_tree(value: &serde_json::Value) -> JsonValue {
    match value {
        serde_json::Value::Null => JsonValue::Null,
        serde_json::Value::Bool(b) => JsonValue::Bool(*b),
        serde_json::Value::Number(n) => JsonValue::Number(n.to_string()),
        serde_json::Value::String(s) => JsonValue::Str(s.clone()),
        serde_json::Value::Array(items) => JsonValue::Array(items.iter().map(json_tree).collect()),
        serde_json::Value::Object(map) => JsonValue::Object(
            map.iter().map(|(k, v)| (k.clone(), json_tree(v))).collect(),
        ),
    }
}

/// Decodes JSON with `serde_json::from_slice`.  The contract claims only
/// that the result is the decoder's (named `json_document`) answer for the
/// bytes: `Some` tree when it decodes, `None` when it reports an error.
#[verifier::external_body]
pub fn parse_json(bytes: &[u8]) -> (res: Option<JsonValue>)
    ensures
        res == json_document(bytes@),
{
    serde_json::from_slice::<serde_json::Value>(bytes).ok().map(|v| json_tree(&v))
}

/// The text that `serde_json::to_string` writes for the value that this
/// tree stands for, or `None` where a number text of the tree does not read
/// back as a JSON number.
pub uninterp spec fn json_serialized(value: JsonValue) -> Option<Seq<char>>;

/// Converts the library's tree back to a `serde_json::Value`, one node for
/// one node; `None` where a number text does not read back.  It is used
/// only by `json_text`, whose contract covers it.
#[verifier::external_body]
fn json_native(value: &JsonValue) -> Option<serde_json::Value> {
    Some(match value {
        JsonValue::Null => serde_json::Value::Null,
        JsonValue::Bool(b) => serde_json::Value::Bool(*b),
        JsonValue::Number(n) => serde_json::Value::Number(serde_json::from_str::<serde_json::Number>(n).ok()?),
        JsonValue::Str(s) => serde_json::Value::String(s.clone()),
        JsonValue::Array(items) => json_native_array(items)?,
        JsonValue::Object(entries) => json_native_object(entries)?,
    })
}

/// Converts the items of an array back, as `json_native` does each.
#[verifier::external_body]
fn json_native_array(items: &Vec<JsonValue>) -> Option<serde_json::Value> {
    Some(serde_json::Value::Array(items.iter().map(json_native).collect::<Option<Vec<_>>>()?))
}

/// Converts the members of an object back, as `json_native` does each value.
#[verifier::external_body]
fn json_native_object(entries: &Vec<(String, JsonValue)>) -> Option<serde_json::Value> {
    Some(serde_json::Value::Object(
        entries.iter().map(|(k, v)| Some((k.clone(), json_native(v)?))).collect::<Option<serde_json::Map<_, _>>>()?,
    ))
}

/// Writes JSON with `serde_json::to_string`.  The contract claims only that
/// the result is the serializer's text (named `json_serialized`).
#[verifier::external_body]
pub fn json_text(value: &JsonValue) -> (res: Option<String>)
    ensures
        match res {
            Some(s) => json_serialized(*value) == Some(s@),
            None => json_serialized(*value) is None,
        },
{
    json_native(value).and_then(|v| serde_json::to_string(&v).ok())
}

/// First member of an object with the given key.
pub open spec fn member(entries: Seq<(String, JsonValue)>, key: Seq<char>) -> Option<JsonValue>
    decreases entries.len(),
{
    if entries.len() == 0 {
        None
    } else if entries[0].0@ == key {
        Some(entries[0].1)
    } else {
        member(entries.drop_first(), key)
    }
}

impl JsonValue {
    /// `Value::get` with a string key: the member of an object, else `None`.
    pub open spec fn field(self, key: Seq<char>) -> Option<JsonValue> {
        match self {
            JsonValue::Object(entries) => member(entries@, key),
            _ => None,
        }
    }

    /// `Value::as_str`.
    pub open spec fn str_of(self) -> Option<Seq<char>> {
        match self {
            JsonValue::Str(s) => Some(s@),
            _ => None,
        }
    }

    pub open spec fn is_object(self) -> bool {
        self is Object
    }

    pub fn get<'a>(&'a self, key: &str) -> (res: Option<&'a JsonValue>)
        ensures
            match res {
                Some(r) => self.field(key@) == Some(*r),
                None => self.field(key@) is None,
            },
    {
        match self {
            JsonValue::Object(entries) => {
                let mut i: usize = 0;
                assert(entries@.subrange(0, entries@.len() as int) =~= entries@);
                while i < entries.len()
                    invariant
                        i <= entries@.len(),
                        self.field(key@) == member(entries@, key@),
                        member(entries@, key@) == member(entries@.subrange(i as int, entries@.len() as int), key@),
                    decreases entries@.len() - i,
                {
                    proof {
                        let rest = entries@.subrange(i as int, entries@.len() as int);
                        assert(rest.drop_first() =~= entries@.subrange(i + 1, entries@.len() as int));
                    }
                    if crate::text::str_eq(entries[i].0.as_str(), key) {
                        proof {
                            let rest = entries@.subrange(i as int, entries@.len() as int);
                            assert(rest[0] == entries@[i as int]);
                            assert(rest[0].0@ == key@);
                            assert(rest.len() > 0);
                            assert(member(rest, key@) == Some(rest[0].1));
                            assert(self.field(key@) == member(entries@, key@));
                        }
                        return Some(&entries[i].1);
                    }
                    i = i + 1;
                }
                None
            },
            _ => None,
        }
    }

    pub fn as_str<'a>(&'a self) -> (res: Option<&'a String>)
        ensures
            match res {
                Some(s) => self.str_of() == Some(s@),
                None => self.str_of() is None,
            },
    {
        match self {
            JsonValue::Str(s) => Some(s),
            _ => None,
        }
    }

    pub fn is_object_value(&self) -> (res: bool)
        ensures
            res == self.is_object(),
    {
        match self {
            JsonValue::Object(_) => true,
            _ => false,
        }
    }
}

} // verus!
