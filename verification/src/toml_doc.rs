//! TOML documents as parsed by the `toml` crate, held as a tree of the
//! library's own type so that verified code can read and edit them.
use vstd::prelude::*;

verus! {

#[verifier::external_type_specification]
#[verifier::external_body]
pub struct ExTomlValue(toml::Value);

/// A TOML value.  Floats and datetimes keep the text that `toml` prints for
/// them; table entries keep the order in which the parser yields them.
pub enum TomlValue {
    Str(String),
    Integer(i64),
    Float(String),
    Boolean(bool),
    Datetime(String),
    Array(Vec<TomlValue>),
    Table(Vec<(String, TomlValue)>),
}

/// What `str::parse::<toml::Value>` gives for this text: the document, or
/// the text of the parser's error.
pub uninterp spec fn toml_document(text: Seq<char>) -> Result<TomlValue, Seq<char>>;

/// What `toml::to_string` gives for the value that this tree stands for:
/// the text it writes, or the text of its error (an error too where a float
/// or datetime text of the tree does not read back).
pub uninterp spec fn toml_serialized(value: TomlValue) -> Result<Seq<char>, Seq<char>>;

/// The parsed document, where the text parses.
pub open spec fn toml_doc_opt(text: Seq<char>) -> Option<TomlValue> {
    match toml_document(text) {
        Ok(v) => Some(v),
        Err(_) => None,
    }
}

/// Converts a `toml::Value` to the library's tree, one node for one node.
/// It is used only by `parse_toml`, whose contract covers it.
#[verifier::external_body]
fn toml_tree(value: &toml::Value) -> TomlValue {
    match value {
        toml::Value::String(s) => TomlValue::Str(s.clone()),
        toml::Value::Integer(i) => TomlValue::Integer(*i),
        toml::Value::Float(f) => TomlValue::Float(f.to_string()),
        toml::Value::Boolean(b) => TomlValue::Boolean(*b),
        toml::Value::Datetime(d) => TomlValue::Datetime(d.to_string()),
        toml::Value::Array(items) => TomlValue::Array(items.iter().map(toml_tree).collect()),
        toml::Value::Table(map) => TomlValue::Table(
            map.iter().map(|(k, v)| (k.clone(), toml_tree(v))).collect(),
        ),
    }
}

/// Converts the library's tree back to a `toml::Value`, one node for one
/// node; `None` where a float or datetime text does not read back.  It is
/// used only by `toml_text`, whose contract covers it.
#[verifier::external_body]
fn toml_native(value: &TomlValue) -> Option<toml::Value> {
    Some(match value {
        TomlValue::Str(s) => toml::Value::String(s.clone()),
        TomlValue::Integer(i) => toml::Value::Integer(*i),
        TomlValue::Float(f) => toml::Value::Float(f.parse().ok()?),
        TomlValue::Boolean(b) => toml::Value::Boolean(*b),
        TomlValue::Datetime(d) => toml::Value::Datetime(d.parse().ok()?),
        TomlValue::Array(items) => toml_native_array(items)?,
        TomlValue::Table(entries) => toml_native_table(entries)?,
    })
}

/// Converts the items of an array back, as `toml_native` does each.
#[verifier::external_body]
fn toml_native_array(items: &Vec<TomlValue>) -> Option<toml::Value> {
    Some(toml::Value::Array(items.iter().map(toml_native).collect::<Option<Vec<_>>>()?))
}

/// Converts the entries of a table back, as `toml_native` does each value.
#[verifier::external_body]
fn toml_native_table(entries: &Vec<(String, TomlValue)>) -> Option<toml::Value> {
    Some(toml::Value::Table(
        entries.iter().map(|(k, v)| Some((k.clone(), toml_native(v)?))).collect::<Option<toml::map::Map<_, _>>>()?,
    ))
}

/// Parses a TOML document with `str::parse::<toml::Value>`.  The contract
/// claims only that the result is the parser's answer (named
/// `toml_document`) for the text, its error taken by its `Display` text.
#[verifier::external_body]
pub fn parse_toml(text: &str) -> (res: Result<TomlValue, String>)
    ensures
        match res {
            Ok(v) => toml_document(text@) == Ok::<TomlValue, Seq<char>>(v),
            Err(m) => toml_document(text@) == Err::<TomlValue, Seq<char>>(m@),
        },
{
    match text.parse::<toml::Value>() {
        Ok(v) => Ok(toml_tree(&v)),
        Err(e) => Err(e.to_string()),
    }
}

/// The parsed document, where the text parses.
pub fn parse_toml_opt(text: &str) -> (res: Option<TomlValue>)
    ensures
        res == toml_doc_opt(text@),
{
    match parse_toml(text) {
        Ok(v) => Some(v),
        Err(_) => None,
    }
}

/// Writes a TOML document with `toml::to_string`.  The contract claims only
/// that the result is the serializer's answer (named `toml_serialized`).
#[verifier::external_body]
pub fn toml_text(value: &TomlValue) -> (res: Result<String, String>)
    ensures
        match res {
            Ok(s) => toml_serialized(*value) == Ok::<Seq<char>, Seq<char>>(s@),
            Err(m) => toml_serialized(*value) == Err::<Seq<char>, Seq<char>>(m@),
        },
{
    match toml_native(value) {
        Some(v) => toml::to_string(&v).map_err(|e| e.to_string()),
        None => Err(String::from("a float or datetime does not read back")),
    }
}

/// The text that `toml::Value` writes of itself (its `Display`, which
/// writes the value inline through `toml::ser::ValueSerializer`) for the
/// value that this tree stands for, or `None` where a float or datetime
/// text does not read back or the serializer reports an error.
pub uninterp spec fn toml_value_serialized(value: TomlValue) -> Option<Seq<char>>;

/// Writes a TOML value inline with `toml::ser::ValueSerializer`, as the
/// value's `Display` does.  The contract claims only that the result is the
/// serializer's text (named `toml_value_serialized`).
#[verifier::external_body]
pub fn toml_value_text(value: &TomlValue) -> (res: Option<String>)
    ensures
        match res {
            Some(s) => toml_value_serialized(*value) == Some(s@),
            None => toml_value_serialized(*value) is None,
        },
{
    let v = toml_native(value)?;
    let mut out = String::new();
    serde::Serialize::serialize(&v, toml::ser::ValueSerializer::new(&mut out)).ok()?;
    Some(out)
}

/// First entry of a table with the given key.
pub open spec fn entry_of(entries: Seq<(String, TomlValue)>, key: Seq<char>) -> Option<TomlValue>
    decreases entries.len(),
{
    if entries.len() == 0 {
        None
    } else if entries[0].0@ == key {
        Some(entries[0].1)
    } else {
        entry_of(entries.drop_first(), key)
    }
}

impl TomlValue {
    /// `Value::get` with a string key: the entry of a table, else `None`.
    pub open spec fn field(self, key: Seq<char>) -> Option<TomlValue> {
        match self {
            TomlValue::Table(entries) => entry_of(entries@, key),
            _ => None,
        }
    }

    /// `Value::as_str`.
    pub open spec fn str_of(self) -> Option<Seq<char>> {
        match self {
            TomlValue::Str(s) => Some(s@),
            _ => None,
        }
    }

    pub open spec fn is_table(self) -> bool {
        self is Table
    }

    pub fn get<'a>(&'a self, key: &str) -> (res: Option<&'a TomlValue>)
        ensures
            match res {
                Some(r) => self.field(key@) == Some(*r),
                None => self.field(key@) is None,
            },
    {
        match self {
            TomlValue::Table(entries) => {
                let mut i: usize = 0;
                assert(entries@.subrange(0, entries@.len() as int) =~= entries@);
                while i < entries.len()
                    invariant
                        i <= entries@.len(),
                        self.field(key@) == entry_of(entries@, key@),
                        entry_of(entries@, key@) == entry_of(entries@.subrange(i as int, entries@.len() as int), key@),
                    decreases entries@.len() - i,
                {
                    proof {
                        let rest = entries@.subrange(i as int, entries@.len() as int);
                        assert(rest.drop_first() =~= entries@.subrange(i + 1, entries@.len() as int));
                    }
                    if crate::text::str_eq(entries[i].0.as_str(), key) {
                        proof {
                            let rest = entries@.subrange(i as int, entries@.len() as int);
                            assert(rest[0] == entries@[i as int]);
                            assert(rest[0].0@ == key@);
                            assert(rest.len() > 0);
                            assert(entry_of(rest, key@) == Some(rest[0].1));
                            assert(self.field(key@) == entry_of(entries@, key@));
                        }
                        return Some(&entries[i].1);
                    }
                    i = i + 1;
                }
                None
            },
            _ => None,
        }
    }

    pub fn as_str<'a>(&'a self) -> (res: Option<&'a String>)
        ensures
            match res {
                Some(s) => self.str_of() == Some(s@),
                None => self.str_of() is None,
            },
    {
        match self {
            TomlValue::Str(s) => Some(s),
            _ => None,
        }
    }

    pub fn is_table_value(&self) -> (res: bool)
        ensures
            res == self.is_table(),
    {
        match self {
            TomlValue::Table(_) => true,
            _ => false,
        }
    }
}

} // verus!
