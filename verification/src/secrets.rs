//! Secrets hidden from what the command line shows of a stored provider:
//! the values of secret keys, at any depth, also inside the TOML text of a
//! `config` member.
use vstd::prelude::*;

use crate::json::JsonValue;
use crate::text::{owned, str_eq};
use crate::toml_doc::{parse_toml_opt, toml_doc_opt, toml_value_serialized, toml_value_text, TomlValue};

verus! {

/// The keys whose values are secrets.
pub open spec fn is_secret_key(k: Seq<char>) -> bool {
    k == "OPENAI_API_KEY"@ || k == "api_key"@ || k == "apiKey"@ || k == "experimental_bearer_token"@
        || k == "access_token"@ || k == "refresh_token"@
}

/// Whether a key names a secret.
pub fn secret_key(k: &str) -> (res: bool)
    ensures
        res == is_secret_key(k@),
{
    str_eq(k, "OPENAI_API_KEY") || str_eq(k, "api_key") || str_eq(k, "apiKey") || str_eq(
        k,
        "experimental_bearer_token",
    ) || str_eq(k, "access_token") || str_eq(k, "refresh_token")
}

pub open spec fn redacted_json_str(v: JsonValue) -> bool {
    v matches JsonValue::Str(s) && s@ == "[REDACTED]"@
}

pub open spec fn redacted_toml_str(v: TomlValue) -> bool {
    v matches TomlValue::Str(s) && s@ == "[REDACTED]"@
}

/// `after` is the TOML value `before` with the value of every secret key
/// replaced by the string `[REDACTED]`, at any depth.
pub open spec fn toml_redacted(before: TomlValue, after: TomlValue) -> bool
    decreases before,
{
    match before {
        TomlValue::Table(a) => match after {
            TomlValue::Table(b) => {
                &&& b@.len() == a@.len()
                &&& forall|i: int|
                    0 <= i < a@.len() ==> (#[trigger] b@[i]).0 == a@[i].0 && if is_secret_key(a@[i].0@) {
                        redacted_toml_str(b@[i].1)
                    } else {
                        toml_redacted(a@[i].1, b@[i].1)
                    }
            },
            _ => false,
        },
        TomlValue::Array(a) => match after {
            TomlValue::Array(b) => b@.len() == a@.len() && forall|i: int|
                0 <= i < a@.len() ==> toml_redacted(a@[i], #[trigger] b@[i]),
            _ => false,
        },
        _ => after == before,
    }
}

/// `after` is the JSON value `before` with the value of every secret key
/// replaced by the string `[REDACTED]`, at any depth, and every `config`
/// member redacted as `config_redacted` says.
pub open spec fn json_redacted(before: JsonValue, after: JsonValue) -> bool
    decreases before, 0int,
{
    match before {
        JsonValue::Object(a) => match after {
            JsonValue::Object(b) => {
                &&& b@.len() == a@.len()
                &&& forall|i: int|
                    0 <= i < a@.len() ==> (#[trigger] b@[i]).0 == a@[i].0 && if is_secret_key(a@[i].0@) {
                        redacted_json_str(b@[i].1)
                    } else if a@[i].0@ == "config"@ {
                        config_redacted(a@[i].1, b@[i].1)
                    } else {
                        json_redacted(a@[i].1, b@[i].1)
                    }
            },
            _ => false,
        },
        JsonValue::Array(a) => match after {
            JsonValue::Array(b) => b@.len() == a@.len() && forall|i: int|
                0 <= i < a@.len() ==> json_redacted(a@[i], #[trigger] b@[i]),
            _ => false,
        },
        _ => after == before,
    }
}

/// A `config` member: TOML text is redacted as a TOML value and written
/// back as `toml::Value` displays itself; text that does not parse stays
/// as it is, and so does text whose redacted value does not write; any
/// other value is redacted as JSON.
pub open spec fn config_redacted(before: JsonValue, after: JsonValue) -> bool
    decreases before, 1int,
{
    match before {
        JsonValue::Str(s) => match toml_doc_opt(s@) {
            None => after == before,
            Some(doc) => exists|d: TomlValue|
                #![trigger toml_redacted(doc, d)]
                toml_redacted(doc, d) && match toml_value_serialized(d) {
                    Some(t) => after matches JsonValue::Str(x) && x@ == t,
                    None => after == before,
                },
        },
        _ => json_redacted(before, after),
    }
}

fn copy_json_leaf(value: &JsonValue) -> (res: JsonValue)
    requires
        !(value is Object),
        !(value is Array),
    ensures
        res == *value,
{
    match value {
        JsonValue::Null => JsonValue::Null,
        JsonValue::Bool(b) => JsonValue::Bool(*b),
        JsonValue::Number(n) => JsonValue::Number(n.clone()),
        JsonValue::Str(s) => JsonValue::Str(s.clone()),
        _ => JsonValue::Null,
    }
}

fn copy_toml_leaf(value: &TomlValue) -> (res: TomlValue)
    requires
        !(value is Table),
        !(value is Array),
    ensures
        res == *value,
{
    match value {
        TomlValue::Str(s) => TomlValue::Str(s.clone()),
        TomlValue::Integer(i) => TomlValue::Integer(*i),
        TomlValue::Float(f) => TomlValue::Float(f.clone()),
        TomlValue::Boolean(b) => TomlValue::Boolean(*b),
        TomlValue::Datetime(d) => TomlValue::Datetime(d.clone()),
        _ => TomlValue::Integer(0),
    }
}

/// The TOML value with every secret redacted.
pub fn redact_toml_value(value: &TomlValue) -> (res: TomlValue)
    ensures
        toml_redacted(*value, res),
    decreases value,
{
    match value {
        TomlValue::Table(entries) => {
            let mut out: Vec<(String, TomlValue)> = Vec::new();
            let mut i: usize = 0;
            while i < entries.len()
                invariant
                    i <= entries@.len(),
                    out@.len() == i,
                    forall|k: int|
                        0 <= k < i ==> (#[trigger] out@[k]).0 == entries@[k].0 && if is_secret_key(entries@[k].0@) {
                            redacted_toml_str(out@[k].1)
                        } else {
                            toml_redacted(entries@[k].1, out@[k].1)
                        },
                decreases entries@.len() - i,
            {
                let (k, v) = &entries[i];
                let nv = if secret_key(k.as_str()) {
                    TomlValue::Str(owned("[REDACTED]"))
                } else {
                    redact_toml_value(v)
                };
                out.push((k.clone(), nv));
                i = i + 1;
            }
            TomlValue::Table(out)
        },
        TomlValue::Array(items) => {
            let mut out: Vec<TomlValue> = Vec::new();
            let mut i: usize = 0;
            while i < items.len()
                invariant
                    i <= items@.len(),
                    out@.len() == i,
                    forall|k: int| 0 <= k < i ==> toml_redacted(items@[k], #[trigger] out@[k]),
                decreases items@.len() - i,
            {
                let nv = redact_toml_value(&items[i]);
                out.push(nv);
                i = i + 1;
            }
            TomlValue::Array(out)
        },
        _ => copy_toml_leaf(value),
    }
}

/// A `config` member redacted.
fn redact_config(value: &JsonValue) -> (res: JsonValue)
    ensures
        config_redacted(*value, res),
    decreases value, 1int,
{
    match value {
        JsonValue::Str(s) => match parse_toml_opt(s.as_str()) {
            None => JsonValue::Str(s.clone()),
            Some(doc) => {
                let d = redact_toml_value(&doc);
                match toml_value_text(&d) {
                    Some(t) => JsonValue::Str(t),
                    None => JsonValue::Str(s.clone()),
                }
            },
        },
        _ => redact_json_secrets(value),
    }
}

/// The JSON value with every secret redacted: the value of each secret key
/// becomes `[REDACTED]`, at any depth, and the TOML text of each `config`
/// member is redacted likewise.
pub fn redact_json_secrets(value: &JsonValue) -> (res: JsonValue)
    ensures
        json_redacted(*value, res),
    decreases value, 0int,
{
    match value {
        JsonValue::Object(entries) => {
            let mut out: Vec<(String, JsonValue)> = Vec::new();
            let mut i: usize = 0;
            while i < entries.len()
                invariant
                    i <= entries@.len(),
                    out@.len() == i,
                    forall|k: int|
                        0 <= k < i ==> (#[trigger] out@[k]).0 == entries@[k].0 && if is_secret_key(entries@[k].0@) {
                            redacted_json_str(out@[k].1)
                        } else if entries@[k].0@ == "config"@ {
                            config_redacted(entries@[k].1, out@[k].1)
                        } else {
                            json_redacted(entries@[k].1, out@[k].1)
                        },
                decreases entries@.len() - i,
            {
                let (k, v) = &entries[i];
                let nv = if secret_key(k.as_str()) {
                    JsonValue::Str(owned("[REDACTED]"))
                } else if str_eq(k.as_str(), "config") {
                    redact_config(v)
                } else {
                    redact_json_secrets(v)
                };
                out.push((k.clone(), nv));
                i = i + 1;
            }
            JsonValue::Object(out)
        },
        JsonValue::Array(items) => {
            let mut out: Vec<JsonValue> = Vec::new();
            let mut i: usize = 0;
            while i < items.len()
                invariant
                    i <= items@.len(),
                    out@.len() == i,
                    forall|k: int| 0 <= k < i ==> json_redacted(items@[k], #[trigger] out@[k]),
                decreases items@.len() - i,
            {
                let nv = redact_json_secrets(&items[i]);
                out.push(nv);
                i = i + 1;
            }
            JsonValue::Array(out)
        },
        _ => copy_json_leaf(value),
    }
}

} // verus!
