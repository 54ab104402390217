//! Reading and validating the Codex part of a provider configuration: the
//! `config.toml` text held in `settings_config.config` and the credentials
//! beside it.
use vstd::prelude::*;

use crate::json::JsonValue;
use crate::text::{
    ascii_lower, contains, is_blank, is_blank_str, starts_with, str_starts_with, is_ws, str_contains, str_eq, to_ascii_lowercase, trim,
    trim_left, trim_right, trimmed,
};
use crate::toml_doc::{parse_toml_opt, toml_doc_opt, TomlValue};

verus! {

pub open spec fn opt_view(o: Option<String>) -> Option<Seq<char>> {
    match o {
        Some(s) => Some(s@),
        None => None,
    }
}

/// A trimmed, non-empty value, as the original's `non_empty` helper gives.
pub open spec fn non_empty_spec(s: Seq<char>) -> Option<Seq<char>> {
    if trimmed(s).len() == 0 {
        None
    } else {
        Some(trimmed(s))
    }
}

pub open spec fn sub_field(o: Option<TomlValue>, key: Seq<char>) -> Option<TomlValue> {
    match o {
        Some(v) => v.field(key),
        None => None,
    }
}

pub open spec fn str_in(o: Option<TomlValue>) -> Option<Seq<char>> {
    match o {
        Some(v) => v.str_of(),
        None => None,
    }
}

/// `model_provider`, where it is a string.
pub open spec fn active_id(doc: TomlValue) -> Option<Seq<char>> {
    str_in(doc.field("model_provider"@))
}

/// A string entry of the active `model_providers.<id>` table.
pub open spec fn active_entry(doc: TomlValue, key: Seq<char>) -> Option<Seq<char>> {
    match active_id(doc) {
        Some(id) => str_in(sub_field(sub_field(doc.field("model_providers"@), id), key)),
        None => None,
    }
}

pub open spec fn top_entry(doc: TomlValue, key: Seq<char>) -> Option<Seq<char>> {
    str_in(doc.field(key))
}

pub open spec fn and_non_empty(o: Option<Seq<char>>) -> Option<Seq<char>> {
    match o {
        Some(s) => non_empty_spec(s),
        None => None,
    }
}

pub open spec fn lower_opt(o: Option<Seq<char>>) -> Option<Seq<char>> {
    match o {
        Some(s) => Some(ascii_lower(s)),
        None => None,
    }
}

/// The active `base_url`: the active provider table decides when it holds
/// a string `base_url` (a blank one gives `None`); the top-level key is the
/// fallback.
pub open spec fn active_base_url(doc: TomlValue) -> Option<Seq<char>> {
    match active_entry(doc, "base_url"@) {
        Some(url) => non_empty_spec(url),
        None => and_non_empty(top_entry(doc, "base_url"@)),
    }
}

/// The active `wire_api`, trimmed and lower-cased, chosen as `base_url` is.
pub open spec fn active_wire_api(doc: TomlValue) -> Option<Seq<char>> {
    match active_entry(doc, "wire_api"@) {
        Some(w) => lower_opt(non_empty_spec(w)),
        None => lower_opt(and_non_empty(top_entry(doc, "wire_api"@))),
    }
}

/// The active `experimental_bearer_token`: a non-blank one of the active
/// provider table, else a non-blank top-level one.
pub open spec fn active_bearer_token(doc: TomlValue) -> Option<Seq<char>> {
    let from_active = and_non_empty(active_entry(doc, "experimental_bearer_token"@));
    if from_active is Some {
        from_active
    } else {
        and_non_empty(top_entry(doc, "experimental_bearer_token"@))
    }
}

/// The `OPENAI_API_KEY` member that the credential is read from: the one
/// of `auth`, or the top-level one where there is no `auth`.
pub open spec fn openai_key_member(settings: JsonValue) -> Option<JsonValue> {
    match settings.field("auth"@) {
        Some(a) => a.field("OPENAI_API_KEY"@),
        None => settings.field("OPENAI_API_KEY"@),
    }
}

/// The settings hold no usable `OPENAI_API_KEY`: none, one that is not a
/// string, or a blank one.
pub open spec fn no_openai_key(settings: JsonValue) -> bool {
    match openai_key_member(settings) {
        Some(k) => match k.str_of() {
            Some(s) => trimmed(s).len() == 0,
            None => true,
        },
        None => true,
    }
}

/// A non-blank `OPENAI_API_KEY` of the settings is the credential,
/// trimmed, whatever the configuration holds.
pub proof fn lemma_openai_key_is_the_credential(settings: JsonValue, doc: Option<TomlValue>, key: JsonValue, k: Seq<char>)
    requires
        openai_key_member(settings) == Some(key),
        key.str_of() == Some(k),
        trimmed(k).len() > 0,
    ensures
        api_key_spec(settings, doc) == Some(trimmed(k)),
{
}

/// Where the settings hold no usable `OPENAI_API_KEY`, the credential is
/// the trimmed `experimental_bearer_token` of the table that
/// `model_provider` names in `model_providers`, when that is a non-blank
/// string.
pub proof fn lemma_active_bearer_token_is_the_credential(
    settings: JsonValue,
    doc: TomlValue,
    mp: TomlValue,
    id: Seq<char>,
    tables: TomlValue,
    entry: TomlValue,
    tok: TomlValue,
    t: Seq<char>,
)
    requires
        no_openai_key(settings),
        doc.field("model_provider"@) == Some(mp),
        mp.str_of() == Some(id),
        doc.field("model_providers"@) == Some(tables),
        tables.field(id) == Some(entry),
        entry.field("experimental_bearer_token"@) == Some(tok),
        tok.str_of() == Some(t),
        trimmed(t).len() > 0,
    ensures
        api_key_spec(settings, Some(doc)) == Some(trimmed(t)),
{
}

/// Where the settings hold no usable `OPENAI_API_KEY` and the configuration
/// names no active provider, the credential is the trimmed top-level
/// `experimental_bearer_token` when that is a non-blank string, and there
/// is none otherwise.
pub proof fn lemma_top_bearer_token_is_the_fallback(settings: JsonValue, doc: TomlValue)
    requires
        no_openai_key(settings),
        doc.field("model_provider"@) is None || doc.field("model_provider"@).unwrap().str_of() is None,
    ensures
        api_key_spec(settings, Some(doc)) == match doc.field("experimental_bearer_token"@) {
            Some(tok) => match tok.str_of() {
                Some(t) => if trimmed(t).len() > 0 {
                    Some(trimmed(t))
                } else {
                    None
                },
                None => None,
            },
            None => None,
        },
{
}

/// Without a configuration document and without a usable `OPENAI_API_KEY`
/// there is no credential.
pub proof fn lemma_no_credential_without_config(settings: JsonValue)
    requires
        no_openai_key(settings),
    ensures
        api_key_spec(settings, None) is None,
{
}

/// The upstream base URL and wire protocol come from the table that
/// `model_provider` names in `model_providers` when that holds them as
/// strings: the trimmed `base_url` (none where it is blank) and the
/// trimmed, lower-cased `wire_api` (none where it is blank).
pub proof fn lemma_active_table_decides(
    doc: TomlValue,
    mp: TomlValue,
    id: Seq<char>,
    tables: TomlValue,
    entry: TomlValue,
)
    requires
        doc.field("model_provider"@) == Some(mp),
        mp.str_of() == Some(id),
        doc.field("model_providers"@) == Some(tables),
        tables.field(id) == Some(entry),
    ensures
        match entry.field("base_url"@) {
            Some(u) => match u.str_of() {
                Some(s) => active_base_url(doc) == if trimmed(s).len() > 0 {
                    Some(trimmed(s))
                } else {
                    None
                },
                None => true,
            },
            None => true,
        },
        match entry.field("wire_api"@) {
            Some(w) => match w.str_of() {
                Some(s) => active_wire_api(doc) == if trimmed(s).len() > 0 {
                    Some(ascii_lower(trimmed(s)))
                } else {
                    None
                },
                None => true,
            },
            None => true,
        },
{
}

/// A configuration that names no active provider takes its base URL and
/// wire protocol from its top-level `base_url` and `wire_api` strings,
/// trimmed (the protocol lower-cased), none where they are missing, not
/// strings, or blank.
pub proof fn lemma_top_level_fallback(doc: TomlValue)
    requires
        doc.field("model_provider"@) is None || doc.field("model_provider"@).unwrap().str_of() is None,
    ensures
        active_base_url(doc) == match doc.field("base_url"@) {
            Some(u) => match u.str_of() {
                Some(s) => if trimmed(s).len() > 0 {
                    Some(trimmed(s))
                } else {
                    None
                },
                None => None,
            },
            None => None,
        },
        active_wire_api(doc) == match doc.field("wire_api"@) {
            Some(w) => match w.str_of() {
                Some(s) => if trimmed(s).len() > 0 {
                    Some(ascii_lower(trimmed(s)))
                } else {
                    None
                },
                None => None,
            },
            None => None,
        },
{
}

/// What a parse of an optional text gives: `None` when there is no text or
/// when it does not parse.
pub open spec fn parsed(text: Option<Seq<char>>) -> Option<TomlValue> {
    match text {
        Some(t) => toml_doc_opt(t),
        None => None,
    }
}

pub open spec fn lift<T>(o: Option<TomlValue>, f: spec_fn(TomlValue) -> Option<T>) -> Option<T> {
    match o {
        Some(d) => f(d),
        None => None,
    }
}

/// `auth.OPENAI_API_KEY` (or a top-level `OPENAI_API_KEY` when there is no
/// `auth`), non-blank; else the active bearer token of the config document.
pub open spec fn api_key_spec(settings: JsonValue, doc: Option<TomlValue>) -> Option<Seq<char>> {
    let auth = match settings.field("auth"@) {
        Some(a) => a,
        None => settings,
    };
    let from_auth = match auth.field("OPENAI_API_KEY"@) {
        Some(v) => match v.str_of() {
            Some(s) => non_empty_spec(s),
            None => None,
        },
        None => None,
    };
    if from_auth is Some {
        from_auth
    } else {
        lift(doc, |d: TomlValue| active_bearer_token(d))
    }
}

pub open spec fn is_proxy_url_spec(url: Seq<char>) -> bool {
    let n = ascii_lower(trimmed(url));
    ||| contains(n, "127.0.0.1:15721"@)
    ||| contains(n, "localhost:15721"@)
    ||| contains(n, "/cc-switch-proxy"@)
}

/// `s.trim()` when that is not empty.
pub fn non_empty(s: &str) -> (res: Option<String>)
    ensures
        opt_view(res) == non_empty_spec(s@),
{
    let t = trim(s);
    if is_blank_str(t.as_str()) {
        proof {
            lemma_trimmed_idempotent(s@);
        }
        None
    } else {
        proof {
            lemma_trimmed_idempotent(s@);
        }
        Some(t)
    }
}

pub proof fn lemma_trim_left_of_trimmed(s: Seq<char>)
    ensures
        s.len() == 0 || !is_ws(trim_left(s)[0]) || trim_left(s).len() == 0,
        trim_left(trim_left(s)) == trim_left(s),
    decreases s.len(),
{
    if s.len() > 0 && is_ws(s[0]) {
        lemma_trim_left_of_trimmed(s.drop_first());
    }
}

pub proof fn lemma_trim_right_keeps_head(s: Seq<char>)
    requires
        s.len() > 0,
        !is_ws(s[0]),
    ensures
        0 < trim_right(s).len() <= s.len(),
        trim_right(s)[0] == s[0],
        trim_right(s) == s.subrange(0, trim_right(s).len() as int),
    decreases s.len(),
{
    if is_ws(s.last()) {
        assert(s.len() > 1);
        lemma_trim_right_keeps_head(s.drop_last());
        assert(s.drop_last().subrange(0, trim_right(s).len() as int) =~= s.subrange(0, trim_right(s).len() as int));
    } else {
        assert(s.subrange(0, s.len() as int) =~= s);
    }
}

pub proof fn lemma_trim_right_idempotent(s: Seq<char>)
    ensures
        trim_right(trim_right(s)) == trim_right(s),
    decreases s.len(),
{
    if s.len() > 0 && is_ws(s.last()) {
        lemma_trim_right_idempotent(s.drop_last());
    }
}

pub proof fn lemma_trimmed_idempotent(s: Seq<char>)
    ensures
        trimmed(trimmed(s)) == trimmed(s),
{
    let l = trim_left(s);
    lemma_trim_left_of_trimmed(s);
    let r = trim_right(l);
    lemma_trim_right_idempotent(l);
    if l.len() > 0 {
        lemma_trim_right_keeps_head(l);
        assert(!is_ws(r[0]));
        assert(trim_left(r) == r);
    } else {
        assert(r == l);
    }
}

fn str_entry(v: Option<&TomlValue>, key: &str) -> (res: Option<String>)
    ensures
        opt_view(res) == str_in(sub_field(
            match v {
                Some(x) => Some(*x),
                None => None,
            },
            key@,
        )),
{
    match v {
        Some(x) => match x.get(key) {
            Some(e) => match e.as_str() {
                Some(s) => Some(s.clone()),
                None => None,
            },
            None => None,
        },
        None => None,
    }
}

/// `model_provider`, where it is a string.
pub fn active_provider_id(doc: &TomlValue) -> (res: Option<String>)
    ensures
        opt_view(res) == active_id(*doc),
{
    str_entry(Some(doc), "model_provider")
}

/// A string entry of the active `model_providers.<id>` table.
pub fn active_provider_entry(doc: &TomlValue, key: &str) -> (res: Option<String>)
    ensures
        opt_view(res) == active_entry(*doc, key@),
{
    match active_provider_id(doc) {
        Some(id) => {
            let providers = doc.get("model_providers");
            let table = match providers {
                Some(p) => p.get(id.as_str()),
                None => None,
            };
            str_entry(table, key)
        },
        None => None,
    }
}

fn and_non_empty_exec(o: Option<String>) -> (res: Option<String>)
    ensures
        opt_view(res) == and_non_empty(opt_view(o)),
{
    match o {
        Some(s) => non_empty(s.as_str()),
        None => None,
    }
}

fn lower_exec(o: Option<String>) -> (res: Option<String>)
    ensures
        opt_view(res) == lower_opt(opt_view(o)),
{
    match o {
        Some(s) => Some(to_ascii_lowercase(s.as_str())),
        None => None,
    }
}

/// The active `base_url` of a parsed Codex configuration.
pub fn active_base_url_in(doc: &TomlValue) -> (res: Option<String>)
    ensures
        opt_view(res) == active_base_url(*doc),
{
    match active_provider_entry(doc, "base_url") {
        Some(url) => non_empty(url.as_str()),
        None => and_non_empty_exec(str_entry(Some(doc), "base_url")),
    }
}

/// The active `wire_api` of a parsed Codex configuration, lower-cased.
pub fn active_wire_api_in(doc: &TomlValue) -> (res: Option<String>)
    ensures
        opt_view(res) == active_wire_api(*doc),
{
    match active_provider_entry(doc, "wire_api") {
        Some(w) => lower_exec(non_empty(w.as_str())),
        None => lower_exec(and_non_empty_exec(str_entry(Some(doc), "wire_api"))),
    }
}

/// The active `experimental_bearer_token` of a parsed Codex configuration.
pub fn active_bearer_token_in(doc: &TomlValue) -> (res: Option<String>)
    ensures
        opt_view(res) == active_bearer_token(*doc),
{
    let from_active = and_non_empty_exec(active_provider_entry(doc, "experimental_bearer_token"));
    if from_active.is_some() {
        from_active
    } else {
        and_non_empty_exec(str_entry(Some(doc), "experimental_bearer_token"))
    }
}

/// The active `base_url` of a Codex `config.toml` text.
pub fn extract_active_base_url(config_text: &str) -> (res: Option<String>)
    ensures
        opt_view(res) == lift(toml_doc_opt(config_text@), |d: TomlValue| active_base_url(d)),
{
    match parse_toml_opt(config_text) {
        Some(doc) => active_base_url_in(&doc),
        None => None,
    }
}

/// Returns the wire protocol configured for the active Codex model provider.
///
/// Codex provider tables are authoritative when `model_provider` selects one;
/// the top-level value is retained as a compatibility fallback for older
/// configurations.
pub fn extract_active_wire_api(config_text: &str) -> (res: Option<String>)
    ensures
        opt_view(res) == lift(toml_doc_opt(config_text@), |d: TomlValue| active_wire_api(d)),
{
    match parse_toml_opt(config_text) {
        Some(doc) => active_wire_api_in(&doc),
        None => None,
    }
}

/// Whether a wire protocol is the native Responses one; a missing
/// `wire_api` is the native default.
pub open spec fn responses_wire(wire: Option<Seq<char>>) -> bool {
    match wire {
        Some(w) => w == "responses"@,
        None => true,
    }
}

/// Whether a parsed Codex configuration uses the native Responses protocol.
pub fn is_responses_wire_api_in(doc: Option<&TomlValue>) -> (res: bool)
    ensures
        res == responses_wire(
            match doc {
                Some(d) => active_wire_api(*d),
                None => None,
            },
        ),
{
    let wire = match doc {
        Some(d) => active_wire_api_in(d),
        None => None,
    };
    match wire {
        Some(w) => str_eq(w.as_str(), "responses"),
        None => true,
    }
}

/// Returns whether a Codex config uses the native Responses protocol.
/// Missing `wire_api` is the native Responses default.
pub fn is_responses_wire_api(config_text: &str) -> (res: bool)
    ensures
        res == responses_wire(lift(toml_doc_opt(config_text@), |d: TomlValue| active_wire_api(d))),
{
    let doc = parse_toml_opt(config_text);
    match doc {
        Some(d) => is_responses_wire_api_in(Some(&d)),
        None => is_responses_wire_api_in(None),
    }
}

/// The credential of a provider whose configuration document is given.
pub fn codex_api_key_in(settings: &JsonValue, doc: Option<&TomlValue>) -> (res: Option<String>)
    ensures
        opt_view(res) == api_key_spec(
            *settings,
            match doc {
                Some(d) => Some(*d),
                None => None,
            },
        ),
{
    let auth = match settings.get("auth") {
        Some(a) => a,
        None => settings,
    };
    let from_auth = match auth.get("OPENAI_API_KEY") {
        Some(v) => match v.as_str() {
            Some(s) => non_empty(s.as_str()),
            None => None,
        },
        None => None,
    };
    if from_auth.is_some() {
        from_auth
    } else {
        match doc {
            Some(d) => active_bearer_token_in(d),
            None => None,
        }
    }
}

/// `auth.OPENAI_API_KEY`, else the active provider's bearer token in the
/// Codex configuration text.
pub fn extract_codex_api_key(settings: &JsonValue, config_text: Option<&str>) -> (res: Option<String>)
    ensures
        opt_view(res) == api_key_spec(
            *settings,
            match config_text {
                Some(t) => toml_doc_opt(t@),
                None => None,
            },
        ),
{
    let doc = match config_text {
        Some(t) => parse_toml_opt(t),
        None => None,
    };
    match doc {
        Some(d) => codex_api_key_in(settings, Some(&d)),
        None => codex_api_key_in(settings, None),
    }
}

/// Whether a URL is a cc-switch local proxy endpoint.
pub fn is_cc_switch_proxy_url(url: &str) -> (res: bool)
    ensures
        res == is_proxy_url_spec(url@),
{
    let t = trim(url);
    let normalized = to_ascii_lowercase(t.as_str());
    str_contains(normalized.as_str(), "127.0.0.1:15721") || str_contains(
        normalized.as_str(),
        "localhost:15721",
    ) || str_contains(normalized.as_str(), "/cc-switch-proxy")
}

} // verus!

verus! {

/// A validated Codex provider configuration.
#[derive(Debug, Clone, PartialEq, Eq)]
pub struct CodexValidation {
    pub active_model_provider: Option<String>,
    pub base_url: Option<String>,
    pub has_api_key: bool,
}

/// Why a Codex provider configuration is rejected.
#[derive(Debug, Clone, Copy, PartialEq, Eq, Structural)]
pub enum CodexValidationError {
    SettingsNotObject,
    ConfigNotString,
    InvalidConfigToml,
    ModelProviderNotString,
    ModelProvidersNotTable,
    ActiveModelProviderNotTable,
    ProxyManagedCredential,
    ProxyPlaceholderRoute,
}

impl CodexValidationError {
    pub open spec fn text(self) -> Seq<char> {
        match self {
            CodexValidationError::SettingsNotObject => "settings_config must be a JSON object"@,
            CodexValidationError::ConfigNotString => "config must be a string"@,
            CodexValidationError::InvalidConfigToml => "invalid Codex config.toml"@,
            CodexValidationError::ModelProviderNotString => "model_provider must be a string"@,
            CodexValidationError::ModelProvidersNotTable => "model_providers must be a table"@,
            CodexValidationError::ActiveModelProviderNotTable => "active model provider must be a table"@,
            CodexValidationError::ProxyManagedCredential => "PROXY_MANAGED is not an importable credential"@,
            CodexValidationError::ProxyPlaceholderRoute => "active route is a cc-switch proxy placeholder"@,
        }
    }

    /// The error's message, as its `Display` gives it.
    pub fn message(&self) -> (res: String)
        ensures
            res@ == self.text(),
    {
        match self {
            CodexValidationError::SettingsNotObject => crate::text::owned("settings_config must be a JSON object"),
            CodexValidationError::ConfigNotString => crate::text::owned("config must be a string"),
            CodexValidationError::InvalidConfigToml => crate::text::owned("invalid Codex config.toml"),
            CodexValidationError::ModelProviderNotString => crate::text::owned("model_provider must be a string"),
            CodexValidationError::ModelProvidersNotTable => crate::text::owned("model_providers must be a table"),
            CodexValidationError::ActiveModelProviderNotTable => crate::text::owned("active model provider must be a table"),
            CodexValidationError::ProxyManagedCredential => crate::text::owned("PROXY_MANAGED is not an importable credential"),
            CodexValidationError::ProxyPlaceholderRoute => crate::text::owned("active route is a cc-switch proxy placeholder"),
        }
    }
}

/// The `config` text of a settings object: absent, `null` or blank gives
/// `None`; a string that is not blank gives it; anything else is an error.
pub open spec fn config_of(settings: JsonValue) -> Result<Option<Seq<char>>, CodexValidationError> {
    match settings.field("config"@) {
        None => Ok(None),
        Some(JsonValue::Null) => Ok(None),
        Some(JsonValue::Str(s)) => if is_blank(s@) {
            Ok(None)
        } else {
            Ok(Some(s@))
        },
        Some(_) => Err(CodexValidationError::ConfigNotString),
    }
}

/// The configuration text that validation parses.
pub open spec fn config_text_of(settings: JsonValue) -> Option<Seq<char>> {
    match config_of(settings) {
        Ok(Some(t)) => Some(t),
        _ => None,
    }
}

pub open spec fn model_provider_check(doc: Option<TomlValue>) -> Result<Option<Seq<char>>, CodexValidationError> {
    match doc {
        None => Ok(None),
        Some(d) => match d.field("model_provider"@) {
            None => Ok(None),
            Some(v) => match v.str_of() {
                Some(s) => Ok(Some(s)),
                None => Err(CodexValidationError::ModelProviderNotString),
            },
        },
    }
}

pub open spec fn active_table_check(doc: Option<TomlValue>, active: Option<Seq<char>>) -> Result<Option<TomlValue>, CodexValidationError> {
    match doc {
        None => Ok(None),
        Some(d) => match d.field("model_providers"@) {
            None => Ok(None),
            Some(p) => if !p.is_table() {
                Err(CodexValidationError::ModelProvidersNotTable)
            } else {
                match active {
                    None => Ok(None),
                    Some(a) => match p.field(a) {
                        None => Ok(None),
                        Some(t) => if t.is_table() {
                            Ok(Some(t))
                        } else {
                            Err(CodexValidationError::ActiveModelProviderNotTable)
                        },
                    },
                }
            },
        },
    }
}

pub open spec fn is_cc_switch_provider_id(id: Seq<char>) -> bool {
    id == "cc-switch-official"@ || starts_with(id, "cc-switch-"@)
}

pub open spec fn env_key_present(table: Option<TomlValue>) -> bool {
    match table {
        Some(t) => match t.field("env_key"@) {
            Some(k) => match k.str_of() {
                Some(s) => !is_blank(s),
                None => false,
            },
            None => false,
        },
        None => false,
    }
}

/// What validation gives for a settings object whose configuration text
/// parses to `doc` (`None` when it does not parse).
pub open spec fn validation_spec(settings: JsonValue, doc: Option<TomlValue>)
    -> Result<(Option<Seq<char>>, Option<Seq<char>>, bool), CodexValidationError>
{
    if !settings.is_object() {
        Err(CodexValidationError::SettingsNotObject)
    } else {
        match config_of(settings) {
            Err(e) => Err(e),
            Ok(config) => if config is Some && doc is None {
                Err(CodexValidationError::InvalidConfigToml)
            } else {
                let d = if config is Some { doc } else { None };
                match model_provider_check(d) {
                    Err(e) => Err(e),
                    Ok(active) => match active_table_check(d, active) {
                        Err(e) => Err(e),
                        Ok(table) => {
                            let base_url = lift(d, |x: TomlValue| active_base_url(x));
                            let api_key = api_key_spec(settings, d);
                            if api_key == Some("PROXY_MANAGED"@) {
                                Err(CodexValidationError::ProxyManagedCredential)
                            } else if (active matches Some(a) && is_cc_switch_provider_id(a))
                                || (base_url matches Some(u) && is_proxy_url_spec(u)) {
                                Err(CodexValidationError::ProxyPlaceholderRoute)
                            } else {
                                Ok((active, base_url, api_key is Some || env_key_present(table)))
                            }
                        },
                    },
                }
            },
        }
    }
}

/// A provider that validates is never a cc-switch proxy placeholder: its
/// settings are an object; its active provider, if any, is not a
/// `cc-switch-` one; its base URL, if any, does not point at the cc-switch
/// local proxy (`127.0.0.1:15721`, `localhost:15721` or `/cc-switch-proxy`,
/// compared lower-cased and trimmed); and its credential is not the
/// `PROXY_MANAGED` placeholder (read from the settings and, where they
/// hold a `config` text, from its document).
pub proof fn lemma_validated_is_no_placeholder(
    settings: JsonValue,
    doc: Option<TomlValue>,
    active: Option<Seq<char>>,
    base_url: Option<Seq<char>>,
    has_key: bool,
)
    requires
        validation_spec(settings, doc) == Ok::<(Option<Seq<char>>, Option<Seq<char>>, bool), CodexValidationError>(
            (active, base_url, has_key),
        ),
    ensures
        settings.is_object(),
        active matches Some(a) ==> !starts_with(a, "cc-switch-"@),
        base_url matches Some(u) ==> {
            let n = ascii_lower(trimmed(u));
            !contains(n, "127.0.0.1:15721"@) && !contains(n, "localhost:15721"@) && !contains(n, "/cc-switch-proxy"@)
        },
        api_key_spec(settings, if config_of(settings) matches Ok(Some(_)) { doc } else { None }) != Some(
            "PROXY_MANAGED"@,
        ),
{
}

/// A settings value that is not an object is refused as such.
pub proof fn lemma_settings_must_be_an_object(settings: JsonValue, doc: Option<TomlValue>)
    requires
        !settings.is_object(),
    ensures
        validation_spec(settings, doc) == Err::<(Option<Seq<char>>, Option<Seq<char>>, bool), CodexValidationError>(
            CodexValidationError::SettingsNotObject,
        ),
{
}

pub open spec fn validation_view(r: Result<CodexValidation, CodexValidationError>)
    -> Result<(Option<Seq<char>>, Option<Seq<char>>, bool), CodexValidationError>
{
    match r {
        Ok(v) => Ok((opt_view(v.active_model_provider), opt_view(v.base_url), v.has_api_key)),
        Err(e) => Err(e),
    }
}

fn config_text_exec(settings: &JsonValue) -> (res: Result<Option<&String>, CodexValidationError>)
    ensures
        match res {
            Ok(Some(t)) => config_of(*settings) == Ok::<Option<Seq<char>>, CodexValidationError>(Some(t@)),
            Ok(None) => config_of(*settings) == Ok::<Option<Seq<char>>, CodexValidationError>(None),
            Err(e) => config_of(*settings) == Err::<Option<Seq<char>>, CodexValidationError>(e),
        },
{
    match settings.get("config") {
        None => Ok(None),
        Some(JsonValue::Null) => Ok(None),
        Some(JsonValue::Str(s)) => if is_blank_str(s.as_str()) {
            Ok(None)
        } else {
            Ok(Some(s))
        },
        Some(_) => Err(CodexValidationError::ConfigNotString),
    }
}

fn env_key_present_exec(table: Option<&TomlValue>) -> (res: bool)
    ensures
        res == env_key_present(
            match table {
                Some(t) => Some(*t),
                None => None,
            },
        ),
{
    match table {
        Some(t) => match t.get("env_key") {
            Some(k) => match k.as_str() {
                Some(s) => !is_blank_str(s.as_str()),
                None => false,
            },
            None => false,
        },
        None => false,
    }
}

/// Validation of a settings object given the parse of its configuration
/// text (`doc`, `None` when it did not parse or there is no text).
pub fn validate_codex_document(settings: &JsonValue, doc: Option<&TomlValue>) -> (res: Result<CodexValidation, CodexValidationError>)
    ensures
        validation_view(res) == validation_spec(
            *settings,
            match doc {
                Some(d) => Some(*d),
                None => None,
            },
        ),
{
    if !settings.is_object_value() {
        return Err(CodexValidationError::SettingsNotObject);
    }
    let config = match config_text_exec(settings) {
        Ok(c) => c,
        Err(e) => return Err(e),
    };
    if config.is_some() && doc.is_none() {
        return Err(CodexValidationError::InvalidConfigToml);
    }
    let d: Option<&TomlValue> = if config.is_some() {
        doc
    } else {
        None
    };
    let active: Option<String> = match d {
        None => None,
        Some(dd) => match dd.get("model_provider") {
            None => None,
            Some(v) => match v.as_str() {
                Some(s) => Some(s.clone()),
                None => return Err(CodexValidationError::ModelProviderNotString),
            },
        },
    };
    let table: Option<&TomlValue> = match d {
        None => None,
        Some(dd) => match dd.get("model_providers") {
            None => None,
            Some(p) => if !p.is_table_value() {
                return Err(CodexValidationError::ModelProvidersNotTable);
            } else {
                match &active {
                    None => None,
                    Some(a) => match p.get(a.as_str()) {
                        None => None,
                        Some(t) => if t.is_table_value() {
                            Some(t)
                        } else {
                            return Err(CodexValidationError::ActiveModelProviderNotTable);
                        },
                    },
                }
            },
        },
    };
    let base_url = match d {
        Some(dd) => active_base_url_in(dd),
        None => None,
    };
    let api_key = codex_api_key_in(settings, d);
    let is_proxy_key = match &api_key {
        Some(k) => str_eq(k.as_str(), "PROXY_MANAGED"),
        None => false,
    };
    if is_proxy_key {
        return Err(CodexValidationError::ProxyManagedCredential);
    }
    let active_is_cc_switch_proxy = match &active {
        Some(id) => str_eq(id.as_str(), "cc-switch-official") || str_starts_with(id.as_str(), "cc-switch-"),
        None => false,
    };
    let url_is_cc_switch_proxy = match &base_url {
        Some(u) => is_cc_switch_proxy_url(u.as_str()),
        None => false,
    };
    if active_is_cc_switch_proxy || url_is_cc_switch_proxy {
        return Err(CodexValidationError::ProxyPlaceholderRoute);
    }
    let has_api_key = api_key.is_some() || env_key_present_exec(table);
    Ok(CodexValidation { active_model_provider: active, base_url, has_api_key })
}

/// Validates a Codex provider's `settings_config`: its `config` text must
/// parse as TOML, its provider tables must have the right shape, and it
/// must not be a cc-switch proxy placeholder.
pub fn validate_codex_provider(settings: &JsonValue) -> (res: Result<CodexValidation, CodexValidationError>)
    ensures
        validation_view(res) == validation_spec(*settings, parsed(config_text_of(*settings))),
{
    let text: Option<&String> = if settings.is_object_value() {
        match config_text_exec(settings) {
            Ok(t) => t,
            Err(_) => None,
        }
    } else {
        None
    };
    let doc = match text {
        Some(t) => parse_toml_opt(t.as_str()),
        None => None,
    };
    match doc {
        Some(d) => validate_codex_document(settings, Some(&d)),
        None => validate_codex_document(settings, None),
    }
}

} // verus!
