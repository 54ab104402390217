//! The provider records that codex-route owns.
use vstd::prelude::*;

use crate::json::{json_document, parse_json, JsonValue};

verus! {

pub fn clone_opt_string(o: &Option<String>) -> (res: Option<String>)
    ensures
        res == *o,
{
    match o {
        Some(s) => Some(s.clone()),
        None => None,
    }
}

/// Where a provider record came from.
#[derive(Debug)]
pub enum ProviderSource {
    Local,
    CcSwitch { source_id: String, source_updated_at: Option<i64> },
}

impl Clone for ProviderSource {
    fn clone(&self) -> (res: Self)
        ensures
            res == *self,
    {
        match self {
            ProviderSource::Local => ProviderSource::Local,
            ProviderSource::CcSwitch { source_id, source_updated_at } => ProviderSource::CcSwitch {
                source_id: source_id.clone(),
                source_updated_at: *source_updated_at,
            },
        }
    }
}

impl ProviderSource {
    pub open spec fn name_spec(self) -> Seq<char> {
        match self {
            ProviderSource::Local => "local"@,
            ProviderSource::CcSwitch { .. } => "cc-switch"@,
        }
    }

    pub open spec fn id_spec(self) -> Option<Seq<char>> {
        match self {
            ProviderSource::Local => None,
            ProviderSource::CcSwitch { source_id, .. } => Some(source_id@),
        }
    }

    pub open spec fn updated_spec(self) -> Option<i64> {
        match self {
            ProviderSource::Local => None,
            ProviderSource::CcSwitch { source_updated_at, .. } => source_updated_at,
        }
    }

    /// The stored name of the source: `local` or `cc-switch`.
    pub fn source_name(&self) -> (res: &'static str)
        ensures
            res@ == self.name_spec(),
    {
        match self {
            ProviderSource::Local => "local",
            ProviderSource::CcSwitch { .. } => "cc-switch",
        }
    }

    /// The cc-switch provider ID of an imported record.
    pub fn source_id(&self) -> (res: Option<&str>)
        ensures
            match res {
                Some(s) => self.id_spec() == Some(s@),
                None => self.id_spec() is None,
            },
    {
        match self {
            ProviderSource::Local => None,
            ProviderSource::CcSwitch { source_id, .. } => Some(source_id.as_str()),
        }
    }

    pub fn source_updated_at(&self) -> (res: Option<i64>)
        ensures
            res == self.updated_spec(),
    {
        match self {
            ProviderSource::Local => None,
            ProviderSource::CcSwitch { source_updated_at, .. } => *source_updated_at,
        }
    }

    /// Equality of two sources.
    pub fn same(&self, other: &ProviderSource) -> (res: bool)
        ensures
            res == (self.name_spec() == other.name_spec() && self.id_spec() == other.id_spec()
                && self.updated_spec() == other.updated_spec()),
    {
        match (self, other) {
            (ProviderSource::Local, ProviderSource::Local) => true,
            (
                ProviderSource::CcSwitch { source_id: a, source_updated_at: x },
                ProviderSource::CcSwitch { source_id: b, source_updated_at: y },
            ) => {
                crate::text::str_eq(a.as_str(), b.as_str()) && *x == *y
            },
            _ => {
                proof {
                    crate::text::lemma_lex_equal("local"@, "cc-switch"@);
                    reveal_strlit("local");
                    reveal_strlit("cc-switch");
                }
                false
            },
        }
    }
}

/// A provider configuration owned by codex-route.
///
/// `settings_config` and `meta` hold the JSON text of opaque objects: Codex
/// and cc-switch add fields over time, so the store must not discard
/// unknown nested configuration.
#[derive(Debug)]
pub struct Provider {
    pub id: String,
    pub name: String,
    pub settings_config: String,
    pub website_url: Option<String>,
    pub category: Option<String>,
    pub created_at: Option<i64>,
    pub sort_index: Option<i64>,
    pub notes: Option<String>,
    pub icon: Option<String>,
    pub icon_color: Option<String>,
    pub meta: String,
    pub in_failover_queue: bool,
    pub is_current: bool,
    pub source: ProviderSource,
}

impl Clone for Provider {
    fn clone(&self) -> (res: Self)
        ensures
            res == *self,
    {
        Provider {
            id: self.id.clone(),
            name: self.name.clone(),
            settings_config: self.settings_config.clone(),
            website_url: clone_opt_string(&self.website_url),
            category: clone_opt_string(&self.category),
            created_at: self.created_at,
            sort_index: self.sort_index,
            notes: clone_opt_string(&self.notes),
            icon: clone_opt_string(&self.icon),
            icon_color: clone_opt_string(&self.icon_color),
            meta: self.meta.clone(),
            in_failover_queue: self.in_failover_queue,
            is_current: self.is_current,
            source: self.source.clone(),
        }
    }
}

impl Provider {
    /// The decoded `settings_config` object.
    pub open spec fn settings_spec(self) -> Option<JsonValue> {
        json_document(crate::text::utf8_bytes(self.settings_config@))
    }

    /// Decodes `settings_config` (`None` when it is not valid JSON).
    pub fn settings(&self) -> (res: Option<JsonValue>)
        ensures
            res == self.settings_spec(),
    {
        parse_json(self.settings_config.as_str().as_bytes())
    }
}

/// The public summary of a provider: no configuration payloads.
#[derive(Debug, Clone, PartialEq, Eq)]
pub struct ProviderSummary {
    pub id: String,
    pub name: String,
    pub category: Option<String>,
    pub source: String,
    pub is_current: bool,
}

impl ProviderSummary {
    /// The summary of a provider.
    pub fn from(provider: &Provider) -> (res: Self)
        ensures
            res.id == provider.id,
            res.name == provider.name,
            res.category == provider.category,
            res.source@ == provider.source.name_spec(),
            res.is_current == provider.is_current,
    {
        ProviderSummary {
            id: provider.id.clone(),
            name: provider.name.clone(),
            category: clone_opt_string(&provider.category),
            source: crate::text::owned(provider.source.source_name()),
            is_current: provider.is_current,
        }
    }
}

} // verus!
