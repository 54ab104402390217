//! Importing Codex providers from a cc-switch database: which rows are
//! read, how a row becomes a provider or is rejected, and how a selection
//! of providers is made.
use vstd::prelude::*;

use crate::codex_provider::{config_text_of, parsed, validate_codex_provider, validation_spec, CodexValidationError};
use crate::json::{json_document, json_serialized, json_text, parse_json, JsonValue};
use crate::paths::{join, path_join};
use crate::provider::{clone_opt_string, Provider, ProviderSource};
use crate::sets::{set_of, sorted_set, views};
use crate::text::{concat, is_blank_str, owned, str_eq, trimmed, utf8_bytes};

verus! {

#[derive(Debug, Clone, Copy, PartialEq, Eq, Structural)]
pub enum ConflictPolicy {
    Skip,
    Replace,
    Rename,
}

#[derive(Debug, PartialEq, Eq)]
pub struct RejectedProvider {
    pub id: String,
    pub reason: String,
}

impl Clone for RejectedProvider {
    fn clone(&self) -> (res: Self)
        ensures
            res == *self,
    {
        RejectedProvider { id: self.id.clone(), reason: self.reason.clone() }
    }
}

#[derive(Debug)]
pub struct ImportCandidate {
    pub provider: Provider,
    pub source_is_current: bool,
}

impl Clone for ImportCandidate {
    fn clone(&self) -> (res: Self)
        ensures
            res == *self,
    {
        ImportCandidate { provider: self.provider.clone(), source_is_current: self.source_is_current }
    }
}

#[derive(Debug)]
pub struct ImportScan {
    pub source: String,
    pub candidates: Vec<ImportCandidate>,
    pub rejected: Vec<RejectedProvider>,
}

#[derive(Debug, PartialEq, Eq)]
pub struct ImportReport {
    pub source: String,
    pub imported: usize,
    pub replaced: usize,
    pub renamed: usize,
    pub skipped: usize,
    pub rejected: Vec<RejectedProvider>,
}

impl ImportReport {
    pub fn new(source: String) -> (res: Self)
        ensures
            res.source == source,
            res.imported == 0,
            res.replaced == 0,
            res.renamed == 0,
            res.skipped == 0,
            res.rejected@.len() == 0,
    {
        ImportReport { source, imported: 0, replaced: 0, renamed: 0, skipped: 0, rejected: Vec::new() }
    }
}

#[derive(Debug)]
pub enum CcSwitchImportError {
    Open { path: String, message: String },
    Schema(String),
    Query(String),
    UnknownProviders(Vec<String>),
}

/// The IDs joined by `", "`.
pub open spec fn joined(ids: Seq<Seq<char>>) -> Seq<char>
    decreases ids.len(),
{
    if ids.len() == 0 {
        Seq::empty()
    } else if ids.len() == 1 {
        ids[0]
    } else {
        joined(ids.drop_last()) + ", "@ + ids.last()
    }
}

fn join_ids(ids: &Vec<String>) -> (res: String)
    ensures
        res@ == joined(views(ids@)),
{
    let ghost v = views(ids@);
    let mut out = String::new();
    let mut i: usize = 0;
    while i < ids.len()
        invariant
            i <= ids@.len(),
            v == views(ids@),
            out@ == joined(v.take(i as int)),
        decreases ids@.len() - i,
    {
        proof {
            assert(v.take(i + 1).drop_last() =~= v.take(i as int));
            assert(v.take(i + 1).last() == ids@[i as int]@);
        }
        if i > 0 {
            out = concat(out.as_str(), ", ");
        }
        out = concat(out.as_str(), ids[i].as_str());
        proof {
            if i == 0 {
                assert(v.take(1)[0] == ids@[0]@);
                assert(out@ =~= joined(v.take(1)));
            }
        }
        i = i + 1;
    }
    assert(v.take(i as int) =~= v);
    out
}

impl CcSwitchImportError {
    /// The error's message, as its `Display` gives it.
    pub open spec fn message_spec(self) -> Seq<char> {
        match self {
            CcSwitchImportError::Open { path, message } => "cannot open cc-switch database "@ + path@ + ": "@ + message@,
            CcSwitchImportError::Schema(m) => "cc-switch database schema error: "@ + m@,
            CcSwitchImportError::Query(m) => "cc-switch database query error: "@ + m@,
            CcSwitchImportError::UnknownProviders(ids) => "selected cc-switch providers were not found: "@ + joined(
                views(ids@),
            ),
        }
    }

    /// The error's message.
    pub fn message(&self) -> (res: String)
        ensures
            res@ == self.message_spec(),
    {
        match self {
            CcSwitchImportError::Open { path, message } => {
                let a = concat("cannot open cc-switch database ", path.as_str());
                let b = concat(a.as_str(), ": ");
                concat(b.as_str(), message.as_str())
            },
            CcSwitchImportError::Schema(m) => concat("cc-switch database schema error: ", m.as_str()),
            CcSwitchImportError::Query(m) => concat("cc-switch database query error: ", m.as_str()),
            CcSwitchImportError::UnknownProviders(ids) => {
                let j = join_ids(ids);
                concat("selected cc-switch providers were not found: ", j.as_str())
            },
        }
    }
}

pub struct CcSwitchImporter {
    db_path: String,
}

impl CcSwitchImporter {
    pub closed spec fn path_spec(self) -> Seq<char> {
        self.db_path@
    }

    pub fn new(path: &str) -> (res: Self)
        ensures
            res.path_spec() == path@,
    {
        CcSwitchImporter { db_path: owned(path) }
    }

    pub fn db_path(&self) -> (res: &str)
        ensures
            res@ == self.path_spec(),
    {
        self.db_path.as_str()
    }

    /// `~/.cc-switch/cc-switch.db`, from the home directory (`.` where
    /// there is none).
    pub fn discover_default_db(home: Option<&str>) -> (res: String)
        ensures
            res@ == join(
                join(
                    match home {
                        Some(h) => h@,
                        None => "."@,
                    },
                    ".cc-switch"@,
                ),
                "cc-switch.db"@,
            ),
    {
        let base = match home {
            Some(h) => path_join(h, ".cc-switch"),
            None => path_join(".", ".cc-switch"),
        };
        path_join(base.as_str(), "cc-switch.db")
    }
}

/// A row of the cc-switch `providers` table as the query reads it.
#[derive(Debug)]
pub struct SourceRow {
    pub id: String,
    pub name: String,
    pub settings_config: String,
    pub website_url: Option<String>,
    pub category: Option<String>,
    pub created_at: Option<i64>,
    pub sort_index: Option<i64>,
    pub notes: Option<String>,
    pub icon: Option<String>,
    pub icon_color: Option<String>,
    pub meta: String,
    pub in_failover_queue: bool,
    pub is_current: bool,
}

/// Why a row is rejected, as its ID (`<empty>` for a blank one) and reason;
/// `None` for a row that imports.
pub open spec fn rejection(row: SourceRow) -> Option<(Seq<char>, Seq<char>)> {
    if trimmed(row.id@).len() == 0 {
        Some(("<empty>"@, "provider id is empty"@))
    } else {
        match json_document(utf8_bytes(row.settings_config@)) {
            None => Some((row.id@, "invalid settings_config JSON"@)),
            Some(s) => if !s.is_object() {
                Some((row.id@, "settings_config must be a JSON object"@))
            } else {
                match json_document(utf8_bytes(row.meta@)) {
                    None => Some((row.id@, "invalid provider meta JSON"@)),
                    Some(m) => if !m.is_object() {
                        Some((row.id@, "provider meta must be a JSON object"@))
                    } else {
                        match validation_spec(s, parsed(config_text_of(s))) {
                            Err(e) => Some((row.id@, e.text())),
                            Ok(_) => None,
                        }
                    },
                }
            },
        }
    }
}

/// The stored text of a JSON object read from `raw`: its re-serialization.
pub open spec fn stored_json(raw: Seq<char>) -> Seq<char> {
    match json_document(utf8_bytes(raw)) {
        Some(v) => match json_serialized(v) {
            Some(t) => t,
            None => raw,
        },
        None => raw,
    }
}

/// The provider that an accepted row becomes.
pub open spec fn imported_provider(row: SourceRow, p: Provider) -> bool {
    &&& p.id == row.id
    &&& p.name == row.name
    &&& p.settings_config@ == stored_json(row.settings_config@)
    &&& p.website_url == row.website_url
    &&& p.category == row.category
    &&& p.created_at == row.created_at
    &&& p.sort_index == row.sort_index
    &&& p.notes == row.notes
    &&& p.icon == row.icon
    &&& p.icon_color == row.icon_color
    &&& p.meta@ == stored_json(row.meta@)
    &&& p.in_failover_queue == row.in_failover_queue
    &&& p.is_current == row.is_current
    &&& p.source matches ProviderSource::CcSwitch { source_id, source_updated_at } && source_id@ == row.id@
        && source_updated_at == row.created_at
}

fn stored_text(raw: &String, value: &JsonValue) -> (res: String)
    requires
        json_document(utf8_bytes(raw@)) == Some(*value),
    ensures
        res@ == stored_json(raw@),
{
    match json_text(value) {
        Some(t) => t,
        None => raw.clone(),
    }
}

/// A cc-switch row as a provider to import, or the reason it is rejected.
pub fn normalize_row(row: SourceRow) -> (res: Result<ImportCandidate, RejectedProvider>)
    ensures
        match res {
            Ok(c) => rejection(row) is None && imported_provider(row, c.provider) && c.source_is_current == row.is_current,
            Err(r) => rejection(row) == Some((r.id@, r.reason@)),
        },
{
    if is_blank_str(row.id.as_str()) {
        return Err(RejectedProvider { id: owned("<empty>"), reason: owned("provider id is empty") });
    }
    let settings = match parse_json(row.settings_config.as_str().as_bytes()) {
        Some(v) => v,
        None => {
            return Err(RejectedProvider { id: row.id.clone(), reason: owned("invalid settings_config JSON") });
        },
    };
    if !settings.is_object_value() {
        return Err(RejectedProvider { id: row.id.clone(), reason: owned("settings_config must be a JSON object") });
    }
    let meta = match parse_json(row.meta.as_str().as_bytes()) {
        Some(v) => v,
        None => {
            return Err(RejectedProvider { id: row.id.clone(), reason: owned("invalid provider meta JSON") });
        },
    };
    if !meta.is_object_value() {
        return Err(RejectedProvider { id: row.id.clone(), reason: owned("provider meta must be a JSON object") });
    }
    match validate_codex_provider(&settings) {
        Err(e) => {
            return Err(RejectedProvider { id: row.id.clone(), reason: e.message() });
        },
        Ok(_) => {},
    }
    let settings_config = stored_text(&row.settings_config, &settings);
    let meta_text = stored_text(&row.meta, &meta);
    let source_id = row.id.clone();
    Ok(ImportCandidate {
        provider: Provider {
            id: row.id,
            name: row.name,
            settings_config,
            website_url: row.website_url,
            category: row.category,
            created_at: row.created_at,
            sort_index: row.sort_index,
            notes: row.notes,
            icon: row.icon,
            icon_color: row.icon_color,
            meta: meta_text,
            in_failover_queue: row.in_failover_queue,
            is_current: row.is_current,
            source: ProviderSource::CcSwitch { source_id, source_updated_at: row.created_at },
        },
        source_is_current: row.is_current,
    })
}

/// `cands` and `rej` are what normalizing `rows` in order gives: each
/// accepted row's provider among the candidates, each rejected row's
/// reason among the rejections, in the order of the rows.
pub open spec fn scan_outcome(rows: Seq<SourceRow>, cands: Seq<ImportCandidate>, rej: Seq<RejectedProvider>) -> bool
    decreases rows.len(),
{
    if rows.len() == 0 {
        cands.len() == 0 && rej.len() == 0
    } else {
        let r = rows.last();
        if rejection(r) is None {
            &&& cands.len() > 0
            &&& imported_provider(r, cands.last().provider)
            &&& cands.last().source_is_current == r.is_current
            &&& scan_outcome(rows.drop_last(), cands.drop_last(), rej)
        } else {
            &&& rej.len() > 0
            &&& rejection(r) == Some((rej.last().id@, rej.last().reason@))
            &&& scan_outcome(rows.drop_last(), cands, rej.drop_last())
        }
    }
}

/// The scan of the rows that the query read, in order: each row either a
/// candidate or a rejection.
pub fn scan_rows(source: String, rows: Vec<SourceRow>) -> (res: ImportScan)
    ensures
        res.source == source,
        scan_outcome(rows@, res.candidates@, res.rejected@),
{
    let ghost src = source;
    let ghost orig = rows@;
    let mut scan = ImportScan { source, candidates: Vec::new(), rejected: Vec::new() };
    let mut rows = rows;
    let ghost mut k: int = 0;
    assert(orig.take(0) =~= Seq::<SourceRow>::empty());
    while rows.len() > 0
        invariant
            0 <= k <= orig.len(),
            rows@ =~= orig.subrange(k, orig.len() as int),
            scan.source == src,
            scan_outcome(orig.take(k), scan.candidates@, scan.rejected@),
        decreases rows@.len(),
    {
        let ghost before_c = scan.candidates@;
        let ghost before_r = scan.rejected@;
        let row = rows.remove(0);
        proof {
            assert(row == orig[k]);
            assert(orig.take(k + 1).drop_last() =~= orig.take(k));
            assert(orig.take(k + 1).last() == orig[k]);
        }
        match normalize_row(row) {
            Ok(c) => {
                scan.candidates.push(c);
                proof {
                    assert(scan.candidates@.drop_last() =~= before_c);
                }
            },
            Err(r) => {
                scan.rejected.push(r);
                proof {
                    assert(scan.rejected@.drop_last() =~= before_r);
                }
            },
        }
        proof {
            k = k + 1;
        }
    }
    assert(orig.take(k) =~= orig);
    scan
}

/// Whether a column is among those of the table.
pub open spec fn has_column(columns: Seq<String>, name: Seq<char>) -> bool {
    exists|i: int| 0 <= i < columns.len() && (#[trigger] columns[i])@ == name
}

fn has_column_exec(columns: &Vec<String>, name: &str) -> (res: bool)
    ensures
        res == has_column(columns@, name@),
{
    let mut i: usize = 0;
    while i < columns.len()
        invariant
            i <= columns@.len(),
            forall|j: int| 0 <= j < i ==> (#[trigger] columns@[j])@ != name@,
        decreases columns@.len() - i,
    {
        if str_eq(columns[i].as_str(), name) {
            return true;
        }
        i = i + 1;
    }
    false
}

/// The first required column that the table lacks (or `None` where it
/// has them all).
pub open spec fn missing_column(columns: Seq<String>) -> Option<Seq<char>> {
    if !has_column(columns, "id"@) {
        Some("id"@)
    } else if !has_column(columns, "app_type"@) {
        Some("app_type"@)
    } else if !has_column(columns, "name"@) {
        Some("name"@)
    } else if !has_column(columns, "settings_config"@) {
        Some("settings_config"@)
    } else if !has_column(columns, "meta"@) {
        Some("meta"@)
    } else {
        None
    }
}

/// Checks that the `providers` table exists (it has columns) and has the
/// columns that the import reads.
pub fn check_provider_columns(columns: &Vec<String>) -> (res: Result<(), CcSwitchImportError>)
    ensures
        columns@.len() == 0 ==> (res matches Err(CcSwitchImportError::Schema(m)) && m@ == "providers table is missing"@),
        columns@.len() > 0 ==> match missing_column(columns@) {
            None => res is Ok,
            Some(c) => (res matches Err(CcSwitchImportError::Schema(m)) && m@ == "providers table is missing required column '"@
                + c + "'"@),
        },
{
    if columns.len() == 0 {
        return Err(CcSwitchImportError::Schema(owned("providers table is missing")));
    }
    let mut k: usize = 0;
    let required: Vec<&str> = vec!["id", "app_type", "name", "settings_config", "meta"];
    while k < required.len()
        invariant
            required@.len() == 5,
            required@[0]@ == "id"@,
            required@[1]@ == "app_type"@,
            required@[2]@ == "name"@,
            required@[3]@ == "settings_config"@,
            required@[4]@ == "meta"@,
            k <= 5,
            forall|j: int| 0 <= j < k ==> has_column(columns@, (#[trigger] required@[j])@),
        decreases 5 - k,
    {
        if !has_column_exec(columns, required[k]) {
            let a = concat("providers table is missing required column '", required[k]);
            return Err(CcSwitchImportError::Schema(concat(a.as_str(), "'")));
        }
        k = k + 1;
    }
    Ok(())
}

/// A column of the query: the column itself, or `NULL AS` it where the
/// table lacks it.
pub open spec fn select_column(columns: Seq<String>, name: Seq<char>) -> Seq<char> {
    if has_column(columns, name) {
        name
    } else {
        "NULL AS "@ + name
    }
}

/// A column in an expression: the column itself, or `NULL`.
pub open spec fn expr_column(columns: Seq<String>, name: Seq<char>) -> Seq<char> {
    if has_column(columns, name) {
        name
    } else {
        "NULL"@
    }
}

/// The query that reads the Codex providers of a cc-switch database in
/// cc-switch's own order.
pub open spec fn query_spec(c: Seq<String>) -> Seq<char> {
    "SELECT id, name, settings_config, "@ + select_column(c, "website_url"@) + ", "@ + select_column(c, "category"@) + ", "@
        + select_column(c, "created_at"@) + ", "@ + select_column(c, "sort_index"@) + ", "@ + select_column(c, "notes"@)
        + ", "@ + select_column(c, "icon"@) + ", "@ + select_column(c, "icon_color"@) + ", meta, "@ + select_column(
        c,
        "in_failover_queue"@,
    ) + ", "@ + select_column(c, "is_current"@) + " FROM providers WHERE app_type = ?1 ORDER BY COALESCE("@
        + expr_column(c, "sort_index"@) + ", 999999), COALESCE("@ + expr_column(c, "created_at"@)
        + ", 9999999999999), id"@
}

fn select_column_exec(columns: &Vec<String>, name: &str) -> (res: String)
    ensures
        res@ == select_column(columns@, name@),
{
    if has_column_exec(columns, name) {
        owned(name)
    } else {
        concat("NULL AS ", name)
    }
}

fn expr_column_exec(columns: &Vec<String>, name: &str) -> (res: String)
    ensures
        res@ == expr_column(columns@, name@),
{
    if has_column_exec(columns, name) {
        owned(name)
    } else {
        owned("NULL")
    }
}

fn append(out: &mut String, s: &str)
    ensures
        final(out)@ == old(out)@ + s@,
{
    let t = concat(out.as_str(), s);
    *out = t;
}

/// The query for a table with these columns.
pub fn build_query(columns: &Vec<String>) -> (res: String)
    ensures
        res@ == query_spec(columns@),
{
    let mut q = owned("SELECT id, name, settings_config, ");
    append(&mut q, select_column_exec(columns, "website_url").as_str());
    append(&mut q, ", ");
    append(&mut q, select_column_exec(columns, "category").as_str());
    append(&mut q, ", ");
    append(&mut q, select_column_exec(columns, "created_at").as_str());
    append(&mut q, ", ");
    append(&mut q, select_column_exec(columns, "sort_index").as_str());
    append(&mut q, ", ");
    append(&mut q, select_column_exec(columns, "notes").as_str());
    append(&mut q, ", ");
    append(&mut q, select_column_exec(columns, "icon").as_str());
    append(&mut q, ", ");
    append(&mut q, select_column_exec(columns, "icon_color").as_str());
    append(&mut q, ", meta, ");
    append(&mut q, select_column_exec(columns, "in_failover_queue").as_str());
    append(&mut q, ", ");
    append(&mut q, select_column_exec(columns, "is_current").as_str());
    append(&mut q, " FROM providers WHERE app_type = ?1 ORDER BY COALESCE(");
    append(&mut q, expr_column_exec(columns, "sort_index").as_str());
    append(&mut q, ", 999999), COALESCE(");
    append(&mut q, expr_column_exec(columns, "created_at").as_str());
    append(&mut q, ", 9999999999999), id");
    q
}


/// Whether some candidate was read from the cc-switch provider `id`.
pub open spec fn available(cands: Seq<ImportCandidate>, id: Seq<char>) -> bool {
    exists|i: int| 0 <= i < cands.len() && (#[trigger] cands[i]).provider.source.id_spec() == Some(id)
}

/// Whether `id` is among the requested IDs.
pub open spec fn requested(ids: Seq<String>, id: Seq<char>) -> bool {
    exists|i: int| 0 <= i < ids.len() && (#[trigger] ids[i])@ == id
}

/// The requested IDs that no candidate has, in request order.
pub open spec fn unknown_ids(ids: Seq<String>, cands: Seq<ImportCandidate>) -> Seq<Seq<char>>
    decreases ids.len(),
{
    if ids.len() == 0 {
        Seq::empty()
    } else if available(cands, ids.last()@) {
        unknown_ids(ids.drop_last(), cands)
    } else {
        unknown_ids(ids.drop_last(), cands).push(ids.last()@)
    }
}

/// The candidates whose cc-switch ID was requested, in order.
pub open spec fn selected(cands: Seq<ImportCandidate>, ids: Seq<String>) -> Seq<ImportCandidate>
    decreases cands.len(),
{
    if cands.len() == 0 {
        Seq::empty()
    } else {
        let c = cands.last();
        let rest = selected(cands.drop_last(), ids);
        match c.provider.source.id_spec() {
            Some(x) => if requested(ids, x) {
                rest.push(c)
            } else {
                rest
            },
            None => rest,
        }
    }
}

fn is_available(cands: &Vec<ImportCandidate>, id: &str) -> (res: bool)
    ensures
        res == available(cands@, id@),
{
    let mut i: usize = 0;
    while i < cands.len()
        invariant
            i <= cands@.len(),
            forall|j: int| 0 <= j < i ==> (#[trigger] cands@[j]).provider.source.id_spec() != Some(id@),
        decreases cands@.len() - i,
    {
        match cands[i].provider.source.source_id() {
            Some(x) => {
                if str_eq(x, id) {
                    return true;
                }
            },
            None => {},
        }
        i = i + 1;
    }
    false
}

fn is_requested(ids: &Vec<String>, id: &str) -> (res: bool)
    ensures
        res == requested(ids@, id@),
{
    let mut i: usize = 0;
    while i < ids.len()
        invariant
            i <= ids@.len(),
            forall|j: int| 0 <= j < i ==> (#[trigger] ids@[j])@ != id@,
        decreases ids@.len() - i,
    {
        if str_eq(ids[i].as_str(), id) {
            return true;
        }
        i = i + 1;
    }
    false
}

impl ImportScan {
    /// The scan narrowed to the requested cc-switch providers; an error
    /// naming, once each and in order, the requested IDs that it does not
    /// hold.
    pub fn select_provider_ids(&self, provider_ids: &Vec<String>) -> (res: Result<ImportScan, CcSwitchImportError>)
        ensures
            unknown_ids(provider_ids@, self.candidates@).len() > 0 ==> (res matches Err(
                CcSwitchImportError::UnknownProviders(u),
            ) && set_of(false, views(u@), unknown_ids(provider_ids@, self.candidates@))),
            unknown_ids(provider_ids@, self.candidates@).len() == 0 ==> (res matches Ok(s) && s.source == self.source
                && s.candidates@ == selected(self.candidates@, provider_ids@) && s.rejected@ == self.rejected@),
    {
        let mut unknown: Vec<String> = Vec::new();
        let mut i: usize = 0;
        while i < provider_ids.len()
            invariant
                i <= provider_ids@.len(),
                views(unknown@) =~= unknown_ids(provider_ids@.take(i as int), self.candidates@),
            decreases provider_ids@.len() - i,
        {
            proof {
                assert(provider_ids@.take(i + 1).drop_last() =~= provider_ids@.take(i as int));
            }
            if !is_available(&self.candidates, provider_ids[i].as_str()) {
                unknown.push(provider_ids[i].clone());
            }
            i = i + 1;
        }
        assert(provider_ids@.take(i as int) =~= provider_ids@);
        if unknown.len() > 0 {
            let sorted = sorted_set(&unknown, false);
            return Err(CcSwitchImportError::UnknownProviders(sorted));
        }
        let mut candidates: Vec<ImportCandidate> = Vec::new();
        let mut j: usize = 0;
        while j < self.candidates.len()
            invariant
                j <= self.candidates@.len(),
                candidates@ == selected(self.candidates@.take(j as int), provider_ids@),
            decreases self.candidates@.len() - j,
        {
            proof {
                assert(self.candidates@.take(j + 1).drop_last() =~= self.candidates@.take(j as int));
            }
            let keep = match self.candidates[j].provider.source.source_id() {
                Some(x) => is_requested(provider_ids, x),
                None => false,
            };
            if keep {
                candidates.push(self.candidates[j].clone());
            }
            j = j + 1;
        }
        assert(self.candidates@.take(j as int) =~= self.candidates@);
        let mut rejected: Vec<RejectedProvider> = Vec::new();
        let mut k: usize = 0;
        while k < self.rejected.len()
            invariant
                k <= self.rejected@.len(),
                rejected@ == self.rejected@.take(k as int),
            decreases self.rejected@.len() - k,
        {
            rejected.push(self.rejected[k].clone());
            proof {
                assert(rejected@ =~= self.rejected@.take(k + 1));
            }
            k = k + 1;
        }
        assert(self.rejected@.take(k as int) =~= self.rejected@);
        Ok(ImportScan { source: self.source.clone(), candidates, rejected })
    }
}

} // verus!
