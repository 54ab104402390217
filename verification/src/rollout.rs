//! Codex rollout files: which files are rollouts, and the `session_meta`
//! record that the first lines of a rollout hold.
use vstd::prelude::*;

use crate::json::{json_document, parse_json, JsonValue};
use crate::paths::{is_absolute, is_absolute_str, join, path_join, path_starts_with, path_starts_with_exec};
use crate::sets::{path_sorted_from, sort_paths, views};
use crate::text::{
    ascii_lower, ends_with, starts_with, str_ends_with, str_eq, str_starts_with, to_ascii_lowercase,
    trim, trimmed, is_blank_str,
};

verus! {

/// The Codex session source recorded in a rollout's `session_meta` payload.
///
/// `Legacy` represents older rollouts that predate the source field. It is
/// intentionally distinct from `Other`, so compatibility does not make an
/// explicitly unknown or internal source visible in the workspace index.
#[derive(Debug, PartialEq, Eq)]
pub enum RolloutSource {
    Legacy,
    Cli,
    Vscode,
    Exec,
    Other(String),
}

impl Clone for RolloutSource {
    fn clone(&self) -> (res: Self)
        ensures
            res == *self,
    {
        match self {
            RolloutSource::Legacy => RolloutSource::Legacy,
            RolloutSource::Cli => RolloutSource::Cli,
            RolloutSource::Vscode => RolloutSource::Vscode,
            RolloutSource::Exec => RolloutSource::Exec,
            RolloutSource::Other(s) => RolloutSource::Other(s.clone()),
        }
    }
}

pub ghost enum SourceView {
    Legacy,
    Cli,
    Vscode,
    Exec,
    Other(Seq<char>),
}

impl RolloutSource {
    pub open spec fn view(self) -> SourceView {
        match self {
            RolloutSource::Legacy => SourceView::Legacy,
            RolloutSource::Cli => SourceView::Cli,
            RolloutSource::Vscode => SourceView::Vscode,
            RolloutSource::Exec => SourceView::Exec,
            RolloutSource::Other(s) => SourceView::Other(s@),
        }
    }
}

/// One `session_meta` record of a rollout file.  `modified_at` is the
/// file's modification time in nanoseconds from the Unix epoch (negative
/// before it), where the file system reports one.
#[derive(Debug, PartialEq, Eq)]
pub struct RolloutSessionMeta {
    pub session_id: String,
    pub thread_id: String,
    pub workspace: String,
    pub source: RolloutSource,
    pub timestamp: Option<String>,
    pub rollout_path: String,
    pub archived: bool,
    pub modified_at: Option<i128>,
}

impl Clone for RolloutSessionMeta {
    fn clone(&self) -> (res: Self)
        ensures
            res == *self,
    {
        RolloutSessionMeta {
            session_id: self.session_id.clone(),
            thread_id: self.thread_id.clone(),
            workspace: self.workspace.clone(),
            source: self.source.clone(),
            timestamp: crate::provider::clone_opt_string(&self.timestamp),
            rollout_path: self.rollout_path.clone(),
            archived: self.archived,
            modified_at: self.modified_at,
        }
    }
}

pub ghost struct MetaView {
    pub session_id: Seq<char>,
    pub thread_id: Seq<char>,
    pub workspace: Seq<char>,
    pub source: SourceView,
    pub timestamp: Option<Seq<char>>,
    pub rollout_path: Seq<char>,
    pub archived: bool,
    pub modified_at: Option<i128>,
}

impl RolloutSessionMeta {
    pub open spec fn view(self) -> MetaView {
        MetaView {
            session_id: self.session_id@,
            thread_id: self.thread_id@,
            workspace: self.workspace@,
            source: self.source.view(),
            timestamp: crate::codex_provider::opt_view(self.timestamp),
            rollout_path: self.rollout_path@,
            archived: self.archived,
            modified_at: self.modified_at,
        }
    }
}

#[derive(Debug, PartialEq, Eq)]
pub enum RolloutError {
    CodexHomeUnavailable { path: String, message: String },
    Scan { path: String, message: String },
    Read { path: String, message: String },
    ScanLimitExceeded { path: String, limit: u64 },
}

impl RolloutError {
    /// The error's message, as its `Display` gives it.
    pub open spec fn message_spec(self) -> Seq<char> {
        match self {
            RolloutError::CodexHomeUnavailable { path, message } => "Codex home is unavailable at "@ + path@ + ": "@
                + message@,
            RolloutError::Scan { path, message } => "failed to scan rollouts under "@ + path@ + ": "@ + message@,
            RolloutError::Read { path, message } => "failed to read rollout "@ + path@ + ": "@ + message@,
            RolloutError::ScanLimitExceeded { path, limit } => "rollout "@ + path@ + " exceeded the "@ + crate::numfmt::dec(
                limit as nat,
            ) + " byte scan limit"@,
        }
    }

    /// The error's message.
    pub fn message(&self) -> (res: String)
        ensures
            res@ == self.message_spec(),
    {
        match self {
            RolloutError::CodexHomeUnavailable { path, message } => {
                let a = crate::text::concat("Codex home is unavailable at ", path.as_str());
                let b = crate::text::concat(a.as_str(), ": ");
                crate::text::concat(b.as_str(), message.as_str())
            },
            RolloutError::Scan { path, message } => {
                let a = crate::text::concat("failed to scan rollouts under ", path.as_str());
                let b = crate::text::concat(a.as_str(), ": ");
                crate::text::concat(b.as_str(), message.as_str())
            },
            RolloutError::Read { path, message } => {
                let a = crate::text::concat("failed to read rollout ", path.as_str());
                let b = crate::text::concat(a.as_str(), ": ");
                crate::text::concat(b.as_str(), message.as_str())
            },
            RolloutError::ScanLimitExceeded { path, limit } => {
                let a = crate::text::concat("rollout ", path.as_str());
                let b = crate::text::concat(a.as_str(), " exceeded the ");
                let c = crate::text::concat(b.as_str(), crate::numfmt::decimal(*limit as u128).as_str());
                crate::text::concat(c.as_str(), " byte scan limit")
            },
        }
    }
}

pub open spec fn rollout_name(name: Seq<char>) -> bool {
    starts_with(name, "rollout-"@) && (ends_with(name, ".jsonl"@) || ends_with(name, ".jsonl.zst"@))
}

/// The rollout names are exactly `rollout-` followed by anything and then
/// `.jsonl` or `.jsonl.zst`.
pub proof fn lemma_rollout_names(name: Seq<char>)
    ensures
        rollout_name(name) <==> exists|m: Seq<char>|
            #![trigger "rollout-"@ + m]
            name == "rollout-"@ + m + ".jsonl"@ || name == "rollout-"@ + m + ".jsonl.zst"@,
{
    reveal_strlit("rollout-");
    reveal_strlit(".jsonl");
    reveal_strlit(".jsonl.zst");
    if rollout_name(name) {
        assert(name.subrange(0, 8) =~= "rollout-"@);
        if ends_with(name, ".jsonl"@) {
            assert(name.subrange(name.len() - 6, name.len() as int)[0] == '.');
            if name.len() < 14 {
                assert(name.subrange(0, 8)[name.len() - 6] == name[name.len() - 6]);
            }
            let m = name.subrange(8, name.len() - 6);
            assert(name =~= "rollout-"@ + m + ".jsonl"@);
        } else {
            assert(name.subrange(name.len() - 10, name.len() as int)[0] == '.');
            if name.len() < 18 {
                assert(name.subrange(0, 8)[name.len() - 10] == name[name.len() - 10]);
            }
            let m = name.subrange(8, name.len() - 10);
            assert(name =~= "rollout-"@ + m + ".jsonl.zst"@);
        }
    }
    if exists|m: Seq<char>| #![trigger "rollout-"@ + m] name == "rollout-"@ + m + ".jsonl"@ || name == "rollout-"@ + m + ".jsonl.zst"@ {
        let m = choose|m: Seq<char>| #![trigger "rollout-"@ + m] name == "rollout-"@ + m + ".jsonl"@ || name == "rollout-"@ + m + ".jsonl.zst"@;
        assert(name.subrange(0, 8) =~= "rollout-"@);
        if name == "rollout-"@ + m + ".jsonl"@ {
            assert(name.subrange(name.len() - 6, name.len() as int) =~= ".jsonl"@);
        } else {
            assert(name.subrange(name.len() - 10, name.len() as int) =~= ".jsonl.zst"@);
        }
    }
}

/// Whether a file name is a rollout: `rollout-*.jsonl` or
/// `rollout-*.jsonl.zst`.
pub fn is_rollout_name(file_name: &str) -> (res: bool)
    ensures
        res == rollout_name(file_name@),
{
    str_starts_with(file_name, "rollout-") && (str_ends_with(file_name, ".jsonl") || str_ends_with(
        file_name,
        ".jsonl.zst",
    ))
}

/// Whether a rollout name is a compressed one.
pub fn is_compressed_rollout_name(file_name: &str) -> (res: bool)
    ensures
        res == ends_with(file_name@, ".jsonl.zst"@),
{
    str_ends_with(file_name, ".jsonl.zst")
}

/// Whether a rollout path lies under the archived sessions directory.
pub fn is_archived_path(codex_home: &str, path: &str) -> (res: bool)
    ensures
        res == path_starts_with(path@, join(codex_home@, "archived_sessions"@)),
{
    let base = path_join(codex_home, "archived_sessions");
    path_starts_with_exec(path, base.as_str())
}

/// The directories searched for rollouts under the Codex home: active
/// sessions, then (when asked) archived ones.
pub fn rollout_directories(codex_home: &str, include_archived: bool) -> (res: Vec<String>)
    ensures
        res@.len() == if include_archived { 2int } else { 1int },
        res@[0]@ == join(codex_home@, "sessions"@),
        include_archived ==> res@[1]@ == join(codex_home@, "archived_sessions"@),
{
    let mut out: Vec<String> = Vec::new();
    out.push(path_join(codex_home, "sessions"));
    if include_archived {
        out.push(path_join(codex_home, "archived_sessions"));
    }
    out
}

pub open spec fn opt_str_view(o: Option<JsonValue>) -> Option<Seq<char>> {
    match o {
        Some(v) => v.str_of(),
        None => None,
    }
}

/// The source named by a `source` value and an `originator` string.
pub open spec fn source_spec(value: Option<JsonValue>, originator: Option<Seq<char>>) -> SourceView {
    match value {
        None => match originator {
            Some(o0) => {
                let o = ascii_lower(trimmed(o0));
                if o == "codex desktop"@ {
                    SourceView::Vscode
                } else if o == "codex_exec"@ || o == "codex exec"@ || o == "codex-exec"@ {
                    SourceView::Exec
                } else if starts_with(o, "mcp"@) || starts_with(o, "internal"@) || starts_with(o, "subagent"@) {
                    SourceView::Other(o)
                } else {
                    SourceView::Legacy
                }
            },
            None => SourceView::Legacy,
        },
        Some(v) => match v.str_of() {
            Some(s) => {
                let l = ascii_lower(trimmed(s));
                if l == "cli"@ {
                    SourceView::Cli
                } else if l == "vscode"@ {
                    SourceView::Vscode
                } else if l == "exec"@ {
                    SourceView::Exec
                } else {
                    SourceView::Other(l)
                }
            },
            None => SourceView::Other(
                match v {
                    JsonValue::Object(entries) => if entries@.len() > 0 {
                        entries@[0].0@
                    } else {
                        "non-string"@
                    },
                    _ => "non-string"@,
                },
            ),
        },
    }
}

/// Reads the session source from a `session_meta` payload's `source` value
/// and, for older rollouts without one, its `originator`.
pub fn parse_rollout_source(value: Option<&JsonValue>, originator: Option<&str>) -> (res: RolloutSource)
    ensures
        res.view() == source_spec(
            match value {
                Some(v) => Some(*v),
                None => None,
            },
            match originator {
                Some(o) => Some(o@),
                None => None,
            },
        ),
{
    match value {
        None => {
            if let Some(originator) = originator {
                let t = trim(originator);
                let o = to_ascii_lowercase(t.as_str());
                if str_eq(o.as_str(), "codex desktop") {
                    return RolloutSource::Vscode;
                }
                if str_eq(o.as_str(), "codex_exec") || str_eq(o.as_str(), "codex exec") || str_eq(
                    o.as_str(),
                    "codex-exec",
                ) {
                    return RolloutSource::Exec;
                }
                if str_starts_with(o.as_str(), "mcp") || str_starts_with(o.as_str(), "internal")
                    || str_starts_with(o.as_str(), "subagent") {
                    return RolloutSource::Other(o);
                }
            }
            RolloutSource::Legacy
        },
        Some(v) => match v.as_str() {
            Some(s) => {
                let t = trim(s.as_str());
                let l = to_ascii_lowercase(t.as_str());
                if str_eq(l.as_str(), "cli") {
                    RolloutSource::Cli
                } else if str_eq(l.as_str(), "vscode") {
                    RolloutSource::Vscode
                } else if str_eq(l.as_str(), "exec") {
                    RolloutSource::Exec
                } else {
                    RolloutSource::Other(l)
                }
            },
            None => {
                let kind = match v {
                    JsonValue::Object(entries) => if entries.len() > 0 {
                        entries[0].0.clone()
                    } else {
                        crate::text::owned("non-string")
                    },
                    _ => crate::text::owned("non-string"),
                };
                RolloutSource::Other(kind)
            },
        },
    }
}

/// A trimmed non-empty string value.
pub open spec fn non_empty_value(v: JsonValue) -> Option<Seq<char>> {
    match v.str_of() {
        Some(s) => crate::codex_provider::non_empty_spec(s),
        None => None,
    }
}

pub fn non_empty_string(value: &JsonValue) -> (res: Option<String>)
    ensures
        crate::codex_provider::opt_view(res) == non_empty_value(*value),
{
    match value.as_str() {
        Some(s) => crate::codex_provider::non_empty(s.as_str()),
        None => None,
    }
}

pub open spec fn req_non_empty(o: Option<JsonValue>) -> Option<Seq<char>> {
    match o {
        Some(v) => non_empty_value(v),
        None => None,
    }
}

/// The `session_meta` record that a decoded line holds, if any.
pub open spec fn meta_of_value(
    value: JsonValue,
    path: Seq<char>,
    archived: bool,
    modified_at: Option<i128>,
) -> Option<MetaView> {
    if !value.is_object() || opt_str_view(value.field("type"@)) != Some("session_meta"@) {
        None
    } else {
        let payload = match value.field("payload"@) {
            Some(p) => if p.is_object() { p } else { value },
            None => value,
        };
        match (
            req_non_empty(payload.field("session_id"@)),
            req_non_empty(payload.field("id"@)),
            req_non_empty(payload.field("cwd"@)),
        ) {
            (Some(session_id), Some(thread_id), Some(workspace)) => if !is_absolute(workspace) {
                None
            } else {
                let timestamp = match opt_str_view(payload.field("timestamp"@)) {
                    Some(t) => Some(t),
                    None => opt_str_view(value.field("timestamp"@)),
                };
                Some(
                    MetaView {
                        session_id,
                        thread_id,
                        workspace,
                        source: source_spec(payload.field("source"@), opt_str_view(payload.field("originator"@))),
                        timestamp,
                        rollout_path: path,
                        archived,
                        modified_at,
                    },
                )
            },
            _ => None,
        }
    }
}

/// The payload of a record holds no string `timestamp`: it has no object
/// payload (the record is its own payload, and has none), or its object
/// payload has none.
pub open spec fn payload_lacks_timestamp(value: JsonValue) -> bool {
    match value.field("payload"@) {
        Some(p) => if p.is_object() {
            match p.field("timestamp"@) {
                Some(x) => x.str_of() is None,
                None => true,
            }
        } else {
            true
        },
        None => true,
    }
}

/// A `session_meta` record whose object payload holds a string
/// `timestamp` has that timestamp.
pub proof fn lemma_payload_timestamp(
    value: JsonValue,
    path: Seq<char>,
    archived: bool,
    modified_at: Option<i128>,
    m: MetaView,
    p: JsonValue,
    x: JsonValue,
    t: Seq<char>,
)
    requires
        meta_of_value(value, path, archived, modified_at) == Some(m),
        value.field("payload"@) == Some(p),
        p.is_object(),
        p.field("timestamp"@) == Some(x),
        x.str_of() == Some(t),
    ensures
        m.timestamp == Some(t),
{
}

/// A `session_meta` record whose payload holds no string `timestamp` has
/// the record's own string `timestamp`, and none where the record has
/// none either.
pub proof fn lemma_record_timestamp_fallback(
    value: JsonValue,
    path: Seq<char>,
    archived: bool,
    modified_at: Option<i128>,
    m: MetaView,
)
    requires
        meta_of_value(value, path, archived, modified_at) == Some(m),
        payload_lacks_timestamp(value),
    ensures
        m.timestamp == match value.field("timestamp"@) {
            Some(x) => x.str_of(),
            None => None,
        },
{
}

/// The session ID, thread ID and workspace of a `session_meta` record are
/// the trimmed `session_id`, `id` and `cwd` strings of its object payload.
pub proof fn lemma_meta_fields(
    value: JsonValue,
    path: Seq<char>,
    archived: bool,
    modified_at: Option<i128>,
    m: MetaView,
    p: JsonValue,
)
    requires
        meta_of_value(value, path, archived, modified_at) == Some(m),
        value.field("payload"@) == Some(p),
        p.is_object(),
    ensures
        p.field("session_id"@) matches Some(x) && x.str_of() matches Some(s) && m.session_id == trimmed(s),
        p.field("id"@) matches Some(x) && x.str_of() matches Some(s) && m.thread_id == trimmed(s),
        p.field("cwd"@) matches Some(x) && x.str_of() matches Some(s) && m.workspace == trimmed(s),
{
}

/// A `session_meta` record keeps its identity: the trimmed non-blank
/// `session_id`, `id` and absolute `cwd` of its payload, the file it was
/// read from, and whether that file is archived.
pub proof fn lemma_meta_identity(value: JsonValue, path: Seq<char>, archived: bool, modified_at: Option<i128>, m: MetaView)
    requires
        meta_of_value(value, path, archived, modified_at) == Some(m),
    ensures
        value.is_object(),
        value.field("type"@) matches Some(k) && k.str_of() == Some("session_meta"@),
        is_absolute(m.workspace),
        m.rollout_path == path,
        m.archived == archived,
        m.modified_at == modified_at,
{
}

pub open spec fn meta_of_line(line: Seq<u8>, path: Seq<char>, archived: bool, modified_at: Option<i128>) -> Option<MetaView> {
    match json_document(line) {
        Some(v) => meta_of_value(v, path, archived, modified_at),
        None => None,
    }
}

pub open spec fn opt_meta_view(o: Option<RolloutSessionMeta>) -> Option<MetaView> {
    match o {
        Some(m) => Some(m.view()),
        None => None,
    }
}

fn str_field(v: &JsonValue, key: &str) -> (res: Option<String>)
    ensures
        crate::codex_provider::opt_view(res) == opt_str_view(v.field(key@)),
{
    match v.get(key) {
        Some(x) => match x.as_str() {
            Some(s) => Some(s.clone()),
            None => None,
        },
        None => None,
    }
}

fn req_field(v: &JsonValue, key: &str) -> (res: Option<String>)
    ensures
        crate::codex_provider::opt_view(res) == req_non_empty(v.field(key@)),
{
    match v.get(key) {
        Some(x) => non_empty_string(x),
        None => None,
    }
}

/// The `session_meta` record of a decoded line.
pub fn session_meta_from_value(
    value: &JsonValue,
    path: &str,
    archived: bool,
    modified_at: Option<i128>,
) -> (res: Option<RolloutSessionMeta>)
    ensures
        opt_meta_view(res) == meta_of_value(*value, path@, archived, modified_at),
{
    if !value.is_object_value() {
        return None;
    }
    let kind = str_field(value, "type");
    let is_meta = match &kind {
        Some(k) => str_eq(k.as_str(), "session_meta"),
        None => false,
    };
    if !is_meta {
        return None;
    }
    let payload = match value.get("payload") {
        Some(p) => if p.is_object_value() {
            p
        } else {
            value
        },
        None => value,
    };
    let session_id = match req_field(payload, "session_id") {
        Some(s) => s,
        None => return None,
    };
    let thread_id = match req_field(payload, "id") {
        Some(s) => s,
        None => return None,
    };
    let workspace = match req_field(payload, "cwd") {
        Some(s) => s,
        None => return None,
    };
    if !is_absolute_str(workspace.as_str()) {
        return None;
    }
    let timestamp = match str_field(payload, "timestamp") {
        Some(t) => Some(t),
        None => str_field(value, "timestamp"),
    };
    let originator = str_field(payload, "originator");
    let source = match &originator {
        Some(o) => parse_rollout_source(payload.get("source"), Some(o.as_str())),
        None => parse_rollout_source(payload.get("source"), None),
    };
    Some(
        RolloutSessionMeta {
            session_id,
            thread_id,
            workspace,
            source,
            timestamp,
            rollout_path: crate::text::owned(path),
            archived,
            modified_at,
        },
    )
}

/// The `session_meta` record of one line of a rollout (the line's bytes,
/// its newline included).
pub fn parse_session_meta_line(
    line: &[u8],
    path: &str,
    archived: bool,
    modified_at: Option<i128>,
) -> (res: Option<RolloutSessionMeta>)
    ensures
        opt_meta_view(res) == meta_of_line(line@, path@, archived, modified_at),
{
    match parse_json(line) {
        Some(v) => session_meta_from_value(&v, path, archived, modified_at),
        None => None,
    }
}

/// Position just past the next newline at or after `pos`, or the end.
pub open spec fn line_end(bytes: Seq<u8>, pos: int) -> int
    decreases bytes.len() - pos,
{
    if pos >= bytes.len() {
        bytes.len() as int
    } else if bytes[pos] == 10u8 {
        pos + 1
    } else {
        line_end(bytes, pos + 1)
    }
}

/// The outcome of scanning a rollout prefix for its `session_meta` line.
pub ghost enum ScanView {
    Found(MetaView),
    NoMeta,
    LimitExceeded,
    ReadFailed,
}

/// Reading line by line from `pos` with `scanned` bytes already counted:
/// a line that the stream broke off inside fails the read; a line that
/// takes the count past the limit stops the scan; the first line that
/// holds a `session_meta` record is the answer.
pub open spec fn scan_spec(
    bytes: Seq<u8>,
    pos: int,
    scanned: int,
    max: int,
    broken: bool,
    path: Seq<char>,
    archived: bool,
    modified_at: Option<i128>,
) -> ScanView
    decreases bytes.len() - pos,
{
    if pos < 0 || pos >= bytes.len() {
        if broken {
            ScanView::ReadFailed
        } else {
            ScanView::NoMeta
        }
    } else {
        let end = line_end(bytes, pos);
        if broken && bytes[end - 1] != 10u8 {
            ScanView::ReadFailed
        } else if scanned + (end - pos) > max {
            ScanView::LimitExceeded
        } else {
            match meta_of_line(bytes.subrange(pos, end), path, archived, modified_at) {
                Some(m) => ScanView::Found(m),
                None => {
                    proof {
                        lemma_line_end_bounds(bytes, pos);
                    }
                    scan_spec(bytes, end, scanned + (end - pos), max, broken, path, archived, modified_at)
                },
            }
        }
    }
}

pub open spec fn scan_result_view(r: Result<Option<RolloutSessionMeta>, RolloutError>) -> ScanView {
    match r {
        Ok(Some(m)) => ScanView::Found(m.view()),
        Ok(None) => ScanView::NoMeta,
        Err(RolloutError::ScanLimitExceeded { .. }) => ScanView::LimitExceeded,
        Err(_) => ScanView::ReadFailed,
    }
}

pub proof fn lemma_line_end_bounds(bytes: Seq<u8>, pos: int)
    requires
        0 <= pos < bytes.len(),
    ensures
        pos < line_end(bytes, pos) <= bytes.len(),
        forall|k: int| pos <= k < line_end(bytes, pos) - 1 ==> bytes[k] != 10u8,
        line_end(bytes, pos) < bytes.len() ==> bytes[line_end(bytes, pos) - 1] == 10u8,
    decreases bytes.len() - pos,
{
    if bytes[pos] != 10u8 {
        if pos + 1 < bytes.len() {
            lemma_line_end_bounds(bytes, pos + 1);
        } else {
            assert(line_end(bytes, pos + 1) == bytes.len());
        }
    }
}

/// Scans the prefix of a rollout for its `session_meta` record.
///
/// `prefix` holds the first bytes of the (decompressed) rollout, at most
/// one more than `max_rollout_bytes`; `read_error` is the message of a read
/// error that broke the stream off after them, if one did.  Lines are read
/// one at a time; when the bytes read exceed `max_rollout_bytes` the scan
/// stops with `ScanLimitExceeded`.
pub fn scan_session_meta(
    prefix: &[u8],
    path: &str,
    archived: bool,
    max_rollout_bytes: u64,
    modified_at: Option<i128>,
    read_error: Option<String>,
) -> (res: Result<Option<RolloutSessionMeta>, RolloutError>)
    ensures
        scan_result_view(res) == scan_spec(
            prefix@,
            0,
            0,
            max_rollout_bytes as int,
            read_error is Some,
            path@,
            archived,
            modified_at,
        ),
        res matches Err(RolloutError::ScanLimitExceeded { path: p, limit }) ==> p@ == path@ && limit == max_rollout_bytes,
        res matches Err(RolloutError::Read { path: p, .. }) ==> p@ == path@,
        res matches Err(e) ==> (e is ScanLimitExceeded || e is Read),
{
    let broken = read_error.is_some();
    let n = prefix.len();
    let mut pos: usize = 0;
    let mut scanned: u64 = 0;
    while pos < n
        invariant
            pos <= n == prefix@.len(),
            scanned <= max_rollout_bytes,
            broken == read_error is Some,
            scan_spec(prefix@, 0, 0, max_rollout_bytes as int, broken, path@, archived, modified_at)
                == scan_spec(prefix@, pos as int, scanned as int, max_rollout_bytes as int, broken, path@, archived, modified_at),
        decreases n - pos,
    {
        let mut end: usize = pos;
        while end < n && prefix[end] != 10u8
            invariant
                pos <= end <= n,
                line_end(prefix@, pos as int) == line_end(prefix@, end as int),
            decreases n - end,
        {
            end = end + 1;
        }
        if end < n {
            end = end + 1;
        }
        proof {
            lemma_line_end_bounds(prefix@, pos as int);
        }
        assert(end == line_end(prefix@, pos as int));
        if broken && prefix[end - 1] != 10u8 {
            let message = match &read_error {
                Some(m) => m.clone(),
                None => String::new(),
            };
            return Err(RolloutError::Read { path: crate::text::owned(path), message });
        }
        let len = (end - pos) as u64;
        if len > max_rollout_bytes - scanned {
            return Err(RolloutError::ScanLimitExceeded { path: crate::text::owned(path), limit: max_rollout_bytes });
        }
        let line = crate::text::byte_slice(prefix, pos, end);
        if let Some(meta) = parse_session_meta_line(line, path, archived, modified_at) {
            return Ok(Some(meta));
        }
        scanned = scanned + len;
        pos = end;
    }
    if broken {
        let message = match &read_error {
            Some(m) => m.clone(),
            None => String::new(),
        };
        return Err(RolloutError::Read { path: crate::text::owned(path), message });
    }
    Ok(None)
}


/// What was read of one rollout file: its path, the first bytes of its
/// (decompressed) content, at most one more than the scan limit, its
/// modification time in nanoseconds since the Unix epoch where the file
/// system gave one, and the message of the error that stopped the read, if
/// one did (`open_error` when the file could not be opened at all).
#[derive(Debug)]
pub struct RolloutFile {
    pub path: String,
    pub prefix: Vec<u8>,
    pub modified_at: Option<i128>,
    pub open_error: Option<String>,
    pub read_error: Option<String>,
}

/// What reading a rollout file gives, as a scan view.
pub open spec fn file_scan(f: RolloutFile, archived: bool, max: int) -> ScanView {
    if f.open_error is Some {
        ScanView::ReadFailed
    } else {
        scan_spec(f.prefix@, 0, 0, max, f.read_error is Some, f.path@, archived, f.modified_at)
    }
}

/// Reads the `session_meta` record of a rollout file.
pub fn read_session_meta(file: &RolloutFile, archived: bool, max_rollout_bytes: u64) -> (res: Result<
    Option<RolloutSessionMeta>,
    RolloutError,
>)
    ensures
        scan_result_view(res) == file_scan(*file, archived, max_rollout_bytes as int),
        res matches Err(RolloutError::ScanLimitExceeded { path: p, limit }) ==> p@ == file.path@ && limit
            == max_rollout_bytes,
        res matches Err(RolloutError::Read { path: p, .. }) ==> p@ == file.path@,
        res matches Err(e) ==> (e is ScanLimitExceeded || e is Read),
{
    match &file.open_error {
        Some(message) => Err(RolloutError::Read { path: crate::text::owned(file.path.as_str()), message: message.clone() }),
        None => {
            let read_error = match &file.read_error {
                Some(m) => Some(m.clone()),
                None => None,
            };
            scan_session_meta(
                file.prefix.as_slice(),
                file.path.as_str(),
                archived,
                max_rollout_bytes,
                file.modified_at,
                read_error,
            )
        },
    }
}


/// One entry of a directory walk.
#[derive(Debug, Clone)]
pub struct WalkEntry {
    pub path: String,
    pub file_name: String,
    pub is_file: bool,
}

/// What a walk of one sessions directory found: whether the directory
/// exists, and its entries in walk order, up to and including the first
/// error the walk reported.
#[derive(Debug)]
pub struct WalkListing {
    pub exists: bool,
    pub entries: Vec<Result<WalkEntry, String>>,
}

/// The rollout files among walk entries, in walk order, or the first error.
pub open spec fn walk_found(entries: Seq<Result<WalkEntry, String>>) -> Result<Seq<Seq<char>>, Seq<char>>
    decreases entries.len(),
{
    if entries.len() == 0 {
        Ok(Seq::empty())
    } else {
        match walk_found(entries.drop_last()) {
            Err(e) => Err(e),
            Ok(found) => match entries.last() {
                Err(e) => Err(e@),
                Ok(en) => if en.is_file && rollout_name(en.file_name@) {
                    Ok(found.push(en.path@))
                } else {
                    Ok(found)
                },
            },
        }
    }
}

/// The rollout files of a directory: none where it does not exist.
pub open spec fn found_in(l: WalkListing) -> Result<Seq<Seq<char>>, Seq<char>> {
    if l.exists {
        walk_found(l.entries@)
    } else {
        Ok(Seq::empty())
    }
}

/// The outcome of a discovery, before sorting.
pub enum DiscoverView {
    HomeUnavailable,
    ScanFailed(Seq<char>, Seq<char>),
    Found(Seq<Seq<char>>),
}

/// What discovery under `home` gives: the home must be a directory; the
/// sessions directory is walked, then the archived one where it is given.
pub open spec fn discover_view(home: Seq<char>, home_is_dir: bool, sessions: WalkListing, archived: Option<WalkListing>) -> DiscoverView {
    if !home_is_dir {
        DiscoverView::HomeUnavailable
    } else {
        match found_in(sessions) {
            Err(e) => DiscoverView::ScanFailed(join(home, "sessions"@), e),
            Ok(s) => match archived {
                None => DiscoverView::Found(s),
                Some(al) => match found_in(al) {
                    Err(e) => DiscoverView::ScanFailed(join(home, "archived_sessions"@), e),
                    Ok(t) => DiscoverView::Found(s + t),
                },
            },
        }
    }
}

/// `res` is the outcome `v` of a discovery under `home`, the paths found
/// sorted by path.
/// `list` is `paths` sorted by path, equal paths in their given order.
pub open spec fn sorts_paths(list: Seq<String>, paths: Seq<Seq<char>>) -> bool {
    exists|perm: Seq<int>| path_sorted_from(views(list), paths, perm)
}

pub open spec fn discovered(res: Result<Vec<String>, RolloutError>, home: Seq<char>, v: DiscoverView) -> bool {
    match (v, res) {
        (DiscoverView::HomeUnavailable, Err(RolloutError::CodexHomeUnavailable { path, message })) => path@ == home
            && message@ == "directory does not exist"@,
        (DiscoverView::ScanFailed(root, e), Err(RolloutError::Scan { path, message })) => path@ == root && message@ == e,
        (DiscoverView::Found(paths), Ok(list)) => sorts_paths(list@, paths),
        _ => false,
    }
}

/// Appends the rollout files of one walk to `out`, or gives the walk's
/// first error.
fn collect_rollouts(listing: &WalkListing, out: &mut Vec<String>) -> (res: Result<(), String>)
    ensures
        match found_in(*listing) {
            Ok(found) => res is Ok && views(final(out)@) == views(old(out)@) + found,
            Err(e) => res matches Err(m) && m@ == e,
        },
{
    if !listing.exists {
        assert(views(out@) =~= views(out@) + Seq::<Seq<char>>::empty());
        return Ok(());
    }
    let ghost base = views(out@);
    let n = listing.entries.len();
    let mut i: usize = 0;
    while i < n
        invariant
            i <= n == listing.entries@.len(),
            listing.exists,
            walk_found(listing.entries@.take(i as int)) matches Ok(found) && views(out@) == base + found,
            base == views(old(out)@),
        decreases n - i,
    {
        proof {
            assert(listing.entries@.take(i + 1).drop_last() =~= listing.entries@.take(i as int));
            assert(listing.entries@.take(i + 1).last() == listing.entries@[i as int]);
        }
        match &listing.entries[i] {
            Err(e) => {
                proof {
                    lemma_walk_error_stays(listing.entries@, i as int + 1);
                }
                return Err(e.clone());
            },
            Ok(en) => {
                if en.is_file && is_rollout_name(en.file_name.as_str()) {
                    let ghost before = views(out@);
                    out.push(en.path.clone());
                    assert(views(out@) =~= before.push(en.path@));
                }
            },
        }
        i = i + 1;
    }
    assert(listing.entries@.take(n as int) =~= listing.entries@);
    Ok(())
}

/// Once a walk has failed, later entries keep its error.
proof fn lemma_walk_error_stays(entries: Seq<Result<WalkEntry, String>>, p: int)
    requires
        0 <= p <= entries.len(),
        walk_found(entries.take(p)) is Err,
    ensures
        walk_found(entries) == walk_found(entries.take(p)),
    decreases entries.len() - p,
{
    if p < entries.len() {
        assert(entries.take(p + 1).drop_last() =~= entries.take(p));
        lemma_walk_error_stays(entries, p + 1);
    } else {
        assert(entries.take(p) =~= entries);
    }
}

fn discover_in(codex_home: &str, home_is_dir: bool, sessions: &WalkListing, archived: Option<&WalkListing>) -> (res: Result<Vec<String>, RolloutError>)
    ensures
        discovered(
            res,
            codex_home@,
            discover_view(
                codex_home@,
                home_is_dir,
                *sessions,
                match archived {
                    Some(l) => Some(*l),
                    None => None,
                },
            ),
        ),
{
    if !home_is_dir {
        return Err(RolloutError::CodexHomeUnavailable {
            path: crate::text::owned(codex_home),
            message: crate::text::owned("directory does not exist"),
        });
    }
    let mut paths: Vec<String> = Vec::new();
    assert(views(paths@) =~= Seq::<Seq<char>>::empty());
    match collect_rollouts(sessions, &mut paths) {
        Err(message) => {
            return Err(RolloutError::Scan { path: path_join(codex_home, "sessions"), message });
        },
        Ok(()) => {},
    }
    assert(found_in(*sessions) matches Ok(f) && views(paths@) =~= f);
    if let Some(al) = archived {
        match collect_rollouts(al, &mut paths) {
            Err(message) => {
                return Err(RolloutError::Scan { path: path_join(codex_home, "archived_sessions"), message });
            },
            Ok(()) => {},
        }
    }
    let sorted = sort_paths(&paths);
    let ghost sv = sorted@;
    let res = Ok(sorted);
    assert(sorts_paths(sv, views(paths@)));
    res
}

/// The rollout files under the Codex home's sessions and archived sessions
/// directories, sorted by path; `sessions` and `archived` are what walking
/// `<home>/sessions` and `<home>/archived_sessions` found.
pub fn discover_rollouts(codex_home: &str, home_is_dir: bool, sessions: &WalkListing, archived: &WalkListing) -> (res: Result<
    Vec<String>,
    RolloutError,
>)
    ensures
        discovered(res, codex_home@, discover_view(codex_home@, home_is_dir, *sessions, Some(*archived))),
{
    discover_in(codex_home, home_is_dir, sessions, Some(archived))
}

/// The rollout files under the Codex home's sessions directory only,
/// sorted by path: archived sessions are never looked at.
pub fn discover_active_rollouts(codex_home: &str, home_is_dir: bool, sessions: &WalkListing) -> (res: Result<
    Vec<String>,
    RolloutError,
>)
    ensures
        discovered(res, codex_home@, discover_view(codex_home@, home_is_dir, *sessions, None)),
{
    discover_in(codex_home, home_is_dir, sessions, None)
}

} // verus!
