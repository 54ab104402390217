//! Activation lifecycle of the route service: where its files live, how the
//! Codex config it manages is recognised, and what `status` reports.
use vstd::prelude::*;

use crate::codex_provider::opt_view;
use crate::config::ScanConfig;
use crate::numfmt::{dec, decimal, hex, hex16};
use crate::paths::{join, path_eq, path_eq_exec, path_join};
use crate::text::{any_trimmed_line, concat, has_trimmed_line, owned, str_eq, trim, trimmed, utf8_bytes};
use crate::toml_doc::{entry_of, parse_toml, parse_toml_opt, toml_doc_opt, toml_document, toml_serialized, toml_text, TomlValue};

verus! {

/// The first line of every config that the lifecycle writes.
pub const CONFIG_MARKER: &'static str = "# codex-route-managed: v1";

/// The ID of the provider that the lifecycle adds to the Codex config.
pub const ROUTE_PROVIDER_ID: &'static str = "codex-route";

/// The bearer token that the managed provider entry carries.
pub const ROUTE_BEARER_TOKEN: &'static str = "codex-route-managed";

/// Seconds that activation waits for the service to become healthy.
pub const STARTUP_TIMEOUT_SECS: u64 = 5;

#[derive(Debug)]
pub struct LifecyclePaths {
    pub data_dir: String,
    pub codex_home: String,
}

impl Clone for LifecyclePaths {
    fn clone(&self) -> (res: Self)
        ensures
            res == *self,
    {
        LifecyclePaths { data_dir: self.data_dir.clone(), codex_home: self.codex_home.clone() }
    }
}

impl LifecyclePaths {
    pub fn new(data_dir: String, codex_home: String) -> (res: Self)
        ensures
            res.data_dir == data_dir,
            res.codex_home == codex_home,
    {
        LifecyclePaths { data_dir, codex_home }
    }

    /// `<codex_home>/config.toml`
    pub fn config_path(&self) -> (res: String)
        ensures
            res@ == join(self.codex_home@, "config.toml"@),
    {
        path_join(self.codex_home.as_str(), "config.toml")
    }

    /// `<data_dir>/route-state.json`
    pub fn state_path(&self) -> (res: String)
        ensures
            res@ == join(self.data_dir@, "route-state.json"@),
    {
        path_join(self.data_dir.as_str(), "route-state.json")
    }

    /// `<data_dir>/route.lock`
    pub fn lock_path(&self) -> (res: String)
        ensures
            res@ == join(self.data_dir@, "route.lock"@),
    {
        path_join(self.data_dir.as_str(), "route.lock")
    }

    /// `<data_dir>/route.operation.lock`
    pub fn operation_lock_path(&self) -> (res: String)
        ensures
            res@ == join(self.data_dir@, "route.operation.lock"@),
    {
        path_join(self.data_dir.as_str(), "route.operation.lock")
    }

    /// `<data_dir>/codex-config.toml.bak`
    pub fn backup_path(&self) -> (res: String)
        ensures
            res@ == join(self.data_dir@, "codex-config.toml.bak"@),
    {
        path_join(self.data_dir.as_str(), "codex-config.toml.bak")
    }

    /// `<data_dir>/route.log`
    pub fn log_path(&self) -> (res: String)
        ensures
            res@ == join(self.data_dir@, "route.log"@),
    {
        path_join(self.data_dir.as_str(), "route.log")
    }

    /// `<data_dir>/codex-route.db`
    pub fn database_path(&self) -> (res: String)
        ensures
            res@ == join(self.data_dir@, "codex-route.db"@),
    {
        path_join(self.data_dir.as_str(), "codex-route.db")
    }
}

#[derive(Debug)]
pub struct ActivateOptions {
    pub paths: LifecyclePaths,
    pub provider_id: Option<String>,
    pub port: u16,
    pub scan_config: ScanConfig,
}

#[derive(Debug)]
pub struct DeactivateOptions {
    pub paths: LifecyclePaths,
}

#[derive(Debug)]
pub struct StatusOptions {
    pub paths: LifecyclePaths,
}

#[derive(Debug)]
pub struct ActivationResult {
    pub status: String,
    pub pid: u32,
    pub port: u16,
    pub route_url: String,
    pub config_path: String,
    pub state_path: String,
    pub lock_path: String,
}

#[derive(Debug)]
pub struct DeactivationResult {
    pub status: String,
    pub pid: Option<u32>,
    pub config_restored: bool,
    pub config_path: String,
}

#[derive(Debug)]
pub struct LifecycleStatus {
    pub status: String,
    pub active: bool,
    pub pid: Option<u32>,
    pub port: Option<u16>,
    pub server_reachable: bool,
    pub config_managed: bool,
    pub external_modification: bool,
    pub config_path: String,
    pub state_path: String,
    pub lock_path: String,
}

/// A held lifecycle lock file.
#[derive(Debug)]
pub struct DaemonLock {
    pub path: String,
}

#[derive(Debug, PartialEq, Eq)]
pub enum LifecycleError {
    AlreadyActive(u32),
    NotActive,
    PortInUse(u16),
    InvalidPort,
    StartupTimeout(u64),
    StartupExited,
    ExternalModification,
    UnownedRouteProvider,
    InvalidState(String),
    MissingBackup(String),
    InvalidConfigToml(String),
    InvalidModelProviders,
    Launch(String),
    Stop(String),
    Io(String),
    Json(String),
    RouteStartup(String),
}

impl LifecycleError {
    /// The error's message, as its `Display` gives it.
    pub open spec fn message_spec(self) -> Seq<char> {
        match self {
            LifecycleError::AlreadyActive(pid) => "route is already active (pid "@ + dec(pid as nat) + ")"@,
            LifecycleError::NotActive => "route service is not active"@,
            LifecycleError::PortInUse(port) => "route port "@ + dec(port as nat) + " is already in use"@,
            LifecycleError::InvalidPort => "route port must be between 1 and 65535"@,
            LifecycleError::StartupTimeout(secs) => "route service did not become healthy within "@ + dec(secs as nat)
                + " seconds"@,
            LifecycleError::StartupExited => "route service exited before becoming healthy"@,
            LifecycleError::ExternalModification => "Codex config.toml is externally modified; refusing to overwrite it"@,
            LifecycleError::UnownedRouteProvider => "Codex config.toml contains an unowned 'codex-route' provider"@,
            LifecycleError::InvalidState(m) => "managed route state is invalid: "@ + m@,
            LifecycleError::MissingBackup(p) => "managed config backup is missing: "@ + p@,
            LifecycleError::InvalidConfigToml(m) => "cannot parse Codex config.toml: "@ + m@,
            LifecycleError::InvalidModelProviders => "Codex config.toml has an invalid model_providers table"@,
            LifecycleError::Launch(m) => "failed to launch route service: "@ + m@,
            LifecycleError::Stop(m) => "route service failed to stop: "@ + m@,
            LifecycleError::Io(m) => "filesystem operation failed: "@ + m@,
            LifecycleError::Json(m) => "failed to serialize lifecycle state: "@ + m@,
            LifecycleError::RouteStartup(m) => "route startup validation failed: "@ + m@,
        }
    }

    /// The error's message.
    pub fn message(&self) -> (res: String)
        ensures
            res@ == self.message_spec(),
    {
        match self {
            LifecycleError::AlreadyActive(pid) => {
                let s = concat("route is already active (pid ", decimal(*pid as u128).as_str());
                concat(s.as_str(), ")")
            },
            LifecycleError::NotActive => owned("route service is not active"),
            LifecycleError::PortInUse(port) => {
                let s = concat("route port ", decimal(*port as u128).as_str());
                concat(s.as_str(), " is already in use")
            },
            LifecycleError::InvalidPort => owned("route port must be between 1 and 65535"),
            LifecycleError::StartupTimeout(secs) => {
                let s = concat("route service did not become healthy within ", decimal(*secs as u128).as_str());
                concat(s.as_str(), " seconds")
            },
            LifecycleError::StartupExited => owned("route service exited before becoming healthy"),
            LifecycleError::ExternalModification => owned(
                "Codex config.toml is externally modified; refusing to overwrite it",
            ),
            LifecycleError::UnownedRouteProvider => owned(
                "Codex config.toml contains an unowned 'codex-route' provider",
            ),
            LifecycleError::InvalidState(m) => concat("managed route state is invalid: ", m.as_str()),
            LifecycleError::MissingBackup(p) => concat("managed config backup is missing: ", p.as_str()),
            LifecycleError::InvalidConfigToml(m) => concat("cannot parse Codex config.toml: ", m.as_str()),
            LifecycleError::InvalidModelProviders => owned(
                "Codex config.toml has an invalid model_providers table",
            ),
            LifecycleError::Launch(m) => concat("failed to launch route service: ", m.as_str()),
            LifecycleError::Stop(m) => concat("route service failed to stop: ", m.as_str()),
            LifecycleError::Io(m) => concat("filesystem operation failed: ", m.as_str()),
            LifecycleError::Json(m) => concat("failed to serialize lifecycle state: ", m.as_str()),
            LifecycleError::RouteStartup(m) => concat("route startup validation failed: ", m.as_str()),
        }
    }
}

/// The lifecycle's record of an activation (`route-state.json`).
#[derive(Debug, PartialEq, Eq)]
pub struct LifecycleState {
    pub version: u8,
    pub config_path: String,
    pub backup_path: String,
    pub original_exists: bool,
    pub original_hash: Option<String>,
    pub managed_hash: String,
    pub port: u16,
    pub provider_id: Option<String>,
    pub pid: Option<u32>,
}

/// 64-bit FNV-1a over bytes.
pub open spec fn fnv1a(bytes: Seq<u8>) -> u64
    decreases bytes.len(),
{
    if bytes.len() == 0 {
        0xcbf29ce484222325u64
    } else {
        (fnv1a(bytes.drop_last()) ^ (bytes.last() as u64)).wrapping_mul(0x100000001b3u64)
    }
}

/// The content hash of a config: FNV-1a of its bytes as sixteen hex digits.
pub open spec fn hash_of(bytes: Seq<u8>) -> Seq<char> {
    hex(fnv1a(bytes) as nat, 16)
}

/// The content hash of some bytes.
pub fn content_hash(contents: &[u8]) -> (res: String)
    ensures
        res@ == hash_of(contents@),
{
    let mut hash: u64 = 0xcbf29ce484222325u64;
    let mut i: usize = 0;
    while i < contents.len()
        invariant
            i <= contents@.len(),
            hash == fnv1a(contents@.take(i as int)),
        decreases contents@.len() - i,
    {
        proof {
            assert(contents@.take(i + 1).drop_last() =~= contents@.take(i as int));
        }
        hash = hash ^ (contents[i] as u64);
        hash = hash.wrapping_mul(0x100000001b3u64);
        i = i + 1;
    }
    assert(contents@.take(i as int) =~= contents@);
    hex16(hash)
}

/// The content hash of a text.
pub fn text_hash(contents: &str) -> (res: String)
    ensures
        res@ == hash_of(utf8_bytes(contents@)),
{
    content_hash(contents.as_bytes())
}


/// The message of the first path or version check of a recorded
/// activation that fails against the lifecycle paths, if any does.
pub open spec fn state_problem(state: LifecycleState, paths: LifecyclePaths) -> Option<Seq<char>> {
    if state.version != 1 {
        Some("unsupported lifecycle state version "@ + dec(state.version as nat))
    } else if !path_eq(state.config_path@, join(paths.codex_home@, "config.toml"@)) {
        Some("Codex home does not match active state"@)
    } else if !path_eq(state.backup_path@, join(paths.data_dir@, "codex-config.toml.bak"@)) {
        Some("lifecycle backup path does not match the data directory"@)
    } else if state.port == 0 {
        Some("lifecycle state contains an invalid port"@)
    } else if state.original_exists && state.original_hash is None {
        Some("lifecycle state is missing the original config hash"@)
    } else {
        None
    }
}

/// Checks that a recorded activation belongs to these lifecycle paths.
pub fn validate_state_paths(state: &LifecycleState, paths: &LifecyclePaths) -> (res: Result<(), LifecycleError>)
    ensures
        match state_problem(*state, *paths) {
            None => res is Ok,
            Some(m) => res matches Err(LifecycleError::InvalidState(x)) && x@ == m,
        },
{
    if state.version != 1 {
        let m = concat("unsupported lifecycle state version ", decimal(state.version as u128).as_str());
        return Err(LifecycleError::InvalidState(m));
    }
    let config_path = paths.config_path();
    if !path_eq_exec(state.config_path.as_str(), config_path.as_str()) {
        return Err(LifecycleError::InvalidState(owned("Codex home does not match active state")));
    }
    let backup_path = paths.backup_path();
    if !path_eq_exec(state.backup_path.as_str(), backup_path.as_str()) {
        return Err(LifecycleError::InvalidState(owned("lifecycle backup path does not match the data directory")));
    }
    if state.port == 0 {
        return Err(LifecycleError::InvalidState(owned("lifecycle state contains an invalid port")));
    }
    if state.original_exists && state.original_hash.is_none() {
        return Err(LifecycleError::InvalidState(owned("lifecycle state is missing the original config hash")));
    }
    Ok(())
}

/// The config on disk is the one the activation wrote.
pub open spec fn matches_managed(state: LifecycleState, current: Option<Seq<char>>) -> bool {
    current matches Some(c) && hash_of(utf8_bytes(c)) == state.managed_hash@
}

/// The config on disk is the one the activation found, or there was none
/// and there is none.
pub open spec fn matches_original(state: LifecycleState, current: Option<Seq<char>>) -> bool {
    ||| (current matches Some(c) && state.original_hash matches Some(h) && hash_of(utf8_bytes(c)) == h@)
    ||| (!state.original_exists && current is None)
}

/// Whether the current config is the managed one and whether it is the
/// original one.
pub fn config_matches(state: &LifecycleState, current: Option<&str>) -> (res: (bool, bool))
    ensures
        res.0 == matches_managed(*state, opt_str(current)),
        res.1 == matches_original(*state, opt_str(current)),
{
    match current {
        Some(c) => {
            let h = text_hash(c);
            let managed = str_eq(h.as_str(), state.managed_hash.as_str());
            let original = match &state.original_hash {
                Some(o) => str_eq(h.as_str(), o.as_str()),
                None => false,
            };
            (managed, original)
        },
        None => (false, !state.original_exists),
    }
}

pub open spec fn opt_str(o: Option<&str>) -> Option<Seq<char>> {
    match o {
        Some(s) => Some(s@),
        None => None,
    }
}

/// The PID of the route service of an activation: the recorded one while
/// it is alive; where none is recorded, the one in the lock file while it
/// is alive.
pub open spec fn lifecycle_pid_spec(state_pid: Option<u32>, state_pid_alive: bool, lock_pid: Option<u32>, lock_pid_alive: bool) -> Option<u32> {
    match state_pid {
        Some(p) => if state_pid_alive {
            Some(p)
        } else {
            None
        },
        None => match lock_pid {
            Some(l) => if lock_pid_alive {
                Some(l)
            } else {
                None
            },
            None => None,
        },
    }
}

/// `lifecycle_pid_spec`, given whether the recorded PID and the lock
/// file's PID are alive.
pub fn lifecycle_pid(state_pid: Option<u32>, state_pid_alive: bool, lock_pid: Option<u32>, lock_pid_alive: bool) -> (res: Option<u32>)
    ensures
        res == lifecycle_pid_spec(state_pid, state_pid_alive, lock_pid, lock_pid_alive),
{
    match state_pid {
        Some(p) => if state_pid_alive {
            Some(p)
        } else {
            None
        },
        None => match lock_pid {
            Some(l) => if lock_pid_alive {
                Some(l)
            } else {
                None
            },
            None => None,
        },
    }
}

/// What `status` observed of the machine: the service PID of the
/// activation (`lifecycle_pid`), whether it is alive, whether the service
/// answers its health check on the recorded port, whether the lock file
/// exists, and the current Codex config (`None` where it is missing or
/// unreadable).
#[derive(Debug)]
pub struct StatusProbe {
    pub lifecycle_pid: Option<u32>,
    pub pid_alive: bool,
    pub server_reachable: bool,
    pub lock_exists: bool,
    pub current_config: Option<String>,
}

pub open spec fn status_active(state: Option<LifecycleState>, probe: StatusProbe) -> bool {
    state is Some && probe.lifecycle_pid is Some && probe.pid_alive && probe.server_reachable && probe.lock_exists
}

pub open spec fn status_external(state: Option<LifecycleState>, probe: StatusProbe) -> bool {
    match state {
        Some(st) => !matches_managed(st, opt_view(probe.current_config)) && (!matches_original(
            st,
            opt_view(probe.current_config),
        ) || status_active(state, probe)),
        None => false,
    }
}

/// The lifecycle status of a data directory, from its recorded activation
/// (or the error that reading it gave) and what was observed.
pub fn status(options: &StatusOptions, state: Result<Option<LifecycleState>, LifecycleError>, probe: StatusProbe) -> (res:
    Result<LifecycleStatus, LifecycleError>)
    ensures
        state matches Err(e) ==> res == Err::<LifecycleStatus, LifecycleError>(e),
        state matches Ok(st) ==> (res matches Ok(l) && {
            &&& l.config_path@ == match st {
                Some(x) => x.config_path@,
                None => join(options.paths.codex_home@, "config.toml"@),
            }
            &&& l.state_path@ == join(options.paths.data_dir@, "route-state.json"@)
            &&& l.lock_path@ == join(options.paths.data_dir@, "route.lock"@)
            &&& l.pid == match st {
                Some(_) => probe.lifecycle_pid,
                None => None,
            }
            &&& l.port == match st {
                Some(x) => Some(x.port),
                None => None,
            }
            &&& l.server_reachable == (st is Some && probe.server_reachable)
            &&& l.active == status_active(st, probe)
            &&& l.config_managed == st is Some
            &&& l.external_modification == status_external(st, probe)
            &&& l.status@ == if status_external(st, probe) {
                "external_modified"@
            } else if status_active(st, probe) {
                "active"@
            } else {
                "inactive"@
            }
        }),
{
    let state = match state {
        Ok(s) => s,
        Err(e) => {
            return Err(e);
        },
    };
    let state_path = options.paths.state_path();
    let lock_path = options.paths.lock_path();
    let config_path = match &state {
        Some(st) => st.config_path.clone(),
        None => options.paths.config_path(),
    };
    let pid = match &state {
        Some(_) => probe.lifecycle_pid,
        None => None,
    };
    let port = match &state {
        Some(st) => Some(st.port),
        None => None,
    };
    let server_reachable = port.is_some() && probe.server_reachable;
    let active = pid.is_some() && probe.pid_alive && server_reachable && probe.lock_exists;
    let external_modification = match &state {
        Some(st) => {
            let current = match &probe.current_config {
                Some(c) => Some(c.as_str()),
                None => None,
            };
            let (managed, original) = config_matches(st, current);
            !managed && (!original || active)
        },
        None => false,
    };
    let status = if external_modification {
        owned("external_modified")
    } else if active {
        owned("active")
    } else {
        owned("inactive")
    };
    Ok(LifecycleStatus {
        status,
        active,
        pid,
        port,
        server_reachable,
        config_managed: state.is_some(),
        external_modification,
        config_path,
        state_path,
        lock_path,
    })
}

/// What `Path::parent` gives for a path.
pub uninterp spec fn path_parent(path: Seq<char>) -> Option<Seq<char>>;

/// `Path::parent`.  The contract claims only that the result is the
/// parent that std computes (named `path_parent`).
#[verifier::external_body]
fn parent_of(path: &str) -> (res: Option<String>)
    ensures
        opt_view(res) == path_parent(path@),
{
    std::path::Path::new(path).parent().map(|p| p.to_string_lossy().into_owned())
}

/// The Codex home of a recorded activation: the directory of the config it
/// manages.  `None` where there is no record or it could not be read.
pub fn codex_home_from_state(state: Result<Option<LifecycleState>, LifecycleError>) -> (res: Option<String>)
    ensures
        opt_view(res) == match state {
            Ok(Some(st)) => path_parent(st.config_path@),
            _ => None,
        },
{
    match state {
        Ok(Some(st)) => parent_of(st.config_path.as_str()),
        _ => None,
    }
}


/// A config holds a `codex-route` provider that no activation wrote: the
/// document has the entry and no line of it is the managed marker.
pub open spec fn unowned_route_provider(contents: Seq<char>) -> bool {
    &&& toml_doc_opt(contents) matches Some(d)
    &&& d.field("model_providers"@) matches Some(p)
    &&& p.field("codex-route"@) is Some
    &&& !has_trimmed_line(contents, "# codex-route-managed: v1"@)
}

/// Whether a config holds a `codex-route` provider that no activation
/// wrote.
pub fn contains_unowned_route_provider(contents: &str) -> (res: bool)
    ensures
        res == unowned_route_provider(contents@),
{
    proof {
        reveal_strlit("# codex-route-managed: v1");
    }
    match parse_toml_opt(contents) {
        Some(doc) => match doc.get("model_providers") {
            Some(providers) => providers.get(ROUTE_PROVIDER_ID).is_some() && !any_trimmed_line(contents, CONFIG_MARKER),
            None => false,
        },
        None => false,
    }
}

/// Whether some line of a config is the managed marker.
pub fn has_marker_line(contents: &str) -> (res: bool)
    ensures
        res == has_trimmed_line(contents@, "# codex-route-managed: v1"@),
{
    proof {
        reveal_strlit("# codex-route-managed: v1");
    }
    any_trimmed_line(contents, CONFIG_MARKER)
}

/// The first entry of a table with the given key.
pub open spec fn first_key(entries: Seq<(String, TomlValue)>, key: Seq<char>, i: int) -> bool {
    0 <= i < entries.len() && entries[i].0@ == key && forall|j: int| 0 <= j < i ==> (#[trigger] entries[j]).0@ != key
}

/// Where putting a value under `key` into a table puts it: at the first
/// entry with that key, else in a new entry at the end
/// (`toml::map::Map::insert`).
pub open spec fn put_pos(old: Seq<(String, TomlValue)>, key: Seq<char>) -> int {
    if exists|i: int| first_key(old, key, i) {
        choose|i: int| first_key(old, key, i)
    } else {
        old.len() as int
    }
}

/// `new` is `old` with some value put under `key`: every other entry
/// stays, the key of a replaced entry stays.
pub open spec fn put_shape(old: Seq<(String, TomlValue)>, new: Seq<(String, TomlValue)>, key: Seq<char>) -> bool {
    let p = put_pos(old, key);
    &&& p < old.len() ==> new.len() == old.len() && new[p].0 == old[p].0
    &&& p == old.len() ==> new.len() == old.len() + 1 && new[p].0@ == key
    &&& forall|j: int| 0 <= j < old.len() && j != p ==> #[trigger] new[j] == old[j]
}

fn find_key(entries: &Vec<(String, TomlValue)>, key: &str) -> (res: Option<usize>)
    ensures
        match res {
            Some(i) => first_key(entries@, key@, i as int),
            None => forall|i: int| 0 <= i < entries@.len() ==> (#[trigger] entries@[i]).0@ != key@,
        },
{
    let mut i: usize = 0;
    while i < entries.len()
        invariant
            i <= entries@.len(),
            forall|j: int| 0 <= j < i ==> (#[trigger] entries@[j]).0@ != key@,
        decreases entries@.len() - i,
    {
        if str_eq(entries[i].0.as_str(), key) {
            return Some(i);
        }
        i = i + 1;
    }
    None
}

/// A string value with the given text.
pub open spec fn is_str(v: TomlValue, text: Seq<char>) -> bool {
    v matches TomlValue::Str(s) && s@ == text
}

/// `http://127.0.0.1:<port>/v1`
pub open spec fn route_url(port: u16) -> Seq<char> {
    "http://127.0.0.1:"@ + dec(port as nat) + "/v1"@
}

/// The provider entry that the lifecycle writes for the route.
pub open spec fn route_provider_ok(v: TomlValue, port: u16) -> bool {
    v matches TomlValue::Table(rp) && {
        let e = rp@;
        &&& e.len() == 5
        &&& e[0].0@ == "name"@ && is_str(e[0].1, "codex-route"@)
        &&& e[1].0@ == "base_url"@ && is_str(e[1].1, route_url(port))
        &&& e[2].0@ == "wire_api"@ && is_str(e[2].1, "responses"@)
        &&& e[3].0@ == "requires_openai_auth"@ && e[3].1 == TomlValue::Boolean(false)
        &&& e[4].0@ == "experimental_bearer_token"@ && is_str(e[4].1, "codex-route-managed"@)
    }
}

/// The providers table after the route provider is put in it: `old` is
/// the table's entries before.
pub open spec fn providers_ok(v: TomlValue, old: Seq<(String, TomlValue)>, port: u16) -> bool {
    v matches TomlValue::Table(pe) && put_shape(old, pe@, "codex-route"@) && route_provider_ok(
        pe@[put_pos(old, "codex-route"@)].1,
        port,
    )
}

/// The entries of the providers table of a top-level table, none where
/// there is no such table.
pub open spec fn providers_of(top: Seq<(String, TomlValue)>) -> Seq<(String, TomlValue)> {
    match entry_of(top, "model_providers"@) {
        Some(TomlValue::Table(pe)) => pe@,
        _ => Seq::empty(),
    }
}

/// The document that projecting the route into a config gives, from the
/// entries of the config's top-level table.
pub open spec fn projected_ok(doc: TomlValue, top: Seq<(String, TomlValue)>, port: u16) -> bool {
    doc matches TomlValue::Table(e) && exists|mid: Seq<(String, TomlValue)>|
        #[trigger] put_shape(top, mid, "model_provider"@) && is_str(
            mid[put_pos(top, "model_provider"@)].1,
            "codex-route"@,
        ) && put_shape(mid, e@, "model_providers"@) && providers_ok(
            e@[put_pos(mid, "model_providers"@)].1,
            providers_of(mid),
            port,
        )
}

fn put_value(entries: &mut Vec<(String, TomlValue)>, key: &str, value: TomlValue)
    ensures
        put_shape(old(entries)@, final(entries)@, key@),
        final(entries)@[put_pos(old(entries)@, key@)].1 == value,
{
    match find_key(entries, key) {
        Some(i) => {
            proof {
                assert(first_key(old(entries)@, key@, i as int));
                let c = choose|c: int| first_key(old(entries)@, key@, c);
                if c < i {
                    assert(old(entries)@[c].0@ != key@);
                } else if c > i {
                    assert(old(entries)@[i as int].0@ != key@);
                }
            }
            let (k, _v) = entries.remove(i);
            entries.insert(i, (k, value));
        },
        None => {
            proof {
                assert forall|i: int| !first_key(old(entries)@, key@, i) by {}
            }
            entries.push((owned(key), value));
        },
    }
}

proof fn lemma_entry_first(entries: Seq<(String, TomlValue)>, key: Seq<char>)
    ensures
        (exists|i: int| first_key(entries, key, i)) ==> entry_of(entries, key) == Some(
            entries[choose|i: int| first_key(entries, key, i)].1,
        ),
        !(exists|i: int| first_key(entries, key, i)) ==> entry_of(entries, key) is None,
    decreases entries.len(),
{
    if entries.len() > 0 {
        let rest = entries.drop_first();
        lemma_entry_first(rest, key);
        if entries[0].0@ == key {
            assert(first_key(entries, key, 0));
            let c = choose|i: int| first_key(entries, key, i);
            if c > 0 {
                assert(entries[0].0@ != key);
            }
        } else {
            if exists|i: int| first_key(entries, key, i) {
                let c = choose|i: int| first_key(entries, key, i);
                assert(c > 0);
                assert(first_key(rest, key, c - 1)) by {
                    assert forall|j: int| 0 <= j < c - 1 implies (#[trigger] rest[j]).0@ != key by {
                        assert(rest[j] == entries[j + 1]);
                    }
                }
                let d = choose|i: int| first_key(rest, key, i);
                if d != c - 1 {
                    if d < c - 1 {
                        assert(rest[d] == entries[d + 1]);
                    } else {
                        assert(rest[c - 1] == entries[c]);
                    }
                }
                assert(rest[c - 1] == entries[c]);
            } else {
                if exists|i: int| first_key(rest, key, i) {
                    let d = choose|i: int| first_key(rest, key, i);
                    assert(first_key(entries, key, d + 1)) by {
                        assert forall|j: int| 0 <= j < d + 1 implies (#[trigger] entries[j]).0@ != key by {
                            if j > 0 {
                                assert(rest[j - 1] == entries[j]);
                            }
                        }
                    }
                }
            }
        }
    }
}

/// Putting a value under one key leaves what another key finds.
proof fn lemma_put_other(old: Seq<(String, TomlValue)>, new: Seq<(String, TomlValue)>, k1: Seq<char>, k2: Seq<char>)
    requires
        put_shape(old, new, k1),
        k1 != k2,
    ensures
        entry_of(new, k2) == entry_of(old, k2),
{
    let p = put_pos(old, k1);
    assert forall|i: int| first_key(new, k2, i) <==> first_key(old, k2, i) by {
        if 0 <= i < old.len() && i != p {
            assert(new[i] == old[i]);
        }
        if first_key(new, k2, i) {
            assert forall|j: int| 0 <= j < i implies (#[trigger] old[j]).0@ != k2 by {
                if j != p {
                    assert(new[j] == old[j]);
                }
            }
        }
        if first_key(old, k2, i) {
            assert forall|j: int| 0 <= j < i implies (#[trigger] new[j]).0@ != k2 by {
                if j != p {
                    assert(new[j] == old[j]);
                }
            }
        }
    }
    lemma_entry_first(old, k2);
    lemma_entry_first(new, k2);
    if exists|i: int| first_key(old, k2, i) {
        let a = choose|i: int| first_key(old, k2, i);
        let b = choose|i: int| first_key(new, k2, i);
        assert(first_key(new, k2, a));
        if a != b {
            if a < b {
                assert(new[a].0@ != k2);
            } else {
                assert(first_key(old, k2, b));
                assert(old[b].0@ != k2);
            }
        }
        if a != p {
            assert(new[a] == old[a]);
        }
    }
}

/// The entries of the route provider.
fn route_provider_entries(port: u16) -> (res: Vec<(String, TomlValue)>)
    ensures
        route_provider_ok(TomlValue::Table(res), port),
{
    let mut e: Vec<(String, TomlValue)> = Vec::new();
    e.push((owned("name"), TomlValue::Str(owned("codex-route"))));
    let url = concat(concat("http://127.0.0.1:", decimal(port as u128).as_str()).as_str(), "/v1");
    e.push((owned("base_url"), TomlValue::Str(url)));
    e.push((owned("wire_api"), TomlValue::Str(owned("responses"))));
    e.push((owned("requires_openai_auth"), TomlValue::Boolean(false)));
    e.push((owned("experimental_bearer_token"), TomlValue::Str(owned(ROUTE_BEARER_TOKEN))));
    proof {
        reveal_strlit("codex-route-managed");
    }
    e
}

/// The entries of a parsed top-level table; none for no document.
pub open spec fn top_of(d: Option<TomlValue>) -> Seq<(String, TomlValue)> {
    match d {
        Some(TomlValue::Table(e)) => e@,
        _ => Seq::empty(),
    }
}

/// What projecting the route into a config gives: where the config does
/// not parse, its parser error; where it is no table, or its providers
/// entry is no table, those errors; else the marker line and the text of
/// the projected document (or the serializer's error).
pub open spec fn parse_stage(original: Option<Seq<char>>) -> Result<Option<TomlValue>, Seq<char>> {
    match original {
        Some(t) => match toml_document(t) {
            Ok(d) => Ok(Some(d)),
            Err(m) => Err(m),
        },
        None => Ok(None),
    }
}

/// The rest of the projection, from the entries of the top-level table.
pub open spec fn projection_rest(top: Seq<(String, TomlValue)>, port: u16, res: Result<String, LifecycleError>) -> bool {
    if entry_of(top, "model_providers"@) matches Some(v) && !(v is Table) {
        res == Err::<String, LifecycleError>(LifecycleError::InvalidModelProviders)
    } else {
        exists|doc: TomlValue|
            #[trigger] projected_ok(doc, top, port) && match toml_serialized(doc) {
                Ok(text) => res matches Ok(out) && out@ == "# codex-route-managed: v1"@ + seq!['\n'] + text,
                Err(m) => res matches Err(LifecycleError::InvalidConfigToml(x)) && x@ == m,
            }
    }
}

pub open spec fn projection_spec(original: Option<Seq<char>>, port: u16, res: Result<String, LifecycleError>) -> bool {
    match parse_stage(original) {
        Err(m) => res matches Err(LifecycleError::InvalidConfigToml(x)) && x@ == m,
        Ok(d) => if d matches Some(v) && !(v is Table) {
            res matches Err(LifecycleError::InvalidConfigToml(x)) && x@ == "top-level value must be a table"@
        } else {
            projection_rest(top_of(d), port, res)
        },
    }
}

/// Writes the route provider into a Codex config (or into an empty one),
/// makes it the active provider, and marks the config as managed.
pub fn project_config(original: Option<&str>, port: u16) -> (res: Result<String, LifecycleError>)
    ensures
        projection_spec(opt_str(original), port, res),
{
    let doc = match original {
        Some(text) => match parse_toml(text) {
            Ok(d) => d,
            Err(m) => {
                return Err(LifecycleError::InvalidConfigToml(m));
            },
        },
        None => TomlValue::Table(Vec::new()),
    };
    let ghost doc0 = doc;
    let mut top = match doc {
        TomlValue::Table(e) => e,
        _ => {
            return Err(LifecycleError::InvalidConfigToml(owned("top-level value must be a table")));
        },
    };
    let ghost top0 = top@;
    put_value(&mut top, "model_provider", TomlValue::Str(owned("codex-route")));
    let ghost mid = top@;
    proof {
        reveal_strlit("model_provider");
        reveal_strlit("model_providers");
        assert("model_provider"@.len() != "model_providers"@.len());
        lemma_put_other(top0, mid, "model_provider"@, "model_providers"@);
        lemma_entry_first(mid, "model_providers"@);
    }
    match find_key(&top, "model_providers") {
        Some(i) => {
            proof {
                let c = choose|c: int| first_key(mid, "model_providers"@, c);
                if c != i {
                    if c < i {
                        assert(mid[c].0@ != "model_providers"@);
                    } else {
                        assert(mid[i as int].0@ != "model_providers"@);
                    }
                }
            }
            if !top[i].1.is_table_value() {
                let r = Err(LifecycleError::InvalidModelProviders);
                assert(projection_spec(opt_str(original), port, r));
                return r;
            }
            let (k, v) = top.remove(i);
            let mut pe = match v {
                TomlValue::Table(pe) => pe,
                _ => Vec::new(),
            };
            let ghost pe0 = pe@;
            proof {
                let c = choose|c: int| first_key(mid, "model_providers"@, c);
                if c != i {
                    if c < i {
                        assert(mid[c].0@ != "model_providers"@);
                    } else {
                        assert(mid[i as int].0@ != "model_providers"@);
                    }
                }
                assert(providers_of(mid) == pe0);
            }
            put_value(&mut pe, "codex-route", TomlValue::Table(route_provider_entries(port)));
            top.insert(i, (k, TomlValue::Table(pe)));
            proof {
                assert(first_key(mid, "model_providers"@, i as int));
                let c = choose|c: int| first_key(mid, "model_providers"@, c);
                if c != i {
                    if c < i {
                        assert(mid[c].0@ != "model_providers"@);
                    } else {
                        assert(mid[i as int].0@ != "model_providers"@);
                    }
                }
                assert(put_pos(mid, "model_providers"@) == i);
                assert(put_shape(mid, top@, "model_providers"@));
            }
        },
        None => {
            let mut pe: Vec<(String, TomlValue)> = Vec::new();
            let ghost pe0 = pe@;
            put_value(&mut pe, "codex-route", TomlValue::Table(route_provider_entries(port)));
            top.push((owned("model_providers"), TomlValue::Table(pe)));
            proof {
                assert forall|c: int| !first_key(mid, "model_providers"@, c) by {}
                assert(providers_of(mid) =~= pe0);
                assert(put_pos(mid, "model_providers"@) == mid.len());
                assert(put_shape(mid, top@, "model_providers"@));
            }
        },
    }
    let out = TomlValue::Table(top);
    proof {
        assert(put_shape(top0, mid, "model_provider"@));
        assert(projected_ok(out, top0, port));
        match original {
            Some(t) => {
                assert(top0 == top_of(toml_doc_opt(t@)));
            },
            None => {
                assert(top0 =~= top_of(None));
            },
        }
    }
    match toml_text(&out) {
        Ok(text) => {
            proof {
                reveal_strlit("# codex-route-managed: v1");
                reveal_strlit("\n");
            }
            let head = concat(CONFIG_MARKER, "\n");
            let r = Ok(concat(head.as_str(), text.as_str()));
            assert(!(entry_of(top0, "model_providers"@) matches Some(v) && !(v is Table)));
            assert(projected_ok(out, top0, port));
            assert(r matches Ok(o) && o@ == "# codex-route-managed: v1"@ + seq!['\n'] + text@);
            assert(toml_serialized(out) == Ok::<Seq<char>, Seq<char>>(text@));
            assert(projection_rest(top0, port, r));
            match original {
                Some(t) => {
                    assert(parse_stage(opt_str(original)) == Ok::<Option<TomlValue>, Seq<char>>(Some(doc0)));
                    assert(top_of(Some(doc0)) == top0);
                },
                None => {
                    assert(top_of(None) =~= top0);
                },
            }
            assert(projection_spec(opt_str(original), port, r));
            r
        },
        Err(m) => {
            let r = Err(LifecycleError::InvalidConfigToml(m));
            assert(projection_spec(opt_str(original), port, r));
            r
        },
    }
}


/// What to do about a lifecycle lock file found before activation.
/// The route port that an activation is asked for: port 0 is refused.
pub fn check_port(port: u16) -> (res: Result<(), LifecycleError>)
    ensures
        res == if port == 0 {
            Err::<(), LifecycleError>(LifecycleError::InvalidPort)
        } else {
            Ok(())
        },
{
    if port == 0 {
        Err(LifecycleError::InvalidPort)
    } else {
        Ok(())
    }
}

/// How a failed activation is rolled back.
#[derive(Debug, Clone, Copy, PartialEq, Eq, Structural)]
pub enum Rollback {
    /// Write the backed-up original config back, then remove the backup and
    /// the state.
    RestoreOriginal,
    /// Remove the config that the activation wrote (there was none before),
    /// then the backup and the state.
    RemoveConfig,
    /// The config was not touched: write the state back as it is.
    KeepState,
}

/// The rollback of a failed activation: the config is put back as it was
/// found where the activation changed it, else only the state is written.
pub fn rollback_plan(state: &LifecycleState, changed_config: bool) -> (res: Rollback)
    ensures
        res == if !changed_config {
            Rollback::KeepState
        } else if state.original_exists {
            Rollback::RestoreOriginal
        } else {
            Rollback::RemoveConfig
        },
{
    if !changed_config {
        Rollback::KeepState
    } else if state.original_exists {
        Rollback::RestoreOriginal
    } else {
        Rollback::RemoveConfig
    }
}

#[derive(Debug, Clone, Copy, PartialEq, Eq, Structural)]
pub enum LockDecision {
    /// A live route holds it.
    AlreadyActive(u32),
    /// It is stale: remove it.
    RemoveStale,
    /// There is none.
    Free,
}

/// The lock decision, from whether the lock exists, the PID it names and
/// whether that process is alive.
pub fn lock_decision(lock_exists: bool, lock_pid: Option<u32>, pid_alive: bool) -> (res: LockDecision)
    ensures
        res == if !lock_exists {
            LockDecision::Free
        } else if lock_pid is Some && pid_alive {
            LockDecision::AlreadyActive(lock_pid.unwrap())
        } else {
            LockDecision::RemoveStale
        },
{
    if !lock_exists {
        LockDecision::Free
    } else {
        match lock_pid {
            Some(pid) => if pid_alive {
                LockDecision::AlreadyActive(pid)
            } else {
                LockDecision::RemoveStale
            },
            None => LockDecision::RemoveStale,
        }
    }
}

/// The checks that an activation over a recorded one makes, in order: the
/// record belongs to these paths; the config on disk is the managed or the
/// original one; the backup of an original config exists; the recorded
/// service is not alive and answering; the record uses the requested port.
/// On success, whether the managed config must be written again (the config
/// on disk is not the managed one).  `live_pid` is the recorded PID where
/// that process is alive; `reachable` whether the recorded port answers.
pub open spec fn existing_check_ok(
    state: LifecycleState,
    paths: LifecyclePaths,
    current: Option<Seq<char>>,
    backup_is_file: bool,
    live_pid: Option<u32>,
    reachable: bool,
    port: u16,
    res: Result<bool, LifecycleError>,
) -> bool {
    match state_problem(state, paths) {
        Some(m) => res matches Err(LifecycleError::InvalidState(x)) && x@ == m,
        None => if !matches_managed(state, current) && !matches_original(state, current) {
            res == Err::<bool, LifecycleError>(LifecycleError::ExternalModification)
        } else if state.original_exists && !backup_is_file {
            res matches Err(LifecycleError::MissingBackup(p)) && p@ == state.backup_path@
        } else if live_pid is Some && reachable {
            res == Err::<bool, LifecycleError>(LifecycleError::AlreadyActive(live_pid.unwrap()))
        } else if state.port != port {
            res matches Err(LifecycleError::InvalidState(x)) && x@ == "stale activation uses port "@ + dec(state.port as nat)
                + ", requested "@ + dec(port as nat)
        } else {
            res == Ok::<bool, LifecycleError>(!matches_managed(state, current))
        },
    }
}

pub fn check_existing_activation(
    state: &LifecycleState,
    paths: &LifecyclePaths,
    current: Option<&str>,
    backup_is_file: bool,
    live_pid: Option<u32>,
    reachable: bool,
    port: u16,
) -> (res: Result<bool, LifecycleError>)
    ensures
        existing_check_ok(*state, *paths, opt_str(current), backup_is_file, live_pid, reachable, port, res),
{
    match validate_state_paths(state, paths) {
        Ok(()) => {},
        Err(e) => {
            return Err(e);
        },
    }
    let (managed, original) = config_matches(state, current);
    if !managed && !original {
        return Err(LifecycleError::ExternalModification);
    }
    if state.original_exists && !backup_is_file {
        return Err(LifecycleError::MissingBackup(state.backup_path.clone()));
    }
    match live_pid {
        Some(pid) => {
            if reachable {
                return Err(LifecycleError::AlreadyActive(pid));
            }
        },
        None => {},
    }
    if state.port != port {
        let a = concat("stale activation uses port ", decimal(state.port as u128).as_str());
        let b = concat(a.as_str(), ", requested ");
        return Err(LifecycleError::InvalidState(concat(b.as_str(), decimal(port as u128).as_str())));
    }
    Ok(!managed)
}

/// A backup text does not have the hash that the activation recorded.
pub open spec fn hash_mismatch(state: LifecycleState, text: Seq<char>) -> bool {
    match state.original_hash {
        Some(h) => hash_of(utf8_bytes(text)) != h@,
        None => false,
    }
}

/// Some config was found and holds an unowned `codex-route` provider.
pub open spec fn unowned_in(original: Option<Seq<char>>) -> bool {
    match original {
        Some(o) => unowned_route_provider(o),
        None => false,
    }
}

/// Some config was found and carries the managed marker.
pub open spec fn marked(original: Option<Seq<char>>) -> bool {
    match original {
        Some(o) => has_trimmed_line(o, "# codex-route-managed: v1"@),
        None => false,
    }
}

/// Projecting the route into the config succeeds.
pub open spec fn projects(original: Option<Seq<char>>, port: u16) -> bool {
    exists|m: String| #[trigger] projection_spec(original, port, Ok::<String, LifecycleError>(m))
}

/// The managed config to write again over a recorded activation: the
/// projection of the original config (the verified backup where there was
/// one, none where there was none).  `backup` is the backup's text.
pub fn reprojected_config(state: &LifecycleState, backup_is_file: bool, backup: Option<&str>, port: u16) -> (res: Result<String, LifecycleError>)
    ensures
        state.original_exists && !backup_is_file ==> (res matches Err(LifecycleError::MissingBackup(p)) && p@ == state.backup_path@),
        state.original_exists && backup_is_file && backup is Some && hash_mismatch(*state, backup.unwrap()@) ==> res
            == Err::<String, LifecycleError>(LifecycleError::ExternalModification),
        !state.original_exists ==> projection_spec(None, port, res),
        state.original_exists && backup_is_file && backup is Some && !hash_mismatch(*state, backup.unwrap()@)
            ==> projection_spec(Some(backup.unwrap()@), port, res),
        state.original_exists && backup_is_file && backup is None ==> projection_spec(None, port, res),
{
    if state.original_exists {
        if !backup_is_file {
            return Err(LifecycleError::MissingBackup(state.backup_path.clone()));
        }
        match backup {
            Some(text) => {
                match &state.original_hash {
                    Some(h) => {
                        let actual = text_hash(text);
                        if !str_eq(actual.as_str(), h.as_str()) {
                            return Err(LifecycleError::ExternalModification);
                        }
                    },
                    None => {},
                }
                project_config(Some(text), port)
            },
            None => project_config(None, port),
        }
    } else {
        project_config(None, port)
    }
}

/// A recorded activation rewritten for a new managed config on `port`.
pub fn restamped_state(state: LifecycleState, managed: &str, port: u16) -> (res: LifecycleState)
    ensures
        res == (LifecycleState { managed_hash: res.managed_hash, port, ..state }),
        res.managed_hash@ == hash_of(utf8_bytes(managed@)),
{
    let h = text_hash(managed);
    LifecycleState { managed_hash: h, port, ..state }
}

/// A recorded activation handed to a new run of the service: for
/// `provider_id`, with no PID yet.
pub fn relaunched_state(state: LifecycleState, provider_id: Option<String>) -> (res: LifecycleState)
    ensures
        res == (LifecycleState { provider_id, pid: None, ..state }),
{
    LifecycleState { provider_id, pid: None, ..state }
}

/// A first activation's plan: the managed config projected from the config
/// found, and the record that names the lifecycle paths, whether there was
/// an original and its hash, the hash of the managed config, the port and
/// the provider, with no PID yet.
pub open spec fn fresh_plan(
    paths: LifecyclePaths,
    original: Option<Seq<char>>,
    port: u16,
    provider_id: Option<String>,
    managed: String,
    st: LifecycleState,
) -> bool {
    &&& projection_spec(original, port, Ok::<String, LifecycleError>(managed))
    &&& !unowned_in(original)
    &&& st.version == 1
    &&& st.config_path@ == join(paths.codex_home@, "config.toml"@)
    &&& st.backup_path@ == join(paths.data_dir@, "codex-config.toml.bak"@)
    &&& st.original_exists == original is Some
    &&& opt_view(st.original_hash) == match original {
        Some(o) => Some(hash_of(utf8_bytes(o))),
        None => None,
    }
    &&& st.managed_hash@ == hash_of(utf8_bytes(managed@))
    &&& st.port == port
    &&& st.provider_id == provider_id
    &&& st.pid is None
}

/// A first activation: the managed config to write and the record of it,
/// from the config found (if any).  A config that carries the marker with
/// no record, or a `codex-route` provider that no activation wrote, is
/// refused.
pub fn plan_fresh_activation(paths: &LifecyclePaths, original: Option<&str>, port: u16, provider_id: Option<String>) -> (res: Result<
    (String, LifecycleState),
    LifecycleError,
>)
    ensures
        marked(opt_str(original)) ==> (res matches Err(LifecycleError::InvalidState(x)) && x@
            == "managed config marker exists without lifecycle state"@),
        !marked(opt_str(original)) ==> match res {
            Ok((managed, st)) => fresh_plan(*paths, opt_str(original), port, provider_id, managed, st),
            Err(e) => {
                ||| projection_spec(opt_str(original), port, Err::<String, LifecycleError>(e))
                ||| (e == LifecycleError::UnownedRouteProvider && unowned_in(opt_str(original)) && projects(opt_str(original), port))
            },
        },
{
    match original {
        Some(o) => {
            if has_marker_line(o) {
                return Err(LifecycleError::InvalidState(owned("managed config marker exists without lifecycle state")));
            }
        },
        None => {},
    }
    let managed = match project_config(original, port) {
        Ok(m) => m,
        Err(e) => {
            return Err(e);
        },
    };
    match original {
        Some(o) => {
            if contains_unowned_route_provider(o) {
                return Err(LifecycleError::UnownedRouteProvider);
            }
        },
        None => {},
    }
    let original_hash = match original {
        Some(o) => Some(text_hash(o)),
        None => None,
    };
    let managed_hash = text_hash(managed.as_str());
    let st = LifecycleState {
        version: 1,
        config_path: paths.config_path(),
        backup_path: paths.backup_path(),
        original_exists: original.is_some(),
        original_hash,
        managed_hash,
        port,
        provider_id,
        pid: None,
    };
    Ok((managed, st))
}

/// The error of a service that did not become healthy: it exited, or it
/// timed out.
pub fn startup_failure(exited: bool) -> (res: LifecycleError)
    ensures
        res == if exited {
            LifecycleError::StartupExited
        } else {
            LifecycleError::StartupTimeout(5)
        },
{
    if exited {
        LifecycleError::StartupExited
    } else {
        LifecycleError::StartupTimeout(STARTUP_TIMEOUT_SECS)
    }
}

/// The answer of a successful activation.
pub fn activation_result(paths: &LifecyclePaths, pid: u32, port: u16) -> (res: ActivationResult)
    ensures
        res.status@ == "active"@,
        res.pid == pid,
        res.port == port,
        res.route_url@ == route_url(port),
        res.config_path@ == join(paths.codex_home@, "config.toml"@),
        res.state_path@ == join(paths.data_dir@, "route-state.json"@),
        res.lock_path@ == join(paths.data_dir@, "route.lock"@),
{
    let url = concat(concat("http://127.0.0.1:", decimal(port as u128).as_str()).as_str(), "/v1");
    ActivationResult {
        status: owned("active"),
        pid,
        port,
        route_url: url,
        config_path: paths.config_path(),
        state_path: paths.state_path(),
        lock_path: paths.lock_path(),
    }
}

/// The checks of a deactivation before anything is stopped: there is a
/// record; it belongs to these paths; the config on disk is the managed
/// one, or (with the service gone) the original one.  On success, whether
/// it is the managed one.  `pid` is the service PID of the activation
/// (`lifecycle_pid`).
pub open spec fn deactivation_check_ok(
    state: Option<LifecycleState>,
    paths: LifecyclePaths,
    pid: Option<u32>,
    current: Option<Seq<char>>,
    res: Result<bool, LifecycleError>,
) -> bool {
    match state {
        None => res == Err::<bool, LifecycleError>(LifecycleError::NotActive),
        Some(st) => match state_problem(st, paths) {
            Some(m) => res matches Err(LifecycleError::InvalidState(x)) && x@ == m,
            None => if !matches_managed(st, current) && (!matches_original(st, current) || pid is Some) {
                res == Err::<bool, LifecycleError>(LifecycleError::ExternalModification)
            } else {
                res == Ok::<bool, LifecycleError>(matches_managed(st, current))
            },
        },
    }
}

pub fn check_deactivation(state: Option<&LifecycleState>, paths: &LifecyclePaths, pid: Option<u32>, current: Option<&str>) -> (res:
    Result<bool, LifecycleError>)
    ensures
        deactivation_check_ok(
            match state {
                Some(s) => Some(*s),
                None => None,
            },
            *paths,
            pid,
            opt_str(current),
            res,
        ),
{
    let st = match state {
        Some(s) => s,
        None => {
            return Err(LifecycleError::NotActive);
        },
    };
    match validate_state_paths(st, paths) {
        Ok(()) => {},
        Err(e) => {
            return Err(e);
        },
    }
    let (managed, original) = config_matches(st, current);
    if !managed && (!original || pid.is_some()) {
        return Err(LifecycleError::ExternalModification);
    }
    Ok(managed)
}

/// How reading the backup of an original config went.
#[derive(Debug)]
pub enum BackupRead {
    Read(Vec<u8>),
    NotFound,
    Failed(String),
}

/// The backup of the original config, checked against the hash the
/// activation recorded.
pub fn verify_backup(state: &LifecycleState, read: BackupRead) -> (res: Result<Vec<u8>, LifecycleError>)
    ensures
        match read {
            BackupRead::NotFound => res matches Err(LifecycleError::MissingBackup(p)) && p@ == state.backup_path@,
            BackupRead::Failed(m) => res matches Err(LifecycleError::Io(x)) && x@ == m@,
            BackupRead::Read(bytes) => match state.original_hash {
                None => res matches Err(LifecycleError::InvalidState(x)) && x@ == "lifecycle state is missing the original config hash"@,
                Some(h) => if hash_of(bytes@) != h@ {
                    res == Err::<Vec<u8>, LifecycleError>(LifecycleError::ExternalModification)
                } else {
                    res matches Ok(b) && b@ == bytes@
                },
            },
        },
{
    let bytes = match read {
        BackupRead::NotFound => {
            return Err(LifecycleError::MissingBackup(state.backup_path.clone()));
        },
        BackupRead::Failed(m) => {
            return Err(LifecycleError::Io(m));
        },
        BackupRead::Read(b) => b,
    };
    let expected = match &state.original_hash {
        Some(h) => h,
        None => {
            return Err(LifecycleError::InvalidState(owned("lifecycle state is missing the original config hash")));
        },
    };
    let actual = content_hash(bytes.as_slice());
    if !str_eq(actual.as_str(), expected.as_str()) {
        return Err(LifecycleError::ExternalModification);
    }
    Ok(bytes)
}

/// The checks before the service of an activation is signalled: the lock
/// names the same PID, and that process is a route service.
pub fn check_stop_target(pid: u32, lock_pid: Option<u32>, is_route_service: bool) -> (res: Result<(), LifecycleError>)
    ensures
        match lock_pid {
            None => res matches Err(LifecycleError::Stop(m)) && m@ == "route lock is missing; refusing to signal an unowned PID"@,
            Some(l) => if l != pid {
                res matches Err(LifecycleError::Stop(m)) && m@ == "route lock PID does not match lifecycle state"@
            } else if !is_route_service {
                res matches Err(LifecycleError::Stop(m)) && m@ == "route lock PID is not a codex-route service"@
            } else {
                res is Ok
            },
        },
{
    match lock_pid {
        None => Err(LifecycleError::Stop(owned("route lock is missing; refusing to signal an unowned PID"))),
        Some(l) => if l != pid {
            Err(LifecycleError::Stop(owned("route lock PID does not match lifecycle state")))
        } else if !is_route_service {
            Err(LifecycleError::Stop(owned("route lock PID is not a codex-route service")))
        } else {
            Ok(())
        },
    }
}

/// After the service stopped, the config must still be the managed one
/// before it is restored.
pub fn check_still_managed(state: &LifecycleState, current: Option<&str>) -> (res: Result<(), LifecycleError>)
    ensures
        res is Ok <==> check_still_managed_spec(*state, opt_str(current)),
        res is Err ==> res == Err::<(), LifecycleError>(LifecycleError::ExternalModification),
{
    let (managed, _) = config_matches(state, current);
    if managed {
        Ok(())
    } else {
        Err(LifecycleError::ExternalModification)
    }
}

/// What a deactivation does to the config once the service stopped.
#[derive(Debug, Clone, Copy, PartialEq, Eq, Structural)]
pub enum RestoreAction {
    /// Write the verified backup back.
    WriteBackup,
    /// Remove the managed config (there was no original).
    RemoveConfig,
    /// Leave the config as it is.
    Keep,
}

/// What the restore of a deactivation does: the backup goes back only over
/// a config that is still the managed one; with no original, the managed
/// config is removed.
pub open spec fn restore_choice(matches_managed: bool, original_exists: bool, config_exists: bool) -> RestoreAction {
    if matches_managed && original_exists {
        RestoreAction::WriteBackup
    } else if matches_managed && config_exists {
        RestoreAction::RemoveConfig
    } else {
        RestoreAction::Keep
    }
}

/// A first activation that nothing disturbed since undoes to the config it
/// found.  Take the plan of a first activation on a port other than 0,
/// recorded with whatever PID the service it launched got; a deactivation
/// that finds the managed config on disk then passes its checks (whatever
/// process is running) and finds the config still managed; the backup
/// of the original, read back as the original's bytes, passes the hash
/// check; and the restore writes that backup back, or removes the managed
/// config where there was no original.
pub proof fn lemma_activation_round_trip(
    paths: LifecyclePaths,
    original: Option<Seq<char>>,
    port: u16,
    provider_id: Option<String>,
    managed: String,
    st: LifecycleState,
    service_pid: Option<u32>,
    running: Option<u32>,
)
    requires
        fresh_plan(paths, original, port, provider_id, managed, st),
        port != 0,
    ensures
        deactivation_check_ok(
            Some(LifecycleState { pid: service_pid, ..st }),
            paths,
            running,
            Some(managed@),
            Ok::<bool, LifecycleError>(true),
        ),
        check_still_managed_spec(LifecycleState { pid: service_pid, ..st }, Some(managed@)),
        original matches Some(o) ==> (st.original_hash matches Some(h) && hash_of(utf8_bytes(o)) == h@),
        restore_choice(true, st.original_exists, true) == if original is Some {
            RestoreAction::WriteBackup
        } else {
            RestoreAction::RemoveConfig
        },
{
    let st2 = LifecycleState { pid: service_pid, ..st };
    assert(path_eq(st2.config_path@, join(paths.codex_home@, "config.toml"@)));
    assert(path_eq(st2.backup_path@, join(paths.data_dir@, "codex-config.toml.bak"@)));
    assert(state_problem(st2, paths) is None);
    assert(matches_managed(st2, Some(managed@)));
}

/// What `check_still_managed` accepts: the config on disk is the managed one.
pub open spec fn check_still_managed_spec(state: LifecycleState, current: Option<Seq<char>>) -> bool {
    matches_managed(state, current)
}

pub fn restore_action(matches_managed: bool, original_exists: bool, config_exists: bool) -> (res: RestoreAction)
    ensures
        res == restore_choice(matches_managed, original_exists, config_exists),
{
    if matches_managed && original_exists {
        RestoreAction::WriteBackup
    } else if matches_managed && config_exists {
        RestoreAction::RemoveConfig
    } else {
        RestoreAction::Keep
    }
}

/// The answer of a deactivation.
pub fn deactivation_result(state: LifecycleState, pid: Option<u32>) -> (res: DeactivationResult)
    ensures
        res.status@ == "inactive"@,
        res.pid == match pid {
            Some(p) => Some(p),
            None => state.pid,
        },
        res.config_restored,
        res.config_path == state.config_path,
{
    let p = match pid {
        Some(p) => Some(p),
        None => state.pid,
    };
    DeactivationResult { status: owned("inactive"), pid: p, config_restored: true, config_path: state.config_path }
}

} // verus!
