//! The desktop client's own rules: its settings, the language it shows,
//! the route runtime's published state, and the tray menu.
use vstd::prelude::*;

use crate::index::WorkspaceAggregate;
use crate::lifecycle::{LifecycleError, LifecycleStatus};
use crate::paths::{path_eq, path_eq_exec};
use crate::provider::Provider;
use crate::provider::ProviderSummary;
use crate::provider_store::ProviderStore;
use crate::text::{ascii_lower, concat, lower, owned, str_contains, to_ascii_lowercase, trim, trimmed};
use crate::workspace_rule::WorkspaceRouteRule;

verus! {

/// The route's default port.
pub const DEFAULT_ROUTE_PORT: u16 = 16729;

/// Whatever registers the app to launch at login.
pub trait AutostartBackend {
    fn set_enabled(&self, enabled: bool) -> Result<(), String>;
}

/// Asks the backend, once, to register (or unregister) the app to launch
/// at login, and hands back its answer.
pub fn sync_launch_at_login<B: AutostartBackend>(backend: &B, enabled: bool) -> (res: Result<(), String>)
    ensures
        call_ensures(B::set_enabled, (backend, enabled), res),
{
    backend.set_enabled(enabled)
}

#[derive(Debug, Clone, Copy, PartialEq, Eq, Structural)]
pub enum LanguagePreference {
    System,
    ZhCn,
    ZhTw,
    En,
}

#[derive(Debug, Clone, Copy, PartialEq, Eq, Structural)]
pub enum ThemePreference {
    System,
    Light,
    Dark,
}

/// The language preference that a stored setting names; anything unknown
/// is `System`.
pub fn parse_language_preference(value: &str) -> (res: LanguagePreference)
    ensures
        res == if value@ == "zh-CN"@ {
            LanguagePreference::ZhCn
        } else if value@ == "zh-TW"@ {
            LanguagePreference::ZhTw
        } else if value@ == "en"@ {
            LanguagePreference::En
        } else {
            LanguagePreference::System
        },
{
    if crate::text::str_eq(value, "zh-CN") {
        LanguagePreference::ZhCn
    } else if crate::text::str_eq(value, "zh-TW") {
        LanguagePreference::ZhTw
    } else if crate::text::str_eq(value, "en") {
        LanguagePreference::En
    } else {
        LanguagePreference::System
    }
}

/// The theme preference that a stored setting names; anything unknown is
/// `System`.
pub fn parse_theme_preference(value: &str) -> (res: ThemePreference)
    ensures
        res == if value@ == "light"@ {
            ThemePreference::Light
        } else if value@ == "dark"@ {
            ThemePreference::Dark
        } else {
            ThemePreference::System
        },
{
    if crate::text::str_eq(value, "light") {
        ThemePreference::Light
    } else if crate::text::str_eq(value, "dark") {
        ThemePreference::Dark
    } else {
        ThemePreference::System
    }
}

#[derive(Debug, Clone, Copy, PartialEq, Eq, Structural)]
pub struct ClientSettings {
    pub auto_start: bool,
    pub startup_consent_granted: bool,
    pub port: u16,
    pub launch_at_login: bool,
    pub close_to_tray: bool,
    pub language: LanguagePreference,
    pub theme: ThemePreference,
}

impl Default for ClientSettings {
    fn default() -> (res: Self)
        ensures
            res == (ClientSettings {
                auto_start: true,
                startup_consent_granted: false,
                port: 16729,
                launch_at_login: false,
                close_to_tray: true,
                language: LanguagePreference::System,
                theme: ThemePreference::System,
            }),
    {
        ClientSettings {
            auto_start: true,
            startup_consent_granted: false,
            port: DEFAULT_ROUTE_PORT,
            launch_at_login: false,
            close_to_tray: true,
            language: LanguagePreference::System,
            theme: ThemePreference::System,
        }
    }
}

/// The route starts by itself only where the user asked for it and
/// consented.
pub fn should_auto_start(settings: &ClientSettings) -> (res: bool)
    ensures
        res == (settings.auto_start && settings.startup_consent_granted),
{
    settings.auto_start && settings.startup_consent_granted
}

/// Whether new settings may be saved: the route needs a port.
pub fn settings_error(settings: &ClientSettings) -> (res: Option<String>)
    ensures
        match res {
            Some(m) => settings.port == 0 && m@ == "port must be between 1 and 65535"@,
            None => settings.port != 0,
        },
{
    if settings.port == 0 {
        Some(owned("port must be between 1 and 65535"))
    } else {
        None
    }
}

/// What saving new settings asks of the runtime.
#[derive(Debug, Clone, Copy, PartialEq, Eq, Structural)]
pub enum SettingsChange {
    /// Automatic start was switched off: stop the route.
    Stop,
    /// Automatic start was switched on with consent: start the route on the
    /// new port and watch its health.
    Start(u16),
    /// Nothing to do.
    Keep,
}

/// The runtime change that replacing `previous` settings by `next` asks for.
pub fn settings_change(previous: &ClientSettings, next: &ClientSettings) -> (res: SettingsChange)
    ensures
        res == if previous.auto_start && !next.auto_start {
            SettingsChange::Stop
        } else if !previous.auto_start && next.auto_start && next.startup_consent_granted {
            SettingsChange::Start(next.port)
        } else {
            SettingsChange::Keep
        },
{
    if previous.auto_start && !next.auto_start {
        SettingsChange::Stop
    } else if !previous.auto_start && should_auto_start(next) {
        SettingsChange::Start(next.port)
    } else {
        SettingsChange::Keep
    }
}

#[derive(Debug, Clone, Copy, PartialEq, Eq, Structural)]
pub enum ResolvedLocale {
    ZhCn,
    ZhTw,
    En,
}

/// A locale tag as it is compared: trimmed, `_` read as `-`, lower case.
pub open spec fn normalized_locale(locale: Seq<char>) -> Seq<char> {
    ascii_lower(trimmed(locale).map_values(|c: char| if c == '_' { '-' } else { c }))
}

/// The end of the `-`-separated part that starts at `start`.
pub open spec fn part_end(s: Seq<char>, start: int) -> int
    decreases s.len() - start,
{
    if start >= s.len() || start < 0 {
        s.len() as int
    } else if s[start] == '-' {
        start
    } else {
        part_end(s, start + 1)
    }
}

/// The language part of a normalized tag and its second part, if any.
pub open spec fn locale_parts(s: Seq<char>) -> (Seq<char>, Option<Seq<char>>) {
    let e = part_end(s, 0);
    if e >= s.len() {
        (s, None)
    } else {
        (s.subrange(0, e), Some(s.subrange(e + 1, part_end(s, e + 1))))
    }
}

/// The language family of a locale tag: Chinese in its traditional or
/// simplified script by region, else none.
pub open spec fn locale_family_spec(locale: Seq<char>) -> Option<ResolvedLocale> {
    let (lang, region) = locale_parts(normalized_locale(locale));
    if lang != "zh"@ {
        None
    } else {
        match region {
            Some(r) => if r == "tw"@ || r == "hk"@ || r == "mo"@ {
                Some(ResolvedLocale::ZhTw)
            } else if r == "cn"@ || r == "sg"@ || r == "my"@ {
                Some(ResolvedLocale::ZhCn)
            } else {
                None
            },
            None => None,
        }
    }
}

fn part_end_exec(cs: &Vec<char>, start: usize) -> (res: usize)
    requires
        start <= cs@.len(),
    ensures
        res == part_end(cs@, start as int),
        start <= res <= cs@.len(),
{
    let mut i = start;
    while i < cs.len() && cs[i] != '-'
        invariant
            start <= i <= cs@.len(),
            part_end(cs@, start as int) == part_end(cs@, i as int),
        decreases cs@.len() - i,
    {
        i = i + 1;
    }
    i
}

fn str_is(cs: &[char], text: &str) -> (res: bool)
    ensures
        res == (cs@ == text@),
{
    let s = crate::text::string_from_chars(cs);
    crate::text::str_eq(s.as_str(), text)
}

/// The language family of a locale tag.
pub fn locale_family(locale: &str) -> (res: Option<ResolvedLocale>)
    ensures
        res == locale_family_spec(locale@),
{
    let t = trim(locale);
    let tc = crate::text::chars_of(t.as_str());
    let mut cs: Vec<char> = Vec::new();
    let mut i: usize = 0;
    while i < tc.len()
        invariant
            i <= tc@.len(),
            tc@ == trimmed(locale@),
            cs@ == ascii_lower(tc@.take(i as int).map_values(|c: char| if c == '_' { '-' } else { c })),
        decreases tc@.len() - i,
    {
        let c = if tc[i] == '_' {
            '-'
        } else {
            tc[i]
        };
        cs.push(lower(c));
        proof {
            let f = |c: char| if c == '_' { '-' } else { c };
            assert(tc@.take(i + 1).map_values(f) =~= tc@.take(i as int).map_values(f).push(f(tc@[i as int])));
            assert(ascii_lower(tc@.take(i + 1).map_values(f)) =~= ascii_lower(tc@.take(i as int).map_values(f)).push(
                crate::text::lower_char(f(tc@[i as int])),
            ));
        }
        i = i + 1;
    }
    proof {
        assert(tc@.take(i as int) =~= tc@);
    }
    let ghost s = cs@;
    assert(s == normalized_locale(locale@));
    let e = part_end_exec(&cs, 0);
    let lang = crate::text::slice_sub(cs.as_slice(), 0, e);
    if e >= cs.len() {
        assert(lang@ =~= s);
        return None::<ResolvedLocale>;
    }
    if !str_is(lang, "zh") {
        return None;
    }
    let e2 = part_end_exec(&cs, e + 1);
    let region = crate::text::slice_sub(cs.as_slice(), e + 1, e2);
    if str_is(region, "tw") || str_is(region, "hk") || str_is(region, "mo") {
        Some(ResolvedLocale::ZhTw)
    } else if str_is(region, "cn") || str_is(region, "sg") || str_is(region, "my") {
        Some(ResolvedLocale::ZhCn)
    } else {
        None
    }
}

/// The language the client shows: the one the user chose, else the family
/// of the system locale, else English.
pub open spec fn resolved_language(preference: LanguagePreference, system_locale: Option<Seq<char>>) -> ResolvedLocale {
    match preference {
        LanguagePreference::ZhCn => ResolvedLocale::ZhCn,
        LanguagePreference::ZhTw => ResolvedLocale::ZhTw,
        LanguagePreference::En => ResolvedLocale::En,
        LanguagePreference::System => match system_locale {
            Some(l) => match locale_family_spec(l) {
                Some(f) => f,
                None => ResolvedLocale::En,
            },
            None => ResolvedLocale::En,
        },
    }
}

pub fn resolve_language(preference: LanguagePreference, system_locale: Option<&str>) -> (res: ResolvedLocale)
    ensures
        res == resolved_language(preference, crate::lifecycle::opt_str(system_locale)),
{
    match preference {
        LanguagePreference::ZhCn => ResolvedLocale::ZhCn,
        LanguagePreference::ZhTw => ResolvedLocale::ZhTw,
        LanguagePreference::En => ResolvedLocale::En,
        LanguagePreference::System => match system_locale {
            Some(l) => match locale_family(l) {
                Some(f) => f,
                None => ResolvedLocale::En,
            },
            None => ResolvedLocale::En,
        },
    }
}


#[derive(Debug, Clone, Copy, PartialEq, Eq, Structural)]
pub enum RuntimePhase {
    Stopped,
    Starting,
    Running,
    Degraded,
    Recovering,
    BlockedExternalModification,
    Failed,
}

impl RuntimePhase {
    /// The phase's short name in log lines.
    pub open spec fn label_spec(self) -> Seq<char> {
        match self {
            RuntimePhase::Stopped => "stopped"@,
            RuntimePhase::Starting => "starting"@,
            RuntimePhase::Running => "running"@,
            RuntimePhase::Degraded => "degraded"@,
            RuntimePhase::Recovering => "recovering"@,
            RuntimePhase::BlockedExternalModification => "protected"@,
            RuntimePhase::Failed => "failed"@,
        }
    }

    /// The phase's short name in log lines.
    pub fn phase_label(&self) -> (res: &'static str)
        ensures
            res@ == self.label_spec(),
    {
        match self {
            RuntimePhase::Stopped => "stopped",
            RuntimePhase::Starting => "starting",
            RuntimePhase::Running => "running",
            RuntimePhase::Degraded => "degraded",
            RuntimePhase::Recovering => "recovering",
            RuntimePhase::BlockedExternalModification => "protected",
            RuntimePhase::Failed => "failed",
        }
    }
}

/// The tray icon's tooltip for a runtime phase.
pub fn tray_tooltip(phase: RuntimePhase) -> (res: String)
    ensures
        res@ == "Codex Route · "@ + phase.label_spec(),
{
    concat("Codex Route · ", phase.phase_label())
}

#[derive(Debug, PartialEq, Eq)]
pub struct RuntimeSnapshot {
    pub phase: RuntimePhase,
    pub active: bool,
    pub pid: Option<u32>,
    pub port: Option<u16>,
    pub server_reachable: bool,
    pub config_managed: bool,
    pub external_modification: bool,
    pub last_error: Option<String>,
    pub restart_count: u32,
    pub updated_at: i64,
    pub sequence: u64,
}

/// The current time in whole seconds since the Unix epoch (0 before it).
/// Nothing is claimed of the value: it is the clock's.
#[verifier::external_body]
pub fn now_unix_seconds() -> i64 {
    std::time::SystemTime::now().duration_since(std::time::UNIX_EPOCH).unwrap_or_default().as_secs() as i64
}

impl RuntimeSnapshot {
    /// A stopped runtime with nothing known, stamped `now`.
    pub fn stopped(now: i64) -> (res: Self)
        ensures
            res.phase == RuntimePhase::Stopped,
            !res.active,
            res.pid is None,
            res.port is None,
            !res.server_reachable,
            !res.config_managed,
            !res.external_modification,
            res.last_error is None,
            res.restart_count == 0,
            res.updated_at == now,
            res.sequence == 0,
    {
        RuntimeSnapshot {
            phase: RuntimePhase::Stopped,
            active: false,
            pid: None,
            port: None,
            server_reachable: false,
            config_managed: false,
            external_modification: false,
            last_error: None,
            restart_count: 0,
            updated_at: now,
            sequence: 0,
        }
    }
}

impl Default for RuntimeSnapshot {
    /// A stopped runtime, stamped with the current time.
    fn default() -> (res: Self)
        ensures
            res.phase == RuntimePhase::Stopped,
            !res.active,
            res.pid is None,
            res.port is None,
            !res.server_reachable,
            !res.config_managed,
            !res.external_modification,
            res.last_error is None,
            res.restart_count == 0,
            res.sequence == 0,
    {
        RuntimeSnapshot::stopped(now_unix_seconds())
    }
}

impl Clone for RuntimeSnapshot {
    fn clone(&self) -> (res: Self)
        ensures
            res == *self,
    {
        RuntimeSnapshot {
            phase: self.phase,
            active: self.active,
            pid: self.pid,
            port: self.port,
            server_reachable: self.server_reachable,
            config_managed: self.config_managed,
            external_modification: self.external_modification,
            last_error: crate::provider::clone_opt_string(&self.last_error),
            restart_count: self.restart_count,
            updated_at: self.updated_at,
            sequence: self.sequence,
        }
    }
}

#[derive(Debug)]
pub enum RuntimeEvent {
    StatusChanged { snapshot: RuntimeSnapshot },
}

#[derive(Debug, PartialEq, Eq)]
pub enum RuntimeError {
    NotActive,
    ExternalModification,
    RestartLimitReached,
    Lifecycle(String),
}

impl RuntimeError {
    /// The error's message.
    pub fn message(&self) -> (res: String)
        ensures
            match self {
                RuntimeError::NotActive => res@ == "route service is not active"@,
                RuntimeError::ExternalModification => res@ == "runtime is blocked by an external Codex config modification"@,
                RuntimeError::RestartLimitReached => res@ == "runtime restart limit reached"@,
                RuntimeError::Lifecycle(m) => res@ == "route lifecycle failed: "@ + m@,
            },
    {
        match self {
            RuntimeError::NotActive => owned("route service is not active"),
            RuntimeError::ExternalModification => owned("runtime is blocked by an external Codex config modification"),
            RuntimeError::RestartLimitReached => owned("runtime restart limit reached"),
            RuntimeError::Lifecycle(m) => concat("route lifecycle failed: ", m.as_str()),
        }
    }

    /// The runtime error that a lifecycle error stands for.
    pub fn from_lifecycle(error: LifecycleError) -> (res: Self)
        ensures
            match error {
                LifecycleError::ExternalModification => res == RuntimeError::ExternalModification,
                LifecycleError::NotActive => res == RuntimeError::NotActive,
                _ => res matches RuntimeError::Lifecycle(m) && m@ == error.message_spec(),
            },
    {
        match error {
            LifecycleError::ExternalModification => RuntimeError::ExternalModification,
            LifecycleError::NotActive => RuntimeError::NotActive,
            other => RuntimeError::Lifecycle(other.message()),
        }
    }
}

/// Two snapshots say the same thing: they differ at most in when they
/// were taken and in their sequence number.
pub open spec fn same_snapshot_spec(l: RuntimeSnapshot, r: RuntimeSnapshot) -> bool {
    &&& l.phase == r.phase
    &&& l.active == r.active
    &&& l.pid == r.pid
    &&& l.port == r.port
    &&& l.server_reachable == r.server_reachable
    &&& l.config_managed == r.config_managed
    &&& l.external_modification == r.external_modification
    &&& crate::codex_provider::opt_view(l.last_error) == crate::codex_provider::opt_view(r.last_error)
    &&& l.restart_count == r.restart_count
}

pub fn same_snapshot(left: &RuntimeSnapshot, right: &RuntimeSnapshot) -> (res: bool)
    ensures
        res == same_snapshot_spec(*left, *right),
{
    let errors_equal = match (&left.last_error, &right.last_error) {
        (Some(a), Some(b)) => crate::text::str_eq(a.as_str(), b.as_str()),
        (None, None) => true,
        _ => false,
    };
    left.phase == right.phase && left.active == right.active && left.pid == right.pid && left.port == right.port
        && left.server_reachable == right.server_reachable && left.config_managed == right.config_managed
        && left.external_modification == right.external_modification && errors_equal && left.restart_count
        == right.restart_count
}

/// The phase that a failed start leaves the runtime in: blocked by an
/// external modification; degraded where the provider selection is at
/// fault; else failed.
pub open spec fn error_phase_spec(error: RuntimeError) -> RuntimePhase {
    match error {
        RuntimeError::ExternalModification => RuntimePhase::BlockedExternalModification,
        RuntimeError::Lifecycle(m) => {
            let l = ascii_lower(m@);
            if crate::text::contains(l, "no current provider"@) || crate::text::contains(l, "provider configuration"@)
                || crate::text::contains(l, "provider not found"@) {
                RuntimePhase::Degraded
            } else {
                RuntimePhase::Failed
            }
        },
        _ => RuntimePhase::Failed,
    }
}

pub fn error_phase(error: &RuntimeError) -> (res: RuntimePhase)
    ensures
        res == error_phase_spec(*error),
{
    match error {
        RuntimeError::ExternalModification => RuntimePhase::BlockedExternalModification,
        RuntimeError::Lifecycle(message) => {
            let l = to_ascii_lowercase(message.as_str());
            if str_contains(l.as_str(), "no current provider") || str_contains(l.as_str(), "provider configuration")
                || str_contains(l.as_str(), "provider not found") {
                RuntimePhase::Degraded
            } else {
                RuntimePhase::Failed
            }
        },
        _ => RuntimePhase::Failed,
    }
}

/// Seconds to wait before restart attempt `attempt` (counted from 1):
/// doubling from one second, capped at eight.
pub open spec fn restart_delay_spec(attempt: u32) -> u64 {
    let n: int = if attempt == 0 { 0 } else if attempt - 1 > 3 { 3 } else { attempt - 1 };
    if n == 0 {
        1
    } else if n == 1 {
        2
    } else if n == 2 {
        4
    } else {
        8
    }
}

pub fn restart_delay(attempt: u32) -> (res: u64)
    ensures
        res == restart_delay_spec(attempt),
{
    let n = if attempt == 0 {
        0
    } else if attempt - 1 > 3 {
        3
    } else {
        attempt - 1
    };
    assert(n <= 3);
    let r: u64 = 1u64 << n;
    assert(r == restart_delay_spec(attempt)) by (bit_vector)
        requires
            n <= 3,
            r == 1u64 << n,
            n == (if attempt == 0 { 0u32 } else if attempt - 1 > 3 { 3u32 } else { (attempt - 1) as u32 }),
    ;
    r
}

/// The restart delay never exceeds eight seconds and never shrinks from
/// one attempt to the next.
pub proof fn lemma_restart_delay_bounded(a: u32, b: u32)
    requires
        a <= b,
    ensures
        1 <= restart_delay_spec(a) <= 8,
        restart_delay_spec(a) <= restart_delay_spec(b),
{
}

/// Snapshots compare alike whatever their time and sequence number.
pub proof fn lemma_same_snapshot_ignores_stamp(s: RuntimeSnapshot, updated_at: i64, sequence: u64)
    ensures
        same_snapshot_spec(s, RuntimeSnapshot { updated_at, sequence, ..s }),
        same_snapshot_spec(s, s),
{
}


#[derive(Debug)]
pub struct CodexStatus {
    pub home: String,
    pub config_path: String,
    pub installed: bool,
    pub version: Option<String>,
    pub config_exists: bool,
    pub config_managed: bool,
    pub external_modification: bool,
}

#[derive(Debug)]
pub struct WorkspaceSnapshot {
    pub path: String,
    pub exists: bool,
    pub session_id: String,
    pub session_ids: Vec<String>,
    pub thread_ids: Vec<String>,
    pub provider_id: Option<String>,
    pub last_activity: Option<i64>,
    pub conflicting_workspaces: bool,
}

#[derive(Debug, Default)]
pub struct DiagnosticsSummary {
    pub unread_count: usize,
    pub last_error: Option<String>,
}

#[derive(Debug)]
pub struct ClientSnapshot {
    pub schema_version: u16,
    pub sequence: u64,
    pub generated_at: i64,
    pub codex: CodexStatus,
    pub workspaces: Vec<WorkspaceSnapshot>,
    pub workspace: Option<WorkspaceSnapshot>,
    pub provider: Option<ProviderSummary>,
    pub providers: Vec<ProviderSummary>,
    pub rules: Vec<WorkspaceRouteRule>,
    pub runtime: RuntimeSnapshot,
    pub diagnostics: DiagnosticsSummary,
}

#[derive(Debug)]
pub struct ActivateRouteRequest {
    pub provider_id: Option<String>,
    pub port: Option<u16>,
}

#[derive(Debug)]
pub struct UpsertRouteRuleRequest {
    pub workspace: String,
    pub provider_id: String,
    pub replace: bool,
}

#[derive(Debug)]
pub struct SetWorkspaceProviderRequest {
    pub workspace: String,
    pub provider_id: String,
}

#[derive(Debug)]
pub struct CcSwitchProviderCandidate {
    pub id: String,
    pub name: String,
    pub category: Option<String>,
    pub already_imported: bool,
}

/// The provider that a workspace routes to: that of the first rule for
/// the workspace, where that provider exists.
pub open spec fn rule_provider(workspace: Seq<char>, rules: Seq<WorkspaceRouteRule>, providers: Seq<Provider>) -> Option<Seq<char>> {
    if exists|i: int| 0 <= i < rules.len() && path_eq(#[trigger] rules[i].workspace@, workspace) {
        let i = choose|i: int|
            0 <= i < rules.len() && path_eq(#[trigger] rules[i].workspace@, workspace) && forall|j: int|
                0 <= j < i ==> !path_eq(#[trigger] rules[j].workspace@, workspace);
        if exists|k: int| 0 <= k < providers.len() && (#[trigger] providers[k]).id@ == rules[i].provider_id@ {
            Some(rules[i].provider_id@)
        } else {
            None
        }
    } else {
        None
    }
}

/// The client's view of one workspace.
pub fn workspace_snapshot(aggregate: &WorkspaceAggregate, rules: &Vec<WorkspaceRouteRule>, providers: &Vec<Provider>) -> (res:
    WorkspaceSnapshot)
    ensures
        snapshot_of(res, *aggregate, rules@, providers@),
{
    let mut i: usize = 0;
    let mut found: Option<usize> = None;
    while i < rules.len()
        invariant
            i <= rules@.len(),
            found is None,
            forall|j: int| 0 <= j < i ==> !path_eq(#[trigger] rules@[j].workspace@, aggregate.workspace@),
        decreases rules@.len() - i,
    {
        if path_eq_exec(rules[i].workspace.as_str(), aggregate.workspace.as_str()) {
            found = Some(i);
            break;
        }
        i = i + 1;
    }
    let provider_id = match found {
        Some(r) => {
            let rule = &rules[r];
            proof {
                let c = choose|c: int|
                    0 <= c < rules@.len() && path_eq(#[trigger] rules@[c].workspace@, aggregate.workspace@) && forall|j: int|
                        0 <= j < c ==> !path_eq(#[trigger] rules@[j].workspace@, aggregate.workspace@);
                assert(0 <= r < rules@.len() && path_eq(rules@[r as int].workspace@, aggregate.workspace@));
                if c < r {
                    assert(!path_eq(rules@[c].workspace@, aggregate.workspace@));
                } else if c > r {
                    assert(!path_eq(rules@[r as int].workspace@, aggregate.workspace@));
                }
            }
            let mut k: usize = 0;
            let mut exists = false;
            while k < providers.len()
                invariant
                    k <= providers@.len(),
                    !exists,
                    forall|m: int| 0 <= m < k ==> (#[trigger] providers@[m]).id@ != rule.provider_id@,
                decreases providers@.len() - k,
            {
                if crate::text::str_eq(providers[k].id.as_str(), rule.provider_id.as_str()) {
                    exists = true;
                    break;
                }
                k = k + 1;
            }
            if exists {
                Some(rule.provider_id.clone())
            } else {
                None
            }
        },
        None => None,
    };
    let session_id = if aggregate.session_ids.len() > 0 {
        aggregate.session_ids[0].clone()
    } else {
        String::new()
    };
    WorkspaceSnapshot {
        path: aggregate.workspace.clone(),
        exists: aggregate.workspace_exists,
        session_id,
        session_ids: copy_strings(&aggregate.session_ids),
        thread_ids: copy_strings(&aggregate.thread_ids),
        provider_id,
        last_activity: aggregate.last_activity,
        conflicting_workspaces: aggregate.conflicting_sessions,
    }
}

/// `s` is what `workspace_snapshot` makes of `agg`.
pub open spec fn snapshot_of(
    s: WorkspaceSnapshot,
    agg: WorkspaceAggregate,
    rules: Seq<WorkspaceRouteRule>,
    providers: Seq<Provider>,
) -> bool {
    &&& s.path@ == agg.workspace@
    &&& s.exists == agg.workspace_exists
    &&& s.session_id@ == (if agg.session_ids@.len() > 0 {
        agg.session_ids@[0]@
    } else {
        Seq::<char>::empty()
    })
    &&& s.session_ids@ == agg.session_ids@
    &&& s.thread_ids@ == agg.thread_ids@
    &&& crate::codex_provider::opt_view(s.provider_id) == rule_provider(agg.workspace@, rules, providers)
    &&& s.last_activity == agg.last_activity
    &&& s.conflicting_workspaces == agg.conflicting_sessions
}

/// Two workspace snapshots that say the same.
pub open spec fn same_workspace(a: WorkspaceSnapshot, b: WorkspaceSnapshot) -> bool {
    &&& a.path@ == b.path@
    &&& a.exists == b.exists
    &&& a.session_id@ == b.session_id@
    &&& a.session_ids@ == b.session_ids@
    &&& a.thread_ids@ == b.thread_ids@
    &&& a.provider_id == b.provider_id
    &&& a.last_activity == b.last_activity
    &&& a.conflicting_workspaces == b.conflicting_workspaces
}

/// `s` is the summary of provider `p`.
pub open spec fn summary_of(s: ProviderSummary, p: Provider) -> bool {
    &&& s.id == p.id
    &&& s.name == p.name
    &&& s.category == p.category
    &&& s.source@ == p.source.name_spec()
    &&& s.is_current == p.is_current
}

/// `p` is the summary of the first current provider, if there is one.
pub open spec fn current_summary(providers: Seq<Provider>, p: Option<ProviderSummary>) -> bool {
    match p {
        None => forall|i: int| 0 <= i < providers.len() ==> !(#[trigger] providers[i]).is_current,
        Some(s) => exists|i: int|
            0 <= i < providers.len() && (#[trigger] providers[i]).is_current && (forall|j: int|
                0 <= j < i ==> !(#[trigger] providers[j]).is_current) && summary_of(s, providers[i]),
    }
}

fn copy_strings(v: &Vec<String>) -> (res: Vec<String>)
    ensures
        res@ == v@,
{
    let mut out: Vec<String> = Vec::new();
    let mut k: usize = 0;
    while k < v.len()
        invariant
            k <= v@.len(),
            out@ == v@.take(k as int),
        decreases v@.len() - k,
    {
        out.push(v[k].clone());
        assert(v@.take(k + 1) =~= v@.take(k as int).push(v@[k as int]));
        k = k + 1;
    }
    assert(v@.take(k as int) =~= v@);
    out
}

fn copy_workspace(w: &WorkspaceSnapshot) -> (res: WorkspaceSnapshot)
    ensures
        same_workspace(res, *w),
{
    WorkspaceSnapshot {
        path: w.path.clone(),
        exists: w.exists,
        session_id: w.session_id.clone(),
        session_ids: copy_strings(&w.session_ids),
        thread_ids: copy_strings(&w.thread_ids),
        provider_id: crate::provider::clone_opt_string(&w.provider_id),
        last_activity: w.last_activity,
        conflicting_workspaces: w.conflicting_workspaces,
    }
}

impl ClientSnapshot {
    /// The snapshot the client renders: the store's providers and rules,
    /// one row per workspace (the first also given alone), the current
    /// provider, the runtime state and its last error.
    pub fn build(
        store: &ProviderStore,
        workspaces: Vec<WorkspaceAggregate>,
        codex: CodexStatus,
        runtime: RuntimeSnapshot,
        generated_at: i64,
    ) -> (res: Self)
        ensures
            res.schema_version == 1,
            res.sequence == runtime.sequence,
            res.generated_at == generated_at,
            res.codex == codex,
            res.runtime == runtime,
            store.lists_rules(res.rules@),
            exists|listed: Seq<Provider>|
                #![trigger store.lists_providers(listed)]
                store.lists_providers(listed) && res.providers@.len() == listed.len() && (forall|i: int|
                    0 <= i < listed.len() ==> summary_of(#[trigger] res.providers@[i], listed[i])) && current_summary(
                    listed,
                    res.provider,
                ) && res.workspaces@.len() == workspaces@.len() && (forall|i: int|
                    0 <= i < workspaces@.len() ==> snapshot_of(#[trigger] res.workspaces@[i], workspaces@[i], res.rules@, listed)),
            match res.workspace {
                None => workspaces@.len() == 0,
                Some(w) => workspaces@.len() > 0 && same_workspace(w, res.workspaces@[0]),
            },
            res.diagnostics.unread_count == (if runtime.last_error is Some {
                1usize
            } else {
                0usize
            }),
            res.diagnostics.last_error == runtime.last_error,
    {
        let listed = store.list();
        let rules = store.list_route_rules();
        let mut providers: Vec<ProviderSummary> = Vec::new();
        let mut current: Option<ProviderSummary> = None;
        let mut i: usize = 0;
        while i < listed.len()
            invariant
                i <= listed@.len(),
                providers@.len() == i,
                forall|k: int| 0 <= k < i ==> summary_of(#[trigger] providers@[k], listed@[k]),
                match current {
                    None => forall|k: int| 0 <= k < i ==> !(#[trigger] listed@[k]).is_current,
                    Some(s) => exists|k: int|
                        0 <= k < i && (#[trigger] listed@[k]).is_current && (forall|j: int|
                            0 <= j < k ==> !(#[trigger] listed@[j]).is_current) && summary_of(s, listed@[k]),
                },
            decreases listed@.len() - i,
        {
            let summary = ProviderSummary::from(&listed[i]);
            if current.is_none() && listed[i].is_current {
                current = Some(ProviderSummary::from(&listed[i]));
            }
            providers.push(summary);
            i = i + 1;
        }
        let mut rows: Vec<WorkspaceSnapshot> = Vec::new();
        let mut k: usize = 0;
        while k < workspaces.len()
            invariant
                k <= workspaces@.len(),
                rows@.len() == k,
                forall|m: int| 0 <= m < k ==> snapshot_of(#[trigger] rows@[m], workspaces@[m], rules@, listed@),
            decreases workspaces@.len() - k,
        {
            rows.push(workspace_snapshot(&workspaces[k], &rules, &listed));
            k = k + 1;
        }
        let workspace = if rows.len() > 0 {
            Some(copy_workspace(&rows[0]))
        } else {
            None
        };
        let last_error = crate::provider::clone_opt_string(&runtime.last_error);
        let unread_count: usize = if runtime.last_error.is_some() {
            1
        } else {
            0
        };
        ClientSnapshot {
            schema_version: 1,
            sequence: runtime.sequence,
            generated_at,
            codex,
            workspaces: rows,
            workspace,
            provider: current,
            providers,
            rules,
            runtime,
            diagnostics: DiagnosticsSummary { unread_count, last_error },
        }
    }
}

/// The tray menu's items and whether each can be used.
#[derive(Debug, Clone, PartialEq, Eq)]
pub struct TrayMenuModel {
    pub show_window: String,
    pub route_status: String,
    pub route_enabled: bool,
    pub provider_status: String,
    pub provider_enabled: bool,
    pub quit: String,
}

impl TrayMenuModel {
    /// The menu before anything is known: no route, no provider, both
    /// actions disabled.
    pub fn empty() -> (res: Self)
        ensures
            res.show_window@ == "Show Codex Route"@,
            res.route_status@ == "Route unavailable"@,
            !res.route_enabled,
            res.provider_status@ == "Provider: none"@,
            !res.provider_enabled,
            res.quit@ == "Quit Codex Route"@,
    {
        TrayMenuModel {
            show_window: owned("Show Codex Route"),
            route_status: owned("Route unavailable"),
            route_enabled: false,
            provider_status: owned("Provider: none"),
            provider_enabled: false,
            quit: owned("Quit Codex Route"),
        }
    }

    /// The menu for a client snapshot.
    pub fn from_snapshot(snapshot: &ClientSnapshot) -> (res: Self)
        ensures
            res.show_window@ == "Show Codex Route"@,
            res.route_status@ == if snapshot.runtime.active {
                "Stop Route"@
            } else if snapshot.providers@.len() == 0 {
                "Route unavailable"@
            } else {
                "Start Route"@
            },
            res.route_enabled == (!(snapshot.runtime.phase == RuntimePhase::BlockedExternalModification
                || snapshot.runtime.phase == RuntimePhase::Starting || snapshot.runtime.phase
                == RuntimePhase::Recovering) && (snapshot.providers@.len() > 0 || snapshot.runtime.active)),
            res.provider_status@ == match snapshot.provider {
                Some(p) => "Provider: "@ + p.name@,
                None => "Provider: none"@,
            },
            res.provider_enabled == snapshot.provider is Some,
            res.quit@ == "Quit Codex Route"@,
    {
        let route_status = if snapshot.runtime.active {
            owned("Stop Route")
        } else if snapshot.providers.len() == 0 {
            owned("Route unavailable")
        } else {
            owned("Start Route")
        };
        let provider_status = match &snapshot.provider {
            Some(p) => concat("Provider: ", p.name.as_str()),
            None => owned("Provider: none"),
        };
        let phase = snapshot.runtime.phase;
        let blocked = match phase {
            RuntimePhase::BlockedExternalModification | RuntimePhase::Starting | RuntimePhase::Recovering => true,
            _ => false,
        };
        TrayMenuModel {
            show_window: owned("Show Codex Route"),
            route_enabled: !blocked && (snapshot.providers.len() > 0 || snapshot.runtime.active),
            route_status,
            provider_enabled: snapshot.provider.is_some(),
            provider_status,
            quit: owned("Quit Codex Route"),
        }
    }
}


/// The most restarts the health monitor attempts in a row.
pub const MAX_RESTARTS: u32 = 5;

/// Seconds of health after which the restart count starts over.
pub const HEALTHY_RESET_AFTER_SECS: u64 = 60;

/// The snapshot published from a lifecycle status.
pub fn snapshot_from_status(phase: RuntimePhase, status: &LifecycleStatus, error: Option<String>, restart_count: u32, now: i64) -> (res:
    RuntimeSnapshot)
    ensures
        res.phase == phase,
        res.active == status.active,
        res.pid == status.pid,
        res.port == status.port,
        res.server_reachable == status.server_reachable,
        res.config_managed == status.config_managed,
        res.external_modification == status.external_modification,
        res.last_error == error,
        res.restart_count == restart_count,
        res.updated_at == now,
        res.sequence == 0,
{
    RuntimeSnapshot {
        phase,
        active: status.active,
        pid: status.pid,
        port: status.port,
        server_reachable: status.server_reachable,
        config_managed: status.config_managed,
        external_modification: status.external_modification,
        last_error: error,
        restart_count,
        updated_at: now,
        sequence: 0,
    }
}

/// The snapshot published for a phase without a fresh status: the PID is
/// kept only while active, the port and managed flag are kept, and the
/// config counts as externally modified only when blocked by that.
pub fn snapshot_from_phase(
    phase: RuntimePhase,
    current: &RuntimeSnapshot,
    error: Option<String>,
    active: bool,
    restart_count: u32,
    now: i64,
) -> (res: RuntimeSnapshot)
    ensures
        res.phase == phase,
        res.active == active,
        res.pid == if active {
            current.pid
        } else {
            None
        },
        res.port == current.port,
        res.server_reachable == active,
        res.config_managed == current.config_managed,
        res.external_modification == (phase == RuntimePhase::BlockedExternalModification),
        res.last_error == error,
        res.restart_count == restart_count,
        res.updated_at == now,
        res.sequence == 0,
{
    RuntimeSnapshot {
        phase,
        active,
        pid: if active {
            current.pid
        } else {
            None
        },
        port: current.port,
        server_reachable: active,
        config_managed: current.config_managed,
        external_modification: phase == RuntimePhase::BlockedExternalModification,
        last_error: error,
        restart_count,
        updated_at: now,
        sequence: 0,
    }
}

/// Whether a new snapshot is published: not when it says the same as the
/// current one; else with the next sequence number.
pub fn publish_decision(current: &RuntimeSnapshot, next: RuntimeSnapshot, sequence: u64) -> (res: Option<RuntimeSnapshot>)
    ensures
        same_snapshot_spec(*current, next) ==> res is None,
        !same_snapshot_spec(*current, next) ==> res == Some(RuntimeSnapshot { sequence: sequence.wrapping_add(1), ..next }),
{
    if same_snapshot(current, &next) {
        None
    } else {
        Some(RuntimeSnapshot { sequence: sequence.wrapping_add(1), ..next })
    }
}

/// What a health check finds, from the route's lifecycle status and
/// whether its health endpoint answered.
#[derive(Debug, Clone, Copy, PartialEq, Eq, Structural)]
pub enum HealthFinding {
    /// Active but not answering: it is stopped and recovered.
    Unreachable,
    /// The Codex config was changed outside the route.
    Blocked,
    /// Running and answering.
    Running,
    /// Not running: it is restarted.
    Stopped,
}

pub fn health_finding(status: &LifecycleStatus, reachable: bool) -> (res: HealthFinding)
    ensures
        res == if status.active && !reachable {
            HealthFinding::Unreachable
        } else if status.external_modification {
            HealthFinding::Blocked
        } else if status.active {
            HealthFinding::Running
        } else {
            HealthFinding::Stopped
        },
{
    if status.active && !reachable {
        HealthFinding::Unreachable
    } else if status.external_modification {
        HealthFinding::Blocked
    } else if status.active {
        HealthFinding::Running
    } else {
        HealthFinding::Stopped
    }
}

/// How stopping an unreachable route went.
#[derive(Debug)]
pub enum ForcedStop {
    Stopped,
    NotActive,
    ExternalModification,
    Failed(String),
}

/// What follows stopping an unreachable route.
#[derive(Debug)]
pub enum AfterForcedStop {
    /// The status now shows the route stopped; go on checking it.
    Continue(LifecycleStatus),
    /// Blocked by an external modification of the config.
    Blocked(LifecycleStatus),
    /// The stop failed: degraded, with its message.
    Failed(String),
}

pub fn after_forced_stop(status: LifecycleStatus, outcome: ForcedStop) -> (res: AfterForcedStop)
    ensures
        match outcome {
            ForcedStop::Stopped | ForcedStop::NotActive => res == AfterForcedStop::Continue(
                LifecycleStatus { active: false, pid: None, server_reachable: false, config_managed: false, ..status },
            ),
            ForcedStop::ExternalModification => res == AfterForcedStop::Blocked(
                LifecycleStatus { external_modification: true, ..status },
            ),
            ForcedStop::Failed(m) => res == AfterForcedStop::Failed(m),
        },
{
    match outcome {
        ForcedStop::Stopped | ForcedStop::NotActive => AfterForcedStop::Continue(
            LifecycleStatus { active: false, pid: None, server_reachable: false, config_managed: false, ..status },
        ),
        ForcedStop::ExternalModification => AfterForcedStop::Blocked(LifecycleStatus { external_modification: true, ..status }),
        ForcedStop::Failed(m) => AfterForcedStop::Failed(m),
    }
}

/// The restart count and whether the healthy-since time restarts, for a
/// healthy route: after a minute of health the count starts over.
pub fn healthy_bookkeeping(healthy_for_secs: Option<u64>, restart_count: u32) -> (res: (u32, bool))
    ensures
        res == match healthy_for_secs {
            Some(e) => if e >= 60 {
                (0u32, true)
            } else {
                (restart_count, false)
            },
            None => (restart_count, true),
        },
{
    match healthy_for_secs {
        Some(e) => if e >= HEALTHY_RESET_AFTER_SECS {
            (0, true)
        } else {
            (restart_count, false)
        },
        None => (restart_count, true),
    }
}

/// What to do about a route that stopped unexpectedly.
#[derive(Debug, Clone, Copy, PartialEq, Eq, Structural)]
pub enum RestartDecision {
    /// The attempts are used up: failed.
    GiveUp(u32),
    /// Wait this many seconds and start it again (attempt number).
    Retry { attempt: u32, delay_secs: u64 },
}

/// The decision for a route that stopped unexpectedly after
/// `restart_count` restarts: the count goes up by one (wrapping), and the
/// route is retried while that stays within `MAX_RESTARTS`.
pub open spec fn restart_spec(restart_count: u32) -> RestartDecision {
    let next = restart_count.wrapping_add(1);
    if next > 5 {
        RestartDecision::GiveUp(next)
    } else {
        RestartDecision::Retry { attempt: next, delay_secs: restart_delay_spec(next) }
    }
}

/// The restart count after a decision.
pub open spec fn count_after(d: RestartDecision) -> u32 {
    match d {
        RestartDecision::GiveUp(n) => n,
        RestartDecision::Retry { attempt, .. } => attempt,
    }
}

/// How many of `n` failures in a row, with no healthy minute between them,
/// are retried, starting from `restart_count` restarts.
pub open spec fn retries_in_run(restart_count: u32, n: nat) -> nat
    decreases n,
{
    if n == 0 {
        0
    } else {
        let d = restart_spec(restart_count);
        (if d is Retry {
            1nat
        } else {
            0nat
        }) + retries_in_run(count_after(d), (n - 1) as nat)
    }
}

/// A route that keeps failing is restarted at most `MAX_RESTARTS` times:
/// of `n` failures in a row from `c` restarts, `min(n, 5 - c)` are retried
/// and the rest given up (as long as the count does not wrap).
pub proof fn lemma_restarts_bounded(c: u32, n: nat)
    requires
        c + n <= u32::MAX,
    ensures
        retries_in_run(c, n) == if c >= 5 {
            0
        } else if n <= 5 - c {
            n
        } else {
            (5 - c) as nat
        },
    decreases n,
{
    if n > 0 {
        assert(c.wrapping_add(1) == c + 1) by {
            assert(c < u32::MAX);
        }
        lemma_restarts_bounded((c + 1) as u32, (n - 1) as nat);
    }
}

pub fn restart_decision(restart_count: u32) -> (res: RestartDecision)
    ensures
        res == restart_spec(restart_count),
{
    let next = restart_count.wrapping_add(1);
    if next > MAX_RESTARTS {
        RestartDecision::GiveUp(next)
    } else {
        RestartDecision::Retry { attempt: next, delay_secs: restart_delay(next) }
    }
}

/// The diagnostic message of a restart attempt.
pub fn recovering_message(attempt: u32) -> (res: String)
    ensures
        res@ == "Route stopped unexpectedly; restart attempt "@ + crate::numfmt::dec(attempt as nat) + "/5"@,
{
    let a = concat("Route stopped unexpectedly; restart attempt ", crate::numfmt::decimal(attempt as u128).as_str());
    concat(a.as_str(), "/5")
}

/// The phase that a failed restart or stop leaves, and whether the route
/// should stay stopped: blocked (and stopped) by an external modification,
/// else degraded.
pub fn failure_phase(error: &RuntimeError) -> (res: (RuntimePhase, bool))
    ensures
        res == if *error == RuntimeError::ExternalModification {
            (RuntimePhase::BlockedExternalModification, true)
        } else {
            (RuntimePhase::Degraded, false)
        },
{
    match error {
        RuntimeError::ExternalModification => (RuntimePhase::BlockedExternalModification, true),
        _ => (RuntimePhase::Degraded, false),
    }
}

/// The phase after stopping the route on request.
pub fn stop_phase(result: &Result<(), LifecycleError>) -> (res: RuntimePhase)
    ensures
        res == match result {
            Ok(()) => RuntimePhase::Stopped,
            Err(LifecycleError::NotActive) => RuntimePhase::Stopped,
            Err(LifecycleError::ExternalModification) => RuntimePhase::BlockedExternalModification,
            Err(_) => RuntimePhase::Degraded,
        },
{
    match result {
        Ok(()) => RuntimePhase::Stopped,
        Err(LifecycleError::NotActive) => RuntimePhase::Stopped,
        Err(LifecycleError::ExternalModification) => RuntimePhase::BlockedExternalModification,
        Err(_) => RuntimePhase::Degraded,
    }
}

#[derive(Debug, Clone, Copy, PartialEq, Eq, Structural)]
pub enum DiagnosticSeverity {
    Info,
    Warning,
    Error,
}

/// What the client does on startup about the route.
#[derive(Debug, Clone, Copy, PartialEq, Eq, Structural)]
pub enum StartupAction {
    /// Start it on this port.
    Start(u16),
    /// Ask the user for consent first (the route shows as degraded).
    AskConsent,
    /// Nothing.
    Nothing,
}

pub fn startup_action(settings: &ClientSettings) -> (res: StartupAction)
    ensures
        res == if settings.auto_start && settings.startup_consent_granted {
            StartupAction::Start(settings.port)
        } else if !settings.startup_consent_granted {
            StartupAction::AskConsent
        } else {
            StartupAction::Nothing
        },
{
    if should_auto_start(settings) {
        StartupAction::Start(settings.port)
    } else if !settings.startup_consent_granted {
        StartupAction::AskConsent
    } else {
        StartupAction::Nothing
    }
}

/// The severity of a failed automatic start: a warning where an external
/// config change blocks it, else an error.
pub fn start_failure_severity(error: &RuntimeError) -> (res: DiagnosticSeverity)
    ensures
        res == if *error == RuntimeError::ExternalModification {
            DiagnosticSeverity::Warning
        } else {
            DiagnosticSeverity::Error
        },
{
    match error {
        RuntimeError::ExternalModification => DiagnosticSeverity::Warning,
        _ => DiagnosticSeverity::Error,
    }
}

/// The message recorded when a cc-switch scan found providers.
pub fn scan_ready_message(count: usize) -> (res: String)
    ensures
        res@ == "Discovered "@ + crate::numfmt::dec(count as nat) + " importable cc-switch providers"@,
{
    let a = concat("Discovered ", crate::numfmt::decimal(count as u128).as_str());
    concat(a.as_str(), " importable cc-switch providers")
}

} // verus!

verus! {

/// The unread count of diagnostics: the records that are not
/// informational.
pub open spec fn unread_in(records: Seq<crate::diagnostics::RecordView>) -> nat
    decreases records.len(),
{
    if records.len() == 0 {
        0
    } else {
        unread_in(records.drop_last()) + if records.last().severity != DiagnosticSeverity::Info {
            1nat
        } else {
            0nat
        }
    }
}

/// The message of the first error record, if there is one.
pub open spec fn first_error(records: Seq<crate::diagnostics::RecordView>) -> Option<Seq<char>>
    decreases records.len(),
{
    if records.len() == 0 {
        None
    } else if records[0].severity == DiagnosticSeverity::Error {
        Some(records[0].message)
    } else {
        first_error(records.drop_first())
    }
}

/// The diagnostics summary the client shows beside a snapshot: how many of
/// the recent records are not informational, and the message of the first
/// error among them, else the runtime's last error.
pub fn diagnostics_summary(records: &Vec<crate::diagnostics::DiagnosticRecord>, runtime_last_error: &Option<String>) -> (res:
    DiagnosticsSummary)
    ensures
        res.unread_count == unread_in(crate::diagnostics::record_views(records@)),
        crate::codex_provider::opt_view(res.last_error) == match first_error(crate::diagnostics::record_views(records@)) {
            Some(m) => Some(m),
            None => crate::codex_provider::opt_view(*runtime_last_error),
        },
{
    let ghost rv = crate::diagnostics::record_views(records@);
    let mut unread: usize = 0;
    let mut i: usize = 0;
    while i < records.len()
        invariant
            i <= records@.len(),
            rv == crate::diagnostics::record_views(records@),
            unread == unread_in(rv.take(i as int)),
            unread <= i,
        decreases records@.len() - i,
    {
        proof {
            assert(rv.take(i + 1).drop_last() =~= rv.take(i as int));
            assert(rv.take(i + 1).last() == records@[i as int].view());
        }
        if records[i].severity != DiagnosticSeverity::Info {
            unread = unread + 1;
        }
        i = i + 1;
    }
    assert(rv.take(i as int) =~= rv);
    let mut last_error: Option<String> = None;
    let mut j: usize = 0;
    while j < records.len() && last_error.is_none()
        invariant
            j <= records@.len(),
            rv == crate::diagnostics::record_views(records@),
            match last_error {
                Some(m) => first_error(rv) == Some(m@),
                None => first_error(rv) == first_error(rv.skip(j as int)),
            },
        decreases records@.len() - j,
    {
        assert(rv.skip(j as int).drop_first() =~= rv.skip(j + 1));
        assert(rv.skip(j as int)[0] == records@[j as int].view());
        if records[j].severity == DiagnosticSeverity::Error {
            last_error = Some(records[j].message.clone());
        }
        j = j + 1;
    }
    let last_error = match last_error {
        Some(m) => Some(m),
        None => {
            assert(rv.skip(j as int).len() == 0);
            crate::provider::clone_opt_string(runtime_last_error)
        },
    };
    DiagnosticsSummary { unread_count: unread, last_error }
}

/// The provider IDs of an import request: trimmed, blank ones dropped; an
/// error where none is left.
pub fn import_provider_ids(raw: &Vec<String>) -> (res: Result<Vec<String>, String>)
    ensures
        match res {
            Ok(ids) => ids@.len() > 0 && crate::sets::views(ids@) == kept_ids(crate::sets::views(raw@)),
            Err(m) => kept_ids(crate::sets::views(raw@)).len() == 0 && m@
                == "providerIds must contain at least one provider"@,
        },
{
    let ghost rv = crate::sets::views(raw@);
    let mut ids: Vec<String> = Vec::new();
    let mut i: usize = 0;
    while i < raw.len()
        invariant
            i <= raw@.len(),
            rv == crate::sets::views(raw@),
            crate::sets::views(ids@) =~= kept_ids(rv.take(i as int)),
        decreases raw@.len() - i,
    {
        proof {
            assert(rv.take(i + 1).drop_last() =~= rv.take(i as int));
            assert(rv.take(i + 1).last() == raw@[i as int]@);
        }
        if !crate::text::is_blank_str(raw[i].as_str()) {
            let t = trim(raw[i].as_str());
            let ghost before = crate::sets::views(ids@);
            ids.push(t);
            assert(crate::sets::views(ids@) =~= before.push(trimmed(raw@[i as int]@)));
        }
        i = i + 1;
    }
    assert(rv.take(i as int) =~= rv);
    if ids.len() == 0 {
        return Err(owned("providerIds must contain at least one provider"));
    }
    Ok(ids)
}

/// The trimmed IDs that are not blank, in order.
pub open spec fn kept_ids(raw: Seq<Seq<char>>) -> Seq<Seq<char>>
    decreases raw.len(),
{
    if raw.len() == 0 {
        Seq::empty()
    } else if trimmed(raw.last()).len() > 0 {
        kept_ids(raw.drop_last()).push(trimmed(raw.last()))
    } else {
        kept_ids(raw.drop_last())
    }
}

/// A provider ID that a desktop command was given: trimmed; an error where
/// it is blank.
pub fn required_provider_id(raw: &str) -> (res: Result<String, String>)
    ensures
        match res {
            Ok(id) => trimmed(raw@).len() > 0 && id@ == trimmed(raw@),
            Err(m) => trimmed(raw@).len() == 0 && m@ == "providerId must not be empty"@,
        },
{
    if crate::text::is_blank_str(raw) {
        Err(owned("providerId must not be empty"))
    } else {
        Ok(trim(raw))
    }
}

/// The result of scanning the cc-switch database, as the client shows it.
#[derive(Debug)]
pub struct CcSwitchScanReport {
    pub source: String,
    pub providers: Vec<CcSwitchProviderCandidate>,
    pub rejected: Vec<crate::cc_switch_import::RejectedProvider>,
}

/// The candidate row the client shows for an importable provider: its
/// cc-switch ID, name and category, and whether the store already holds
/// an import of it.
pub open spec fn candidate_row(store: ProviderStore, c: crate::cc_switch_import::ImportCandidate, row: CcSwitchProviderCandidate) -> bool {
    &&& c.provider.source.id_spec() == Some(row.id@)
    &&& row.name == c.provider.name
    &&& row.category == c.provider.category
    &&& row.already_imported == crate::provider_store::has_source(store.rows_spec(), row.id@)
}

/// The scan report of the cc-switch candidates against the store.  Every
/// candidate comes from cc-switch and so carries its source ID.
pub fn cc_switch_scan_report(store: &ProviderStore, scan: crate::cc_switch_import::ImportScan) -> (res: CcSwitchScanReport)
    requires
        store.wf(),
        forall|i: int| 0 <= i < scan.candidates@.len() ==> (#[trigger] scan.candidates@[i]).provider.source.id_spec() is Some,
    ensures
        res.source == scan.source,
        res.rejected == scan.rejected,
        res.providers@.len() == scan.candidates@.len(),
        forall|i: int| 0 <= i < scan.candidates@.len() ==> candidate_row(*store, scan.candidates@[i], #[trigger] res.providers@[i]),
{
    let mut providers: Vec<CcSwitchProviderCandidate> = Vec::new();
    let mut i: usize = 0;
    while i < scan.candidates.len()
        invariant
            i <= scan.candidates@.len(),
            store.wf(),
            forall|k: int| 0 <= k < scan.candidates@.len() ==> (#[trigger] scan.candidates@[k]).provider.source.id_spec() is Some,
            providers@.len() == i,
            forall|k: int| 0 <= k < i ==> candidate_row(*store, scan.candidates@[k], #[trigger] providers@[k]),
        decreases scan.candidates@.len() - i,
    {
        let c = &scan.candidates[i];
        assert(c.provider.source.id_spec() is Some);
        let id = match c.provider.source.source_id() {
            Some(s) => owned(s),
            None => owned(""),
        };
        let already_imported = store.find_imported(id.as_str()).is_some();
        providers.push(CcSwitchProviderCandidate {
            id,
            name: c.provider.name.clone(),
            category: crate::provider::clone_opt_string(&c.provider.category),
            already_imported,
        });
        i = i + 1;
    }
    CcSwitchScanReport { source: scan.source, providers, rejected: scan.rejected }
}

} // verus!
