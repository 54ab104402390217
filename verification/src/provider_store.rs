//! The provider catalog that codex-route keeps: providers (local and
//! imported from cc-switch) and workspace route rules, with the rules that
//! every change to it keeps.  The catalog is held in memory; the database
//! that persists it is read into it and written from it around each
//! operation.
use vstd::prelude::*;

use crate::cc_switch_import::{ConflictPolicy, ImportCandidate, ImportReport, ImportScan, RejectedProvider};
use crate::numfmt::{dec, decimal};
use crate::provider::{clone_opt_string, Provider, ProviderSource};
use crate::text::{concat, int_order, lemma_int_order, lemma_lex_ord, lemma_tie_trans, lex, lex_str, ord_trans, owned, str_eq, Order};
use crate::workspace_rule::{normalize_workspace_path, normalized_spec, WorkspacePathError, WorkspaceRouteRule};

verus! {

#[derive(Debug)]
pub enum ProviderStoreError {
    Io(String),
    Sqlite(String),
    Json(String),
    LockPoisoned,
    AlreadyExists(String),
    NotImported(String),
    UnsupportedSchemaVersion(i32),
    ProviderNotFound(String),
    RouteRuleAlreadyExists(String),
    RouteRuleNotFound(String),
    InvalidWorkspace(WorkspacePathError),
}

impl ProviderStoreError {
    /// The error's message, as its `Display` gives it.
    pub open spec fn message_spec(self) -> Seq<char> {
        match self {
            ProviderStoreError::Io(m) => "provider database I/O error: "@ + m@,
            ProviderStoreError::Sqlite(m) => "provider database error: "@ + m@,
            ProviderStoreError::Json(m) => "provider JSON error: "@ + m@,
            ProviderStoreError::LockPoisoned => "provider database lock is poisoned"@,
            ProviderStoreError::AlreadyExists(id) => "provider '"@ + id@ + "' already exists"@,
            ProviderStoreError::NotImported(id) => "provider '"@ + id@ + "' is not a cc-switch import"@,
            ProviderStoreError::UnsupportedSchemaVersion(v) => "unsupported provider database schema version "@ + if v < 0 {
                "-"@ + dec((0 - v) as nat)
            } else {
                dec(v as nat)
            },
            ProviderStoreError::ProviderNotFound(id) => "provider '"@ + id@ + "' was not found"@,
            ProviderStoreError::RouteRuleAlreadyExists(w) => "workspace route already exists: "@ + w@,
            ProviderStoreError::RouteRuleNotFound(w) => "workspace route was not found: "@ + w@,
            ProviderStoreError::InvalidWorkspace(e) => e.message_spec(),
        }
    }

    /// The error's message.
    pub fn message(&self) -> (res: String)
        ensures
            res@ == self.message_spec(),
    {
        match self {
            ProviderStoreError::Io(m) => concat("provider database I/O error: ", m.as_str()),
            ProviderStoreError::Sqlite(m) => concat("provider database error: ", m.as_str()),
            ProviderStoreError::Json(m) => concat("provider JSON error: ", m.as_str()),
            ProviderStoreError::LockPoisoned => owned("provider database lock is poisoned"),
            ProviderStoreError::AlreadyExists(id) => {
                let a = concat("provider '", id.as_str());
                concat(a.as_str(), "' already exists")
            },
            ProviderStoreError::NotImported(id) => {
                let a = concat("provider '", id.as_str());
                concat(a.as_str(), "' is not a cc-switch import")
            },
            ProviderStoreError::UnsupportedSchemaVersion(v) => {
                let text = if *v < 0 {
                    concat("-", decimal((0i64 - (*v as i64)) as u128).as_str())
                } else {
                    decimal(*v as u128)
                };
                concat("unsupported provider database schema version ", text.as_str())
            },
            ProviderStoreError::ProviderNotFound(id) => {
                let a = concat("provider '", id.as_str());
                concat(a.as_str(), "' was not found")
            },
            ProviderStoreError::RouteRuleAlreadyExists(w) => concat("workspace route already exists: ", w.as_str()),
            ProviderStoreError::RouteRuleNotFound(w) => concat("workspace route was not found: ", w.as_str()),
            ProviderStoreError::InvalidWorkspace(e) => e.message(),
        }
    }
}

#[derive(Debug, Clone, Copy, PartialEq, Eq, Structural)]
pub enum UpsertOutcome {
    Inserted,
    Replaced,
    Skipped,
    Renamed,
}

#[derive(Debug, Clone, Copy, PartialEq, Eq, Structural)]
pub enum UpsertRouteRuleOutcome {
    Inserted,
    Replaced,
}

/// A provider row with the time it was written.
#[derive(Debug)]
pub struct StoredProvider {
    pub provider: Provider,
    pub imported_at: i64,
}

pub open spec fn ids_of(rows: Seq<StoredProvider>) -> Seq<Seq<char>> {
    rows.map_values(|r: StoredProvider| r.provider.id@)
}

/// The database's constraints: provider IDs are unique, cc-switch source
/// IDs are unique among imported providers, and there is one rule per
/// workspace.
pub open spec fn catalog_wf(rows: Seq<StoredProvider>, rules: Seq<WorkspaceRouteRule>) -> bool {
    &&& forall|i: int, j: int|
        0 <= i < rows.len() && 0 <= j < rows.len() && i != j ==> #[trigger] rows[i].provider.id@
            != #[trigger] rows[j].provider.id@
    &&& forall|i: int, j: int|
        0 <= i < rows.len() && 0 <= j < rows.len() && i != j && (#[trigger] rows[i]).provider.source.id_spec() is Some
            ==> rows[i].provider.source.id_spec() != (#[trigger] rows[j]).provider.source.id_spec()
    &&& forall|i: int, j: int|
        0 <= i < rules.len() && 0 <= j < rules.len() && i != j ==> #[trigger] rules[i].workspace@
            != #[trigger] rules[j].workspace@
}

/// Whether a provider with this ID is stored.
pub open spec fn has_id(rows: Seq<StoredProvider>, id: Seq<char>) -> bool {
    exists|i: int| 0 <= i < rows.len() && (#[trigger] rows[i]).provider.id@ == id
}

/// Whether a provider imported from this cc-switch ID is stored.
pub open spec fn has_source(rows: Seq<StoredProvider>, sid: Seq<char>) -> bool {
    exists|i: int| 0 <= i < rows.len() && (#[trigger] rows[i]).provider.source.id_spec() == Some(sid)
}

/// Whether some provider is current.
pub open spec fn any_current(rows: Seq<StoredProvider>) -> bool {
    exists|i: int| 0 <= i < rows.len() && (#[trigger] rows[i]).provider.is_current
}

pub struct ProviderStore {
    path: String,
    rows: Vec<StoredProvider>,
    rules: Vec<WorkspaceRouteRule>,
}

impl ProviderStore {
    pub closed spec fn rows_spec(self) -> Seq<StoredProvider> {
        self.rows@
    }

    pub closed spec fn rules_spec(self) -> Seq<WorkspaceRouteRule> {
        self.rules@
    }

    pub closed spec fn path_spec(self) -> Seq<char> {
        self.path@
    }

    pub open spec fn wf(self) -> bool {
        catalog_wf(self.rows_spec(), self.rules_spec())
    }

    /// The catalog read from a database: `None` where the rows break its
    /// constraints.
    pub fn from_rows(path: String, rows: Vec<StoredProvider>, rules: Vec<WorkspaceRouteRule>) -> (res: Option<Self>)
        ensures
            match res {
                Some(s) => s.wf() && s.rows_spec() == rows@ && s.rules_spec() == rules@ && s.path_spec() == path@,
                None => !catalog_wf(rows@, rules@),
            },
    {
        let n = rows.len();
        let mut i: usize = 0;
        while i < n
            invariant
                i <= n == rows@.len(),
                forall|a: int, b: int|
                    0 <= a < i && 0 <= b < n && a != b ==> #[trigger] rows@[a].provider.id@ != #[trigger] rows@[b].provider.id@,
                forall|a: int, b: int|
                    0 <= a < i && 0 <= b < n && a != b && (#[trigger] rows@[a]).provider.source.id_spec() is Some
                        ==> rows@[a].provider.source.id_spec() != (#[trigger] rows@[b]).provider.source.id_spec(),
            decreases n - i,
        {
            let mut j: usize = 0;
            while j < n
                invariant
                    i < n == rows@.len(),
                    j <= n,
                    forall|b: int| 0 <= b < j && i != b ==> rows@[i as int].provider.id@ != #[trigger] rows@[b].provider.id@,
                    forall|b: int|
                        0 <= b < j && i != b && rows@[i as int].provider.source.id_spec() is Some
                            ==> rows@[i as int].provider.source.id_spec() != (#[trigger] rows@[b]).provider.source.id_spec(),
                decreases n - j,
            {
                if i != j {
                    if str_eq(rows[i].provider.id.as_str(), rows[j].provider.id.as_str()) {
                        return None;
                    }
                    match (rows[i].provider.source.source_id(), rows[j].provider.source.source_id()) {
                        (Some(a), Some(b)) => {
                            if str_eq(a, b) {
                                return None;
                            }
                        },
                        _ => {},
                    }
                }
                j = j + 1;
            }
            i = i + 1;
        }
        let m = rules.len();
        let mut i: usize = 0;
        while i < m
            invariant
                i <= m == rules@.len(),
                forall|a: int, b: int|
                    0 <= a < i && 0 <= b < m && a != b ==> #[trigger] rules@[a].workspace@ != #[trigger] rules@[b].workspace@,
            decreases m - i,
        {
            let mut j: usize = 0;
            while j < m
                invariant
                    i < m == rules@.len(),
                    j <= m,
                    forall|b: int| 0 <= b < j && i != b ==> rules@[i as int].workspace@ != #[trigger] rules@[b].workspace@,
                decreases m - j,
            {
                if i != j && str_eq(rules[i].workspace.as_str(), rules[j].workspace.as_str()) {
                    return None;
                }
                j = j + 1;
            }
            i = i + 1;
        }
        Some(ProviderStore { path, rows, rules })
    }

    pub fn path(&self) -> (res: &str)
        ensures
            res@ == self.path_spec(),
    {
        self.path.as_str()
    }

    /// The stored provider rows, in storage order.
    pub fn stored_rows(&self) -> (res: &Vec<StoredProvider>)
        ensures
            res@ == self.rows_spec(),
    {
        &self.rows
    }

    /// The stored route rules, in storage order.
    pub fn stored_rules(&self) -> (res: &Vec<WorkspaceRouteRule>)
        ensures
            res@ == self.rules_spec(),
    {
        &self.rules
    }

    fn index_of(&self, id: &str) -> (res: Option<usize>)
        ensures
            match res {
                Some(i) => i < self.rows@.len() && self.rows@[i as int].provider.id@ == id@,
                None => !has_id(self.rows@, id@),
            },
    {
        let mut i: usize = 0;
        while i < self.rows.len()
            invariant
                i <= self.rows@.len(),
                forall|j: int| 0 <= j < i ==> (#[trigger] self.rows@[j]).provider.id@ != id@,
            decreases self.rows@.len() - i,
        {
            if str_eq(self.rows[i].provider.id.as_str(), id) {
                return Some(i);
            }
            i = i + 1;
        }
        None
    }

    fn index_of_source(&self, source_id: &str) -> (res: Option<usize>)
        ensures
            match res {
                Some(i) => i < self.rows@.len() && self.rows@[i as int].provider.source.id_spec() == Some(source_id@),
                None => !has_source(self.rows@, source_id@),
            },
    {
        let mut i: usize = 0;
        while i < self.rows.len()
            invariant
                i <= self.rows@.len(),
                forall|j: int| 0 <= j < i ==> (#[trigger] self.rows@[j]).provider.source.id_spec() != Some(source_id@),
            decreases self.rows@.len() - i,
        {
            match self.rows[i].provider.source.source_id() {
                Some(s) => {
                    if str_eq(s, source_id) {
                        return Some(i);
                    }
                },
                None => {},
            }
            i = i + 1;
        }
        None
    }

    /// The provider with this ID.
    pub fn get(&self, id: &str) -> (res: Option<Provider>)
        requires
            self.wf(),
        ensures
            match res {
                Some(p) => exists|i: int|
                    0 <= i < self.rows_spec().len() && #[trigger] self.rows_spec()[i].provider == p && p.id@ == id@,
                None => !has_id(self.rows_spec(), id@),
            },
    {
        match self.index_of(id) {
            Some(i) => Some(self.rows[i].provider.clone()),
            None => None,
        }
    }

    /// Whether some provider is current.
    pub fn has_current(&self) -> (res: bool)
        ensures
            res == any_current(self.rows_spec()),
    {
        let mut i: usize = 0;
        while i < self.rows.len()
            invariant
                i <= self.rows@.len(),
                forall|j: int| 0 <= j < i ==> !(#[trigger] self.rows@[j]).provider.is_current,
            decreases self.rows@.len() - i,
        {
            if self.rows[i].provider.is_current {
                return true;
            }
            i = i + 1;
        }
        false
    }

    /// The provider imported from this cc-switch ID.
    pub fn find_imported(&self, source_id: &str) -> (res: Option<Provider>)
        requires
            self.wf(),
        ensures
            match res {
                Some(p) => exists|i: int|
                    0 <= i < self.rows_spec().len() && #[trigger] self.rows_spec()[i].provider == p
                        && p.source.id_spec() == Some(source_id@),
                None => !has_source(self.rows_spec(), source_id@),
            },
    {
        match self.index_of_source(source_id) {
            Some(i) => Some(self.rows[i].provider.clone()),
            None => None,
        }
    }

    /// Adds a provider, written at `now`; an error where its ID, or the
    /// cc-switch ID it was imported from, is taken.
    pub fn insert(&mut self, provider: &Provider, now: i64) -> (res: Result<(), ProviderStoreError>)
        requires
            old(self).wf(),
        ensures
            final(self).wf(),
            final(self).path_spec() == old(self).path_spec(),
            final(self).rules_spec() == old(self).rules_spec(),
            match res {
                Ok(()) => {
                    &&& !has_id(old(self).rows_spec(), provider.id@)
                    &&& !(provider.source.id_spec() matches Some(s) && has_source(old(self).rows_spec(), s))
                    &&& final(self).rows_spec() == old(self).rows_spec().push(
                        StoredProvider { provider: *provider, imported_at: now },
                    )
                },
                Err(e) => {
                    &&& (has_id(old(self).rows_spec(), provider.id@) || (provider.source.id_spec() matches Some(s)
                        && has_source(old(self).rows_spec(), s)))
                    &&& e matches ProviderStoreError::AlreadyExists(x) && x@ == provider.id@
                    &&& final(self).rows_spec() == old(self).rows_spec()
                },
            },
    {
        if self.index_of(provider.id.as_str()).is_some() {
            return Err(ProviderStoreError::AlreadyExists(provider.id.clone()));
        }
        match provider.source.source_id() {
            Some(s) => {
                if self.index_of_source(s).is_some() {
                    return Err(ProviderStoreError::AlreadyExists(provider.id.clone()));
                }
            },
            None => {},
        }
        self.rows.push(StoredProvider { provider: provider.clone(), imported_at: now });
        Ok(())
    }
}


/// The `n`th ID tried for a provider imported from cc-switch ID `s` whose
/// own ID is taken: `ccswitch-<s>`, then `ccswitch-<s>-2`, `-3`, ...
pub open spec fn cand_id(s: Seq<char>, n: nat) -> Seq<char> {
    if n <= 1 {
        "ccswitch-"@ + s
    } else {
        "ccswitch-"@ + s + "-"@ + dec(n)
    }
}

/// `n` is the first try whose ID is free.
pub open spec fn first_free(rows: Seq<StoredProvider>, s: Seq<char>, n: nat) -> bool {
    &&& n >= 1
    &&& !has_id(rows, cand_id(s, n))
    &&& forall|m: nat| 1 <= m < n ==> has_id(rows, #[trigger] cand_id(s, m))
}

proof fn lemma_dec_len(n: nat)
    ensures
        dec(n).len() >= 1,
        n >= 10 ==> dec(n).len() >= 2,
    decreases n,
{
    if n >= 10 {
        lemma_dec_len(n / 10);
    }
}

proof fn lemma_digit_injective(a: nat, b: nat)
    requires
        a < 10,
        b < 10,
        crate::numfmt::digit_char(a) == crate::numfmt::digit_char(b),
    ensures
        a == b,
{
    assert(crate::numfmt::digit_char(a) as u32 == a + 48);
    assert(crate::numfmt::digit_char(b) as u32 == b + 48);
}

proof fn lemma_dec_injective(n: nat, m: nat)
    requires
        dec(n) == dec(m),
    ensures
        n == m,
    decreases n,
{
    lemma_dec_len(n);
    lemma_dec_len(m);
    lemma_dec_len(n / 10);
    lemma_dec_len(m / 10);
    if n < 10 && m < 10 {
        assert(dec(n) == seq![crate::numfmt::digit_char(n)]);
        assert(dec(m) == seq![crate::numfmt::digit_char(m)]);
        let dn = crate::numfmt::digit_char(n);
        let dm = crate::numfmt::digit_char(m);
        assert(seq![dn][0] == dn);
        assert(seq![dm][0] == dm);
        assert(dn == dm);
        lemma_digit_injective(n, m);
    } else if n >= 10 && m >= 10 {
        assert(dec(n) == dec(n / 10).push(crate::numfmt::digit_char(n % 10)));
        assert(dec(m) == dec(m / 10).push(crate::numfmt::digit_char(m % 10)));
        let dn = crate::numfmt::digit_char(n % 10);
        let dm = crate::numfmt::digit_char(m % 10);
        assert(dec(n / 10).push(dn).last() == dn);
        assert(dec(m / 10).push(dm).last() == dm);
        assert(dn == dm);
        lemma_digit_injective(n % 10, m % 10);
        assert(dec(n).drop_last() =~= dec(n / 10));
        assert(dec(m).drop_last() =~= dec(m / 10));
        lemma_dec_injective(n / 10, m / 10);
    } else {
        assert(dec(n).len() != dec(m).len());
    }
}

proof fn lemma_cand_injective(s: Seq<char>, n: nat, m: nat)
    requires
        n >= 1,
        m >= 1,
        cand_id(s, n) == cand_id(s, m),
    ensures
        n == m,
{
    reveal_strlit("ccswitch-");
    reveal_strlit("-");
    let p = "ccswitch-"@ + s + "-"@;
    if n > 1 && m > 1 {
        assert(cand_id(s, n) =~= p + dec(n));
        assert(cand_id(s, m) =~= p + dec(m));
        assert(dec(n) =~= cand_id(s, n).subrange(p.len() as int, cand_id(s, n).len() as int));
        assert(dec(m) =~= cand_id(s, m).subrange(p.len() as int, cand_id(s, m).len() as int));
        lemma_dec_injective(n, m);
    } else if n > 1 || m > 1 {
        lemma_dec_len(n);
        lemma_dec_len(m);
        assert(cand_id(s, n).len() != cand_id(s, m).len());
    }
}

/// Among the first `rows.len() + 1` tries some ID is free.
proof fn lemma_free_try_exists(rows: Seq<StoredProvider>, s: Seq<char>)
    ensures
        exists|n: nat| 1 <= n <= rows.len() + 1 && !has_id(rows, #[trigger] cand_id(s, n)),
{
    if forall|n: nat| 1 <= n <= rows.len() + 1 ==> has_id(rows, #[trigger] cand_id(s, n)) {
        let l = rows.len() as int;
        let x = vstd::set_lib::set_int_range(1, l + 2);
        let f = |n: int| cand_id(s, n as nat);
        let c = x.map(f);
        vstd::set_lib::lemma_int_range(1, l + 2);
        assert(vstd::relations::injective_on(f, x)) by {
            assert forall|a: int, b: int| x.contains(a) && x.contains(b) && #[trigger] f(a) == #[trigger] f(b) implies a == b by {
                lemma_cand_injective(s, a as nat, b as nat);
            }
        }
        vstd::set_lib::lemma_map_size(x, c, f);
        let r = vstd::set_lib::set_int_range(0, l);
        let g = |i: int| rows[i].provider.id@;
        let ids = r.map(g);
        vstd::set_lib::lemma_int_range(0, l);
        vstd::set_lib::lemma_map_size_bound(r, ids, g);
        assert(c.subset_of(ids)) by {
            assert forall|v: Seq<char>| c.contains(v) implies ids.contains(v) by {
                let n = choose|n: int| x.contains(n) && f(n) == v;
                assert(has_id(rows, cand_id(s, n as nat)));
                let i = choose|i: int| 0 <= i < rows.len() && (#[trigger] rows[i]).provider.id@ == cand_id(s, n as nat);
                assert(r.contains(i));
                assert(g(i) == v);
            }
        }
        vstd::set_lib::lemma_len_subset(c, ids);
        assert(false);
    }
}

fn cand_id_exec(s: &str, n: u128) -> (res: String)
    ensures
        res@ == cand_id(s@, n as nat),
{
    let base = concat("ccswitch-", s);
    if n <= 1 {
        base
    } else {
        let a = concat(base.as_str(), "-");
        concat(a.as_str(), decimal(n).as_str())
    }
}

/// The provider as written over an imported row: the row keeps its ID, its
/// source ID, whether it is current and whether it is queued for failover;
/// everything else is taken from `p`, and it is stamped `now`.
pub open spec fn updated_row(old: StoredProvider, p: Provider, now: i64, res: StoredProvider) -> bool {
    &&& res.imported_at == now
    &&& res.provider.id == old.provider.id
    &&& res.provider.name == p.name
    &&& res.provider.settings_config == p.settings_config
    &&& res.provider.website_url == p.website_url
    &&& res.provider.category == p.category
    &&& res.provider.created_at == p.created_at
    &&& res.provider.sort_index == p.sort_index
    &&& res.provider.notes == p.notes
    &&& res.provider.icon == p.icon
    &&& res.provider.icon_color == p.icon_color
    &&& res.provider.meta == p.meta
    &&& res.provider.in_failover_queue == old.provider.in_failover_queue
    &&& res.provider.is_current == old.provider.is_current
    &&& res.provider.source.name_spec() == old.provider.source.name_spec()
    &&& res.provider.source.id_spec() == old.provider.source.id_spec()
    &&& res.provider.source.updated_spec() == (if old.provider.source is CcSwitch {
        p.source.updated_spec()
    } else {
        None
    })
}

/// `p` with a new ID and current flag.
pub open spec fn renamed_as(p: Provider, q: Provider, id: Seq<char>, current: bool) -> bool {
    &&& q.id@ == id
    &&& q.is_current == current
    &&& q == Provider { id: q.id, is_current: current, ..p }
}

fn update_row(old: &StoredProvider, p: &Provider, now: i64) -> (res: StoredProvider)
    ensures
        updated_row(*old, *p, now, res),
{
    let source = match &old.provider.source {
        ProviderSource::CcSwitch { source_id, .. } => ProviderSource::CcSwitch {
            source_id: source_id.clone(),
            source_updated_at: p.source.source_updated_at(),
        },
        ProviderSource::Local => ProviderSource::Local,
    };
    StoredProvider {
        provider: Provider {
            id: old.provider.id.clone(),
            name: p.name.clone(),
            settings_config: p.settings_config.clone(),
            website_url: clone_opt_string(&p.website_url),
            category: clone_opt_string(&p.category),
            created_at: p.created_at,
            sort_index: p.sort_index,
            notes: clone_opt_string(&p.notes),
            icon: clone_opt_string(&p.icon),
            icon_color: clone_opt_string(&p.icon_color),
            meta: p.meta.clone(),
            in_failover_queue: old.provider.in_failover_queue,
            is_current: old.provider.is_current,
            source,
        },
        imported_at: now,
    }
}

impl ProviderStore {
    /// The first free ID for a provider imported from cc-switch ID `s`.
    fn available_ccswitch_id(&self, s: &str) -> (res: String)
        ensures
            exists|n: nat| first_free(self.rows@, s@, n) && res@ == cand_id(s@, n),
    {
        proof {
            lemma_free_try_exists(self.rows@, s@);
        }
        let mut n: u128 = 1;
        let bound = self.rows.len() as u128;
        let mut id = cand_id_exec(s, n);
        while self.index_of(id.as_str()).is_some()
            invariant
                1 <= n <= self.rows@.len() + 1,
                self.rows@.len() == bound,
                id@ == cand_id(s@, n as nat),
                forall|m: nat| 1 <= m < n ==> has_id(self.rows@, #[trigger] cand_id(s@, m)),
                exists|k: nat| 1 <= k <= self.rows@.len() + 1 && !has_id(self.rows@, #[trigger] cand_id(s@, k)),
            decreases self.rows@.len() + 1 - n,
        {
            if n > bound {
                proof {
                    let k = choose|k: nat| 1 <= k <= self.rows@.len() + 1 && !has_id(self.rows@, #[trigger] cand_id(s@, k));
                    if k < n {
                        assert(has_id(self.rows@, cand_id(s@, k)));
                    }
                }
                assert(false);
            }
            n = n + 1;
            id = cand_id_exec(s, n);
        }
        id
    }

    /// Makes the provider with this ID the only current one and returns it.
    pub fn set_current(&mut self, id: &str) -> (res: Result<Provider, ProviderStoreError>)
        requires
            old(self).wf(),
        ensures
            final(self).wf(),
            final(self).path_spec() == old(self).path_spec(),
            final(self).rules_spec() == old(self).rules_spec(),
            match res {
                Ok(p) => {
                    &&& p.id@ == id@
                    &&& p.is_current
                    &&& final(self).rows_spec().len() == old(self).rows_spec().len()
                    &&& forall|i: int|
                        0 <= i < old(self).rows_spec().len() ==> {
                            let o = #[trigger] old(self).rows_spec()[i];
                            &&& final(self).rows_spec()[i].imported_at == o.imported_at
                            &&& final(self).rows_spec()[i].provider == Provider {
                                is_current: o.provider.id@ == id@,
                                ..o.provider
                            }
                        }
                    &&& exists|i: int| 0 <= i < final(self).rows_spec().len() && final(self).rows_spec()[i].provider == p
                },
                Err(e) => {
                    &&& !has_id(old(self).rows_spec(), id@)
                    &&& e matches ProviderStoreError::ProviderNotFound(x) && x@ == id@
                    &&& final(self).rows_spec() == old(self).rows_spec()
                },
            },
    {
        let found = match self.index_of(id) {
            Some(i) => i,
            None => {
                return Err(ProviderStoreError::ProviderNotFound(owned(id)));
            },
        };
        let ghost old_rows = self.rows@;
        let mut rows: Vec<StoredProvider> = Vec::new();
        let mut i: usize = 0;
        while i < self.rows.len()
            invariant
                i <= self.rows@.len(),
                self.rows@ == old_rows,
                rows@.len() == i,
                forall|k: int|
                    0 <= k < i ==> {
                        let o = #[trigger] old_rows[k];
                        &&& rows@[k].imported_at == o.imported_at
                        &&& rows@[k].provider == Provider { is_current: o.provider.id@ == id@, ..o.provider }
                    },
            decreases self.rows@.len() - i,
        {
            let mut p = self.rows[i].provider.clone();
            p.is_current = str_eq(self.rows[i].provider.id.as_str(), id);
            rows.push(StoredProvider { provider: p, imported_at: self.rows[i].imported_at });
            i = i + 1;
        }
        self.rows = rows;
        let result = self.rows[found].provider.clone();
        proof {
            assert forall|a: int, b: int|
                0 <= a < self.rows@.len() && 0 <= b < self.rows@.len() && a != b implies #[trigger] self.rows@[a].provider.id@
                != #[trigger] self.rows@[b].provider.id@ by {
                assert(old_rows[a].provider.id@ != old_rows[b].provider.id@);
            }
            assert forall|a: int, b: int|
                0 <= a < self.rows@.len() && 0 <= b < self.rows@.len() && a != b && (
                #[trigger] self.rows@[a]).provider.source.id_spec() is Some implies self.rows@[a].provider.source.id_spec()
                != (#[trigger] self.rows@[b]).provider.source.id_spec() by {
                assert(old_rows[a].provider.source == self.rows@[a].provider.source);
                assert(old_rows[b].provider.source == self.rows@[b].provider.source);
            }
        }
        Ok(result)
    }
}


/// What a step of an import adds to the report's counts: imported,
/// replaced, renamed, skipped.
pub type Counts = (nat, nat, nat, nat);

pub open spec fn add_counts(a: Counts, b: Counts) -> Counts {
    ((a.0 + b.0) as nat, (a.1 + b.1) as nat, (a.2 + b.2) as nat, (a.3 + b.3) as nat)
}

/// `after` is `before` with one row appended, written at `now`, holding
/// `p` under ID `id` and current flag `current`.
pub open spec fn appended(before: Seq<StoredProvider>, after: Seq<StoredProvider>, p: Provider, id: Seq<char>, current: bool, now: i64) -> bool {
    &&& after.len() == before.len() + 1
    &&& forall|j: int| 0 <= j < before.len() ==> #[trigger] after[j] == before[j]
    &&& after[before.len() as int].imported_at == now
    &&& renamed_as(p, after[before.len() as int].provider, id, current)
}

/// `after` is `before` with the row at `k` written over by `p`.
pub open spec fn overwritten(before: Seq<StoredProvider>, after: Seq<StoredProvider>, k: int, p: Provider, now: i64) -> bool {
    &&& 0 <= k < before.len()
    &&& after.len() == before.len()
    &&& updated_row(before[k], p, now, after[k])
    &&& forall|j: int| 0 <= j < before.len() && j != k ==> #[trigger] after[j] == before[j]
}

/// The ID under which a provider whose own ID is taken is imported: the
/// first free try from its cc-switch ID (or from its own ID where it has
/// none).
pub open spec fn rename_base(p: Provider) -> Seq<char> {
    match p.source.id_spec() {
        Some(s) => s,
        None => p.id@,
    }
}

/// One candidate of an import.  `had` is whether some provider was current
/// when the import began.  A candidate already imported (by cc-switch ID)
/// is skipped, or written over its row; a new one whose ID is taken is
/// skipped, or renamed; a new one is added, and is current only where
/// nothing was current before the import nor is now, and it was current in
/// cc-switch.
pub open spec fn import_step(
    before: Seq<StoredProvider>,
    c: ImportCandidate,
    policy: ConflictPolicy,
    now: i64,
    had: bool,
    after: Seq<StoredProvider>,
    d: Counts,
) -> bool {
    match c.provider.source.id_spec() {
        Some(sid) => if has_source(before, sid) {
            if policy == ConflictPolicy::Skip {
                after == before && d == (0nat, 0nat, 0nat, 1nat)
            } else {
                &&& d == (0nat, 1nat, 0nat, 0nat)
                &&& exists|k: int|
                    #![trigger before[k]]
                    0 <= k < before.len() && before[k].provider.source.id_spec() == Some(sid) && overwritten(
                        before,
                        after,
                        k,
                        c.provider,
                        now,
                    )
            }
        } else {
            import_new(before, c, policy, now, had, after, d)
        },
        None => import_new(before, c, policy, now, had, after, d),
    }
}

/// A candidate that was not imported before.
pub open spec fn import_new(
    before: Seq<StoredProvider>,
    c: ImportCandidate,
    policy: ConflictPolicy,
    now: i64,
    had: bool,
    after: Seq<StoredProvider>,
    d: Counts,
) -> bool {
    let p = c.provider;
    let current = !had && !any_current(before) && c.source_is_current;
    if has_id(before, p.id@) {
        if policy == ConflictPolicy::Skip {
            after == before && d == (0nat, 0nat, 0nat, 1nat)
        } else {
            &&& d == (1nat, 0nat, 1nat, 0nat)
            &&& exists|n: nat|
                #[trigger] first_free(before, rename_base(p), n) && appended(before, after, p, cand_id(rename_base(p), n), current, now)
        }
    } else {
        d == (1nat, 0nat, 0nat, 0nat) && appended(before, after, p, p.id@, current, now)
    }
}

pub open spec fn count_sum(ds: Seq<Counts>) -> Counts
    decreases ds.len(),
{
    if ds.len() == 0 {
        (0nat, 0nat, 0nat, 0nat)
    } else {
        add_counts(count_sum(ds.drop_last()), ds.last())
    }
}

/// `trace` holds the rows before each candidate and after the last, `ds`
/// what each candidate counted.
pub open spec fn import_trace(
    r0: Seq<StoredProvider>,
    cands: Seq<ImportCandidate>,
    policy: ConflictPolicy,
    now: i64,
    had: bool,
    trace: Seq<Seq<StoredProvider>>,
    ds: Seq<Counts>,
) -> bool {
    &&& trace.len() == cands.len() + 1
    &&& ds.len() == cands.len()
    &&& trace[0] == r0
    &&& forall|i: int|
        #![trigger cands[i]]
        0 <= i < cands.len() ==> import_step(trace[i], cands[i], policy, now, had, trace[i + 1], ds[i])
}

/// Importing the candidates in order, one step each, takes the rows from
/// `r0` to `r1` and counts `cnt`.
pub open spec fn import_run(
    r0: Seq<StoredProvider>,
    cands: Seq<ImportCandidate>,
    policy: ConflictPolicy,
    now: i64,
    had: bool,
    r1: Seq<StoredProvider>,
    cnt: Counts,
) -> bool {
    exists|trace: Seq<Seq<StoredProvider>>, ds: Seq<Counts>|
        #[trigger] import_trace(r0, cands, policy, now, had, trace, ds) && trace.last() == r1 && count_sum(ds) == cnt
}

/// What a step of an import did.
#[derive(Debug, Clone, Copy, PartialEq, Eq, Structural)]
pub enum StepOutcome {
    Skipped,
    Replaced,
    Renamed,
    Inserted,
}

pub open spec fn step_counts(o: StepOutcome) -> Counts {
    match o {
        StepOutcome::Skipped => (0nat, 0nat, 0nat, 1nat),
        StepOutcome::Replaced => (0nat, 1nat, 0nat, 0nat),
        StepOutcome::Renamed => (1nat, 0nat, 1nat, 0nat),
        StepOutcome::Inserted => (1nat, 0nat, 0nat, 0nat),
    }
}

proof fn lemma_wf_overwrite(before: Seq<StoredProvider>, after: Seq<StoredProvider>, rules: Seq<WorkspaceRouteRule>, k: int, p: Provider, now: i64)
    requires
        catalog_wf(before, rules),
        overwritten(before, after, k, p, now),
    ensures
        catalog_wf(after, rules),
{
    assert forall|a: int, b: int|
        0 <= a < after.len() && 0 <= b < after.len() && a != b implies #[trigger] after[a].provider.id@
        != #[trigger] after[b].provider.id@ by {
        assert(before[a].provider.id@ != before[b].provider.id@);
    }
    assert forall|a: int, b: int|
        0 <= a < after.len() && 0 <= b < after.len() && a != b && (#[trigger] after[a]).provider.source.id_spec() is Some
        implies after[a].provider.source.id_spec() != (#[trigger] after[b]).provider.source.id_spec() by {
        assert(before[a].provider.source.id_spec() == after[a].provider.source.id_spec());
        assert(before[b].provider.source.id_spec() == after[b].provider.source.id_spec());
    }
}

proof fn lemma_wf_append(before: Seq<StoredProvider>, after: Seq<StoredProvider>, rules: Seq<WorkspaceRouteRule>, p: Provider, id: Seq<char>, current: bool, now: i64)
    requires
        catalog_wf(before, rules),
        appended(before, after, p, id, current, now),
        !has_id(before, id),
        !(p.source.id_spec() matches Some(s) && has_source(before, s)),
    ensures
        catalog_wf(after, rules),
{
    let n = before.len() as int;
    assert forall|a: int, b: int|
        0 <= a < after.len() && 0 <= b < after.len() && a != b implies #[trigger] after[a].provider.id@
        != #[trigger] after[b].provider.id@ by {
        if a < n && b < n {
            assert(before[a].provider.id@ != before[b].provider.id@);
        } else if a == n {
            assert(after[b] == before[b]);
        } else {
            assert(after[a] == before[a]);
        }
    }
    assert forall|a: int, b: int|
        0 <= a < after.len() && 0 <= b < after.len() && a != b && (#[trigger] after[a]).provider.source.id_spec() is Some
        implies after[a].provider.source.id_spec() != (#[trigger] after[b]).provider.source.id_spec() by {
        assert(after[n].provider.source == p.source);
        if a < n && b < n {
            assert(after[a] == before[a]);
            assert(after[b] == before[b]);
        } else if a == n {
            assert(after[b] == before[b]);
        } else {
            assert(after[a] == before[a]);
        }
    }
}

impl ProviderStore {
    fn import_one(&mut self, c: &ImportCandidate, policy: ConflictPolicy, now: i64, had: bool) -> (res: StepOutcome)
        requires
            old(self).wf(),
        ensures
            final(self).wf(),
            final(self).path_spec() == old(self).path_spec(),
            final(self).rules_spec() == old(self).rules_spec(),
            import_step(old(self).rows_spec(), *c, policy, now, had, final(self).rows_spec(), step_counts(res)),
    {
        let ghost before = self.rows@;
        let p = &c.provider;
        let existing = match p.source.source_id() {
            Some(sid) => self.index_of_source(sid),
            None => None,
        };
        match existing {
            Some(k) => {
                if policy == ConflictPolicy::Skip {
                    return StepOutcome::Skipped;
                }
                let row = update_row(&self.rows[k], p, now);
                self.rows.set(k, row);
                proof {
                    assert(overwritten(before, self.rows@, k as int, *p, now));
                    lemma_wf_overwrite(before, self.rows@, self.rules@, k as int, *p, now);
                }
                return StepOutcome::Replaced;
            },
            None => {},
        }
        let current = !had && !self.has_current() && c.source_is_current;
        if self.index_of(p.id.as_str()).is_some() {
            if policy == ConflictPolicy::Skip {
                return StepOutcome::Skipped;
            }
            let base = match p.source.source_id() {
                Some(sid) => sid,
                None => p.id.as_str(),
            };
            let id = self.available_ccswitch_id(base);
            let ghost idv = id@;
            let mut q = p.clone();
            q.id = id;
            q.is_current = current;
            self.rows.push(StoredProvider { provider: q, imported_at: now });
            proof {
                let n = choose|n: nat| first_free(before, rename_base(*p), n) && idv == cand_id(rename_base(*p), n);
                assert(appended(before, self.rows@, *p, idv, current, now));
                lemma_wf_append(before, self.rows@, self.rules@, *p, idv, current, now);
            }
            return StepOutcome::Renamed;
        }
        let mut q = p.clone();
        q.is_current = current;
        self.rows.push(StoredProvider { provider: q, imported_at: now });
        proof {
            assert(appended(before, self.rows@, *p, p.id@, current, now));
            lemma_wf_append(before, self.rows@, self.rules@, *p, p.id@, current, now);
        }
        StepOutcome::Inserted
    }

    /// Imports candidates in one transaction under a conflict policy.
    pub fn import_transaction(&mut self, candidates: &Vec<ImportCandidate>, policy: ConflictPolicy, now: i64) -> (res: Result<
        ImportReport,
        ProviderStoreError,
    >)
        requires
            old(self).wf(),
        ensures
            final(self).wf(),
            final(self).path_spec() == old(self).path_spec(),
            final(self).rules_spec() == old(self).rules_spec(),
            res matches Ok(r) && r.source@.len() == 0 && r.rejected@.len() == 0 && import_run(
                old(self).rows_spec(),
                candidates@,
                policy,
                now,
                any_current(old(self).rows_spec()),
                final(self).rows_spec(),
                (r.imported as nat, r.replaced as nat, r.renamed as nat, r.skipped as nat),
            ),
    {
        let ghost r0 = self.rows@;
        let had = self.has_current();
        let mut report = ImportReport::new(String::new());
        let mut i: usize = 0;
        let ghost mut trace: Seq<Seq<StoredProvider>> = seq![r0];
        let ghost mut ds: Seq<Counts> = Seq::empty();
        proof {
            assert(import_trace(r0, candidates@.take(0), policy, now, had, trace, ds));
        }
        while i < candidates.len()
            invariant
                i <= candidates@.len(),
                self.wf(),
                self.path_spec() == old(self).path_spec(),
                self.rules_spec() == old(self).rules_spec(),
                had == any_current(r0),
                r0 == old(self).rows_spec(),
                report.source@.len() == 0,
                report.rejected@.len() == 0,
                report.imported + report.replaced + report.skipped <= i,
                report.renamed <= report.imported,
                import_trace(r0, candidates@.take(i as int), policy, now, had, trace, ds),
                trace.last() == self.rows@,
                count_sum(ds) == (report.imported as nat, report.replaced as nat, report.renamed as nat, report.skipped as nat),
            decreases candidates@.len() - i,
        {
            let ghost mid = self.rows@;
            let o = self.import_one(&candidates[i], policy, now, had);
            match o {
                StepOutcome::Skipped => report.skipped = report.skipped + 1,
                StepOutcome::Replaced => report.replaced = report.replaced + 1,
                StepOutcome::Renamed => {
                    report.imported = report.imported + 1;
                    report.renamed = report.renamed + 1;
                },
                StepOutcome::Inserted => report.imported = report.imported + 1,
            }
            proof {
                let t = candidates@.take(i + 1);
                let old_trace = trace;
                let old_ds = ds;
                trace = trace.push(self.rows@);
                ds = ds.push(step_counts(o));
                assert(ds.drop_last() =~= old_ds);
                assert forall|k: int| #![trigger t[k]] 0 <= k < t.len() implies import_step(
                    trace[k],
                    t[k],
                    policy,
                    now,
                    had,
                    trace[k + 1],
                    ds[k],
                ) by {
                    if k < i {
                        assert(t[k] == candidates@.take(i as int)[k]);
                    } else {
                        assert(t[k] == candidates@[i as int]);
                    }
                }
            }
            i = i + 1;
        }
        proof {
            assert(candidates@.take(i as int) =~= candidates@);
        }
        Ok(report)
    }

    /// Imports a scan's candidates and reports them with its source and
    /// rejections.
    pub fn import_scan_transaction(&mut self, scan: &ImportScan, policy: ConflictPolicy, now: i64) -> (res: Result<
        ImportReport,
        ProviderStoreError,
    >)
        requires
            old(self).wf(),
        ensures
            final(self).wf(),
            final(self).path_spec() == old(self).path_spec(),
            final(self).rules_spec() == old(self).rules_spec(),
            res matches Ok(r) && r.source == scan.source && r.rejected@ == scan.rejected@ && import_run(
                old(self).rows_spec(),
                scan.candidates@,
                policy,
                now,
                any_current(old(self).rows_spec()),
                final(self).rows_spec(),
                (r.imported as nat, r.replaced as nat, r.renamed as nat, r.skipped as nat),
            ),
    {
        let mut report = match self.import_transaction(&scan.candidates, policy, now) {
            Ok(r) => r,
            Err(e) => {
                return Err(e);
            },
        };
        report.source = scan.source.clone();
        let mut rejected: Vec<RejectedProvider> = Vec::new();
        let mut k: usize = 0;
        while k < scan.rejected.len()
            invariant
                k <= scan.rejected@.len(),
                rejected@ == scan.rejected@.take(k as int),
            decreases scan.rejected@.len() - k,
        {
            rejected.push(scan.rejected[k].clone());
            proof {
                assert(rejected@ =~= scan.rejected@.take(k + 1));
            }
            k = k + 1;
        }
        assert(scan.rejected@.take(k as int) =~= scan.rejected@);
        report.rejected = rejected;
        Ok(report)
    }

    /// Imports one provider: skipped (or written over its row, with
    /// `replace`) where its cc-switch ID is already imported; else added
    /// as it is, under a fresh `ccswitch-` ID where its own ID is taken.  An
    /// error for a provider that was not imported from cc-switch.
    pub fn upsert_imported(&mut self, provider: &Provider, replace: bool, now: i64) -> (res: Result<UpsertOutcome, ProviderStoreError>)
        requires
            old(self).wf(),
        ensures
            final(self).wf(),
            final(self).path_spec() == old(self).path_spec(),
            final(self).rules_spec() == old(self).rules_spec(),
            match res {
                Err(e) => provider.source.id_spec() is None && (e matches ProviderStoreError::NotImported(x) && x@
                    == provider.id@) && final(self).rows_spec() == old(self).rows_spec(),
                Ok(o) => provider.source.id_spec() is Some && upsert_step(
                    old(self).rows_spec(),
                    *provider,
                    replace,
                    now,
                    final(self).rows_spec(),
                    o,
                ),
            },
    {
        let sid = match provider.source.source_id() {
            Some(sid) => sid,
            None => {
                return Err(ProviderStoreError::NotImported(provider.id.clone()));
            },
        };
        let ghost before = self.rows@;
        match self.index_of_source(sid) {
            Some(k) => {
                if !replace {
                    return Ok(UpsertOutcome::Skipped);
                }
                let row = update_row(&self.rows[k], provider, now);
                self.rows.set(k, row);
                proof {
                    assert(overwritten(before, self.rows@, k as int, *provider, now));
                    lemma_wf_overwrite(before, self.rows@, self.rules@, k as int, *provider, now);
                }
                return Ok(UpsertOutcome::Replaced);
            },
            None => {},
        }
        if self.index_of(provider.id.as_str()).is_some() {
            let id = self.available_ccswitch_id(sid);
            let ghost idv = id@;
            let mut q = provider.clone();
            q.id = id;
            let current = q.is_current;
            self.rows.push(StoredProvider { provider: q, imported_at: now });
            proof {
                let n = choose|n: nat| first_free(before, rename_base(*provider), n) && idv == cand_id(rename_base(*provider), n);
                assert(appended(before, self.rows@, *provider, idv, current, now));
                lemma_wf_append(before, self.rows@, self.rules@, *provider, idv, current, now);
            }
            return Ok(UpsertOutcome::Renamed);
        }
        let q = provider.clone();
        let current = q.is_current;
        self.rows.push(StoredProvider { provider: q, imported_at: now });
        proof {
            assert(appended(before, self.rows@, *provider, provider.id@, current, now));
            lemma_wf_append(before, self.rows@, self.rules@, *provider, provider.id@, current, now);
        }
        Ok(UpsertOutcome::Inserted)
    }
}

/// One upsert of an imported provider `p`: where its cc-switch ID is
/// already imported, that row is written over (with `replace`) or nothing
/// changes; otherwise `p` is added as it is (its own current flag kept),
/// under its own ID where that is free, else under the first free
/// `ccswitch-` ID tried from its cc-switch ID.
pub open spec fn upsert_step(
    before: Seq<StoredProvider>,
    p: Provider,
    replace: bool,
    now: i64,
    after: Seq<StoredProvider>,
    o: UpsertOutcome,
) -> bool {
    let sid = rename_base(p);
    if has_source(before, sid) {
        if replace {
            &&& o == UpsertOutcome::Replaced
            &&& exists|k: int|
                #![trigger before[k]]
                0 <= k < before.len() && before[k].provider.source.id_spec() == Some(sid) && overwritten(
                    before,
                    after,
                    k,
                    p,
                    now,
                )
        } else {
            o == UpsertOutcome::Skipped && after == before
        }
    } else if has_id(before, p.id@) {
        &&& o == UpsertOutcome::Renamed
        &&& exists|n: nat| #[trigger] first_free(before, sid, n) && appended(before, after, p, cand_id(sid, n), p.is_current, now)
    } else {
        o == UpsertOutcome::Inserted && appended(before, after, p, p.id@, p.is_current, now)
    }
}

/// At most one provider is current.
pub open spec fn at_most_one_current(rows: Seq<StoredProvider>) -> bool {
    forall|i: int, j: int|
        0 <= i < rows.len() && 0 <= j < rows.len() && (#[trigger] rows[i]).provider.is_current
            && (#[trigger] rows[j]).provider.is_current ==> i == j
}

/// A candidate is accounted for in the rows: its cc-switch ID is imported,
/// or a provider holds its ID.
pub open spec fn present(rows: Seq<StoredProvider>, c: ImportCandidate) -> bool {
    (c.provider.source.id_spec() matches Some(sid) && has_source(rows, sid)) || has_id(rows, c.provider.id@)
}

/// What a step keeps of the rows that were there before it: their place,
/// their ID, their source and whether they are current; a local provider
/// is kept whole.
pub open spec fn keeps_rows(before: Seq<StoredProvider>, after: Seq<StoredProvider>) -> bool {
    &&& after.len() >= before.len()
    &&& forall|k: int|
        0 <= k < before.len() ==> {
            &&& (#[trigger] after[k]).provider.id == before[k].provider.id
            &&& after[k].provider.is_current == before[k].provider.is_current
            &&& after[k].provider.source.id_spec() == before[k].provider.source.id_spec()
            &&& (before[k].provider.source is Local ==> after[k] == before[k])
        }
}

proof fn lemma_step_keeps(before: Seq<StoredProvider>, c: ImportCandidate, policy: ConflictPolicy, now: i64, had: bool, after: Seq<StoredProvider>, d: Counts)
    requires
        import_step(before, c, policy, now, had, after, d),
    ensures
        keeps_rows(before, after),
        at_most_one_current(before) ==> at_most_one_current(after),
        forall|x: Seq<char>| has_source(before, x) ==> #[trigger] has_source(after, x),
        present(after, c),
{
    let n = before.len() as int;
    match c.provider.source.id_spec() {
        Some(sid) => {
            if has_source(before, sid) && policy != ConflictPolicy::Skip {
                let k = choose|k: int|
                    #![trigger before[k]]
                    0 <= k < before.len() && before[k].provider.source.id_spec() == Some(sid) && overwritten(
                        before,
                        after,
                        k,
                        c.provider,
                        now,
                    );
                assert forall|j: int| 0 <= j < before.len() implies ({
                    &&& (#[trigger] after[j]).provider.id == before[j].provider.id
                    &&& after[j].provider.is_current == before[j].provider.is_current
                    &&& after[j].provider.source.id_spec() == before[j].provider.source.id_spec()
                    &&& (before[j].provider.source is Local ==> after[j] == before[j])
                }) by {
                    if j == k {
                        assert(before[k].provider.source.id_spec() is Some);
                    }
                }
                assert forall|x: Seq<char>| has_source(before, x) implies #[trigger] has_source(after, x) by {
                    let w = choose|w: int| 0 <= w < before.len() && (#[trigger] before[w]).provider.source.id_spec() == Some(x);
                    assert(after[w].provider.source.id_spec() == Some(x));
                }
                assert(after[k].provider.source.id_spec() == Some(sid));
            } else if !has_source(before, sid) {
                lemma_new_keeps(before, c, policy, now, had, after, d);
            }
        },
        None => {
            lemma_new_keeps(before, c, policy, now, had, after, d);
        },
    }
}

proof fn lemma_new_keeps(before: Seq<StoredProvider>, c: ImportCandidate, policy: ConflictPolicy, now: i64, had: bool, after: Seq<StoredProvider>, d: Counts)
    requires
        import_new(before, c, policy, now, had, after, d),
    ensures
        keeps_rows(before, after),
        at_most_one_current(before) ==> at_most_one_current(after),
        forall|x: Seq<char>| has_source(before, x) ==> #[trigger] has_source(after, x),
        present(after, c),
{
    let n = before.len() as int;
    let p = c.provider;
    if after == before {
        assert(has_id(before, p.id@));
    } else {
        assert(after.len() == n + 1);
        assert forall|j: int| 0 <= j < n implies #[trigger] after[j] == before[j] by {}
        assert(after[n].provider.source == p.source);
        assert forall|x: Seq<char>| has_source(before, x) implies #[trigger] has_source(after, x) by {
            let w = choose|w: int| 0 <= w < before.len() && (#[trigger] before[w]).provider.source.id_spec() == Some(x);
            assert(after[w] == before[w]);
        }
        if at_most_one_current(before) {
            assert forall|a: int, b: int|
                0 <= a < after.len() && 0 <= b < after.len() && (#[trigger] after[a]).provider.is_current
                    && (#[trigger] after[b]).provider.is_current implies a == b by {
                if a < n && b < n {
                    assert(after[a] == before[a]);
                    assert(after[b] == before[b]);
                } else if a == n && b < n {
                    assert(after[b] == before[b]);
                    assert(any_current(before));
                } else if b == n && a < n {
                    assert(after[a] == before[a]);
                    assert(any_current(before));
                }
            }
        }
        match p.source.id_spec() {
            Some(sid) => {
                assert(after[n].provider.source.id_spec() == Some(sid));
            },
            None => {
                if has_id(before, p.id@) {
                    let w = choose|w: int| 0 <= w < before.len() && (#[trigger] before[w]).provider.id@ == p.id@;
                    assert(after[w] == before[w]);
                } else {
                    assert(after[n].provider.id@ == p.id@);
                }
            },
        }
    }
}

proof fn lemma_keeps_trans(a: Seq<StoredProvider>, b: Seq<StoredProvider>, c: Seq<StoredProvider>)
    requires
        keeps_rows(a, b),
        keeps_rows(b, c),
    ensures
        keeps_rows(a, c),
{
    assert forall|k: int| 0 <= k < a.len() implies {
        &&& (#[trigger] c[k]).provider.id == a[k].provider.id
        &&& c[k].provider.is_current == a[k].provider.is_current
        &&& c[k].provider.source.id_spec() == a[k].provider.source.id_spec()
        &&& (a[k].provider.source is Local ==> c[k] == a[k])
    } by {
        assert(b[k].provider.id == a[k].provider.id);
    }
}

/// An import keeps every provider that was there: its place, ID, source and
/// whether it is current, and a local provider whole; it never makes a
/// second provider current; and afterwards every candidate is accounted
/// for: its cc-switch ID is imported, or its ID is taken.
pub proof fn lemma_import_keeps_existing(
    r0: Seq<StoredProvider>,
    cands: Seq<ImportCandidate>,
    policy: ConflictPolicy,
    now: i64,
    had: bool,
    r1: Seq<StoredProvider>,
    cnt: Counts,
)
    requires
        import_run(r0, cands, policy, now, had, r1, cnt),
    ensures
        keeps_rows(r0, r1),
        at_most_one_current(r0) ==> at_most_one_current(r1),
        forall|i: int|
            0 <= i < cands.len() ==> present(r1, #[trigger] cands[i]),
{
    let (trace, ds) = choose|trace: Seq<Seq<StoredProvider>>, ds: Seq<Counts>|
        #[trigger] import_trace(r0, cands, policy, now, had, trace, ds) && trace.last() == r1 && count_sum(ds) == cnt;
    lemma_trace_keeps(r0, cands, policy, now, had, trace, ds, cands.len() as int);
}

proof fn lemma_trace_keeps(
    r0: Seq<StoredProvider>,
    cands: Seq<ImportCandidate>,
    policy: ConflictPolicy,
    now: i64,
    had: bool,
    trace: Seq<Seq<StoredProvider>>,
    ds: Seq<Counts>,
    k: int,
)
    requires
        import_trace(r0, cands, policy, now, had, trace, ds),
        0 <= k <= cands.len(),
    ensures
        keeps_rows(r0, trace[k]),
        at_most_one_current(r0) ==> at_most_one_current(trace[k]),
        forall|i: int|
            0 <= i < k ==> present(trace[k], #[trigger] cands[i]),
    decreases k,
{
    if k == 0 {
        assert forall|j: int| 0 <= j < r0.len() implies {
            &&& (#[trigger] trace[0][j]).provider.id == r0[j].provider.id
            &&& trace[0][j].provider.is_current == r0[j].provider.is_current
            &&& trace[0][j].provider.source.id_spec() == r0[j].provider.source.id_spec()
            &&& (r0[j].provider.source is Local ==> trace[0][j] == r0[j])
        } by {}
    } else {
        lemma_trace_keeps(r0, cands, policy, now, had, trace, ds, k - 1);
        assert(import_step(trace[k - 1], cands[k - 1], policy, now, had, trace[k], ds[k - 1]));
        lemma_step_keeps(trace[k - 1], cands[k - 1], policy, now, had, trace[k], ds[k - 1]);
        lemma_keeps_trans(r0, trace[k - 1], trace[k]);
        assert forall|i: int| 0 <= i < k implies present(trace[k], #[trigger] cands[i]) by {
            if i < k - 1 {
                lemma_present_keeps(trace[k - 1], trace[k], cands[i]);
            }
        }
    }
}

proof fn lemma_present_keeps(a: Seq<StoredProvider>, b: Seq<StoredProvider>, c: ImportCandidate)
    requires
        keeps_rows(a, b),
        forall|x: Seq<char>| has_source(a, x) ==> #[trigger] has_source(b, x),
        present(a, c),
    ensures
        present(b, c),
{
    if has_id(a, c.provider.id@) {
        let w = choose|w: int| 0 <= w < a.len() && (#[trigger] a[w]).provider.id@ == c.provider.id@;
        assert(b[w].provider.id == a[w].provider.id);
    }
}

/// Importing, with the skip policy, candidates that are all accounted for
/// (imported already, or their ID taken) changes nothing and skips every
/// one.
pub proof fn lemma_import_skip_idempotent(
    r0: Seq<StoredProvider>,
    cands: Seq<ImportCandidate>,
    now: i64,
    had: bool,
    r1: Seq<StoredProvider>,
    cnt: Counts,
)
    requires
        forall|i: int| 0 <= i < cands.len() ==> present(r0, #[trigger] cands[i]),
        import_run(r0, cands, ConflictPolicy::Skip, now, had, r1, cnt),
    ensures
        r1 == r0,
        cnt == (0nat, 0nat, 0nat, cands.len()),
{
    let (trace, ds) = choose|trace: Seq<Seq<StoredProvider>>, ds: Seq<Counts>|
        #[trigger] import_trace(r0, cands, ConflictPolicy::Skip, now, had, trace, ds) && trace.last() == r1 && count_sum(ds)
            == cnt;
    lemma_trace_skips(r0, cands, now, had, trace, ds, cands.len() as int);
    assert(ds.take(cands.len() as int) =~= ds);
}

proof fn lemma_trace_skips(
    r0: Seq<StoredProvider>,
    cands: Seq<ImportCandidate>,
    now: i64,
    had: bool,
    trace: Seq<Seq<StoredProvider>>,
    ds: Seq<Counts>,
    k: int,
)
    requires
        forall|i: int|
            0 <= i < cands.len() ==> present(r0, #[trigger] cands[i]),
        import_trace(r0, cands, ConflictPolicy::Skip, now, had, trace, ds),
        0 <= k <= cands.len(),
    ensures
        trace[k] == r0,
        count_sum(ds.take(k)) == (0nat, 0nat, 0nat, k as nat),
    decreases k,
{
    if k == 0 {
        assert(ds.take(0) =~= Seq::<Counts>::empty());
    } else {
        lemma_trace_skips(r0, cands, now, had, trace, ds, k - 1);
        assert(import_step(trace[k - 1], cands[k - 1], ConflictPolicy::Skip, now, had, trace[k], ds[k - 1]));
        assert(ds.take(k).drop_last() =~= ds.take(k - 1));
    }
}

/// Importing candidates and then importing the same candidates again with
/// the skip policy leaves the catalog as the first import left it, and the
/// second import skips every candidate.
pub proof fn lemma_reimport_is_noop(
    r0: Seq<StoredProvider>,
    cands: Seq<ImportCandidate>,
    policy: ConflictPolicy,
    now: i64,
    had: bool,
    r1: Seq<StoredProvider>,
    cnt: Counts,
    now2: i64,
    had2: bool,
    r2: Seq<StoredProvider>,
    cnt2: Counts,
)
    requires
        import_run(r0, cands, policy, now, had, r1, cnt),
        import_run(r1, cands, ConflictPolicy::Skip, now2, had2, r2, cnt2),
    ensures
        r2 == r1,
        cnt2 == (0nat, 0nat, 0nat, cands.len()),
{
    lemma_import_keeps_existing(r0, cands, policy, now, had, r1, cnt);
    lemma_import_skip_idempotent(r1, cands, now2, had2, r2, cnt2);
}

/// After `set_current`, exactly one provider is current: the chosen one.
pub proof fn lemma_set_current_unique(before: Seq<StoredProvider>, after: Seq<StoredProvider>, rules: Seq<WorkspaceRouteRule>, id: Seq<char>)
    requires
        catalog_wf(before, rules),
        after.len() == before.len(),
        forall|i: int|
            0 <= i < before.len() ==> (#[trigger] after[i]).provider == (Provider {
                is_current: before[i].provider.id@ == id,
                ..before[i].provider
            }),
    ensures
        at_most_one_current(after),
        forall|i: int| 0 <= i < after.len() ==> ((#[trigger] after[i]).provider.is_current <==> after[i].provider.id@ == id),
{
    assert forall|a: int, b: int|
        0 <= a < after.len() && 0 <= b < after.len() && (#[trigger] after[a]).provider.is_current
            && (#[trigger] after[b]).provider.is_current implies a == b by {
        if a != b {
            assert(before[a].provider.id@ != before[b].provider.id@);
        }
    }
}


/// A sort key: two numbers, then a text.
pub open spec fn key_order3(a: (i64, i64, Seq<char>), b: (i64, i64, Seq<char>)) -> Order {
    int_order(a.0 as int, b.0 as int).tie(int_order(a.1 as int, b.1 as int)).tie(lex(a.2, b.2))
}

proof fn lemma_key_order3(a: (i64, i64, Seq<char>), b: (i64, i64, Seq<char>), c: (i64, i64, Seq<char>))
    ensures
        ord_trans(key_order3(a, b), key_order3(b, c), key_order3(a, c)),
        key_order3(b, a) == key_order3(a, b).flip(),
{
    lemma_int_order(a.0 as int, b.0 as int, c.0 as int);
    lemma_int_order(a.1 as int, b.1 as int, c.1 as int);
    lemma_lex_ord(a.2, b.2, c.2);
    lemma_tie_trans(
        int_order(a.0 as int, b.0 as int),
        int_order(b.0 as int, c.0 as int),
        int_order(a.0 as int, c.0 as int),
        int_order(a.1 as int, b.1 as int),
        int_order(b.1 as int, c.1 as int),
        int_order(a.1 as int, c.1 as int),
    );
    lemma_tie_trans(
        int_order(a.0 as int, b.0 as int).tie(int_order(a.1 as int, b.1 as int)),
        int_order(b.0 as int, c.0 as int).tie(int_order(b.1 as int, c.1 as int)),
        int_order(a.0 as int, c.0 as int).tie(int_order(a.1 as int, c.1 as int)),
        lex(a.2, b.2),
        lex(b.2, c.2),
        lex(a.2, c.2),
    );
}

pub open spec fn key_views(keys: Seq<(i64, i64, String)>) -> Seq<(i64, i64, Seq<char>)> {
    keys.map_values(|k: (i64, i64, String)| (k.0, k.1, k.2@))
}

/// `idx` lists each position below `n` once.
pub open spec fn is_perm(idx: Seq<usize>, n: nat) -> bool {
    &&& idx.len() == n
    &&& forall|i: int| 0 <= i < idx.len() ==> (#[trigger] idx[i]) < n
    &&& forall|i: int, j: int| 0 <= i < idx.len() && 0 <= j < idx.len() && i != j ==> #[trigger] idx[i] != #[trigger] idx[j]
}

/// The keys at `idx` are in increasing order.
pub open spec fn sorted_by_keys(k: Seq<(i64, i64, Seq<char>)>, idx: Seq<usize>) -> bool {
    forall|i: int, j: int|
        0 <= i < j < idx.len() ==> key_order3(k[#[trigger] idx[i] as int], k[#[trigger] idx[j] as int]) != Order::Greater
}

fn compare_keys(a: &(i64, i64, String), b: &(i64, i64, String)) -> (res: Order)
    ensures
        res == key_order3((a.0, a.1, a.2@), (b.0, b.1, b.2@)),
{
    let x = if a.0 < b.0 {
        Order::Less
    } else if a.0 == b.0 {
        Order::Equal
    } else {
        Order::Greater
    };
    let y = if a.1 < b.1 {
        Order::Less
    } else if a.1 == b.1 {
        Order::Equal
    } else {
        Order::Greater
    };
    let xy = match x {
        Order::Equal => y,
        _ => x,
    };
    match xy {
        Order::Equal => lex_str(a.2.as_str(), b.2.as_str()),
        _ => xy,
    }
}

/// The positions of the keys in increasing key order.
fn sort_keys(keys: &Vec<(i64, i64, String)>) -> (idx: Vec<usize>)
    ensures
        is_perm(idx@, keys@.len()),
        sorted_by_keys(key_views(keys@), idx@),
{
    let ghost k = key_views(keys@);
    let n = keys.len();
    let mut rem: Vec<usize> = Vec::new();
    let mut i: usize = 0;
    while i < n
        invariant
            i <= n == keys@.len(),
            rem@.len() == i,
            forall|j: int| 0 <= j < i ==> (#[trigger] rem@[j]) == j,
        decreases n - i,
    {
        rem.push(i);
        i = i + 1;
    }
    let mut out: Vec<usize> = Vec::new();
    while rem.len() > 0
        invariant
            n == keys@.len(),
            k == key_views(keys@),
            out@.len() + rem@.len() == n,
            forall|j: int| 0 <= j < rem@.len() ==> (#[trigger] rem@[j]) < n,
            forall|j: int| 0 <= j < out@.len() ==> (#[trigger] out@[j]) < n,
            forall|a: int, b: int| 0 <= a < rem@.len() && 0 <= b < rem@.len() && a != b ==> #[trigger] rem@[a] != #[trigger] rem@[b],
            forall|a: int, b: int| 0 <= a < out@.len() && 0 <= b < out@.len() && a != b ==> #[trigger] out@[a] != #[trigger] out@[b],
            forall|a: int, b: int| 0 <= a < out@.len() && 0 <= b < rem@.len() ==> #[trigger] out@[a] != #[trigger] rem@[b],
            sorted_by_keys(k, out@),
            forall|a: int, b: int|
                0 <= a < out@.len() && 0 <= b < rem@.len() ==> key_order3(k[#[trigger] out@[a] as int], k[#[trigger] rem@[b] as int])
                    != Order::Greater,
        decreases rem@.len(),
    {
        let mut best: usize = 0;
        let mut j: usize = 1;
        proof {
            lemma_key_order3(k[rem@[0] as int], k[rem@[0] as int], k[rem@[0] as int]);
        }
        while j < rem.len()
            invariant
                1 <= j <= rem@.len(),
                best < j,
                k == key_views(keys@),
                forall|q: int| 0 <= q < rem@.len() ==> (#[trigger] rem@[q]) < n,
                n == keys@.len(),
                forall|q: int| 0 <= q < j ==> key_order3(k[rem@[best as int] as int], k[#[trigger] rem@[q] as int]) != Order::Greater,
            decreases rem@.len() - j,
        {
            proof {
                lemma_key_order3(k[rem@[j as int] as int], k[rem@[best as int] as int], k[rem@[best as int] as int]);
            }
            if compare_keys(&keys[rem[j]], &keys[rem[best]]) == Order::Less {
                proof {
                    assert forall|q: int| 0 <= q < j + 1 implies key_order3(
                        k[rem@[j as int] as int],
                        k[#[trigger] rem@[q] as int],
                    ) != Order::Greater by {
                        lemma_key_order3(k[rem@[j as int] as int], k[rem@[best as int] as int], k[rem@[q] as int]);
                        lemma_key_order3(k[rem@[j as int] as int], k[rem@[j as int] as int], k[rem@[j as int] as int]);
                    }
                }
                best = j;
            }
            j = j + 1;
        }
        let ghost old_out = out@;
        let ghost old_rem = rem@;
        let x = rem.remove(best);
        out.push(x);
        proof {
            assert forall|a: int, b: int|
                0 <= a < out@.len() && 0 <= b < rem@.len() implies key_order3(k[#[trigger] out@[a] as int], k[#[trigger] rem@[b] as int])
                != Order::Greater by {
                let bb = if b < best { b } else { b + 1 };
                assert(rem@[b] == old_rem[bb]);
                if a < old_out.len() {
                    assert(out@[a] == old_out[a]);
                } else {
                    assert(out@[a] == x);
                    assert(x == old_rem[best as int]);
                }
            }
            assert forall|a: int, b: int| 0 <= a < out@.len() && 0 <= b < out@.len() && a != b implies #[trigger] out@[a] != #[trigger] out@[b] by {
                if a < old_out.len() && b < old_out.len() {
                } else if a < old_out.len() {
                    assert(out@[b] == old_rem[best as int]);
                } else {
                    assert(out@[a] == old_rem[best as int]);
                }
            }
            assert forall|a: int, b: int| 0 <= a < rem@.len() && 0 <= b < rem@.len() && a != b implies #[trigger] rem@[a] != #[trigger] rem@[b] by {
                let aa = if a < best { a } else { a + 1 };
                let bb = if b < best { b } else { b + 1 };
                assert(rem@[a] == old_rem[aa]);
                assert(rem@[b] == old_rem[bb]);
            }
            assert forall|a: int, b: int| 0 <= a < out@.len() && 0 <= b < rem@.len() implies #[trigger] out@[a] != #[trigger] rem@[b] by {
                let bb = if b < best { b } else { b + 1 };
                assert(rem@[b] == old_rem[bb]);
                if a < old_out.len() {
                    assert(out@[a] == old_out[a]);
                } else {
                    assert(out@[a] == old_rem[best as int]);
                }
            }
            assert forall|q: int| 0 <= q < rem@.len() implies (#[trigger] rem@[q]) < n by {
                let qq = if q < best { q } else { q + 1 };
                assert(rem@[q] == old_rem[qq]);
            }
            assert(sorted_by_keys(k, out@)) by {
                assert forall|a: int, b: int| 0 <= a < b < out@.len() implies key_order3(
                    k[#[trigger] out@[a] as int],
                    k[#[trigger] out@[b] as int],
                ) != Order::Greater by {
                    if b < old_out.len() {
                        assert(out@[a] == old_out[a]);
                        assert(out@[b] == old_out[b]);
                    } else {
                        assert(out@[a] == old_out[a]);
                        assert(out@[b] == old_rem[best as int]);
                    }
                }
            }
        }
    }
    out
}


/// The sort key of a provider: its sort index (999999 where it has none),
/// its creation time (9999999999999 where it has none), its ID.
pub open spec fn provider_key(p: Provider) -> (i64, i64, Seq<char>) {
    (
        match p.sort_index {
            Some(x) => x,
            None => 999999i64,
        },
        match p.created_at {
            Some(x) => x,
            None => 9999999999999i64,
        },
        p.id@,
    )
}

pub open spec fn provider_keys(rows: Seq<StoredProvider>) -> Seq<(i64, i64, Seq<char>)> {
    rows.map_values(|r: StoredProvider| provider_key(r.provider))
}

/// The sort key of a rule: its workspace.
pub open spec fn rule_keys(rules: Seq<WorkspaceRouteRule>) -> Seq<(i64, i64, Seq<char>)> {
    rules.map_values(|r: WorkspaceRouteRule| (0i64, 0i64, r.workspace@))
}

/// The rule for a workspace (compared as stored text).
pub open spec fn rule_for(rules: Seq<WorkspaceRouteRule>, ws: Seq<char>) -> Option<WorkspaceRouteRule> {
    if exists|i: int| 0 <= i < rules.len() && (#[trigger] rules[i]).workspace@ == ws {
        Some(rules[choose|i: int| 0 <= i < rules.len() && (#[trigger] rules[i]).workspace@ == ws])
    } else {
        None
    }
}

proof fn lemma_rule_at(rules: Seq<WorkspaceRouteRule>, i: int, ws: Seq<char>)
    requires
        forall|a: int, b: int|
            0 <= a < rules.len() && 0 <= b < rules.len() && a != b ==> #[trigger] rules[a].workspace@ != #[trigger] rules[b].workspace@,
        0 <= i < rules.len(),
        rules[i].workspace@ == ws,
    ensures
        rule_for(rules, ws) == Some(rules[i]),
{
    let c = choose|c: int| 0 <= c < rules.len() && (#[trigger] rules[c]).workspace@ == ws;
    if c != i {
        assert(rules[c].workspace@ != rules[i].workspace@);
    }
}

/// What `upsert_route_rule` does to the rules: `ws_opt` is the normalized
/// workspace (`None` where it cannot be normalized).
pub open spec fn rule_upserted(
    rows: Seq<StoredProvider>,
    before: Seq<WorkspaceRouteRule>,
    after: Seq<WorkspaceRouteRule>,
    ws_opt: Option<Seq<char>>,
    provider_id: Seq<char>,
    replace: bool,
    now: i64,
    res: Result<UpsertRouteRuleOutcome, ProviderStoreError>,
) -> bool {
    match ws_opt {
        None => res matches Err(ProviderStoreError::InvalidWorkspace(_)) && after == before,
        Some(ws) => if !has_id(rows, provider_id) {
            res matches Err(ProviderStoreError::ProviderNotFound(x)) && x@ == provider_id && after
                == before
        } else {
            match rule_for(before, ws) {
                Some(r) => if !replace {
                    res matches Err(ProviderStoreError::RouteRuleAlreadyExists(x)) && x@ == ws && after
                        == before
                } else {
                    &&& res == Ok::<UpsertRouteRuleOutcome, ProviderStoreError>(UpsertRouteRuleOutcome::Replaced)
                    &&& after.len() == before.len()
                    &&& rule_for(after, ws) matches Some(n) && n.workspace == r.workspace
                        && n.provider_id@ == provider_id && n.created_at == r.created_at && n.updated_at == now
                    &&& forall|w: Seq<char>| w != ws ==> #[trigger] rule_for(after, w) == rule_for(
                        before,
                        w,
                    )
                },
                None => {
                    &&& res == Ok::<UpsertRouteRuleOutcome, ProviderStoreError>(UpsertRouteRuleOutcome::Inserted)
                    &&& after.len() == before.len() + 1
                    &&& rule_for(after, ws) matches Some(n) && n.workspace@ == ws
                        && n.provider_id@ == provider_id && n.created_at == now && n.updated_at == now
                    &&& forall|w: Seq<char>| w != ws ==> #[trigger] rule_for(after, w) == rule_for(
                        before,
                        w,
                    )
                },
            }
        },
    }
}

/// What `remove_route_rule` does to the rules.
pub open spec fn rule_removed(
    before: Seq<WorkspaceRouteRule>,
    after: Seq<WorkspaceRouteRule>,
    ws_opt: Option<Seq<char>>,
    res: Result<WorkspaceRouteRule, ProviderStoreError>,
) -> bool {
    match ws_opt {
        None => res matches Err(ProviderStoreError::InvalidWorkspace(_)) && after == before,
        Some(ws) => match rule_for(before, ws) {
            None => res matches Err(ProviderStoreError::RouteRuleNotFound(x)) && x@ == ws && after
                == before,
            Some(r) => {
                &&& res == Ok::<WorkspaceRouteRule, ProviderStoreError>(r)
                &&& rule_for(after, ws) is None
                &&& after.len() + 1 == before.len()
                &&& forall|w: Seq<char>| w != ws ==> #[trigger] rule_for(after, w) == rule_for(
                    before,
                    w,
                )
            },
        },
    }
}

/// What `get_route_rule` reads from the rules.
pub open spec fn rule_read(
    rules: Seq<WorkspaceRouteRule>,
    ws_opt: Option<Seq<char>>,
    res: Result<Option<WorkspaceRouteRule>, ProviderStoreError>,
) -> bool {
    match ws_opt {
        None => res matches Err(ProviderStoreError::InvalidWorkspace(_)),
        Some(ws) => res == Ok::<Option<WorkspaceRouteRule>, ProviderStoreError>(rule_for(rules, ws)),
    }
}

/// A read of a workspace gives back the rule that a successful write of it
/// wrote, with the provider written; other workspaces read as before.
pub proof fn lemma_rule_write_then_read(
    rows: Seq<StoredProvider>,
    before: Seq<WorkspaceRouteRule>,
    after: Seq<WorkspaceRouteRule>,
    ws: Seq<char>,
    provider_id: Seq<char>,
    replace: bool,
    now: i64,
    outcome: UpsertRouteRuleOutcome,
    other: Seq<char>,
)
    requires
        rule_upserted(rows, before, after, Some(ws), provider_id, replace, now, Ok(outcome)),
    ensures
        rule_for(after, ws) matches Some(r) && r.provider_id@ == provider_id && path_of_rule(r) == ws,
        other != ws ==> rule_for(after, other) == rule_for(before, other),
{
}

/// After a successful removal of a workspace's rule, a read of the
/// workspace finds none, and the removal handed back the rule a read found
/// before.
pub proof fn lemma_rule_remove_then_read(
    before: Seq<WorkspaceRouteRule>,
    after: Seq<WorkspaceRouteRule>,
    ws: Seq<char>,
    removed: WorkspaceRouteRule,
)
    requires
        rule_removed(before, after, Some(ws), Ok(removed)),
    ensures
        rule_for(after, ws) is None,
        rule_for(before, ws) == Some(removed),
{
}

/// The workspace path a rule is stored under.
pub open spec fn path_of_rule(r: WorkspaceRouteRule) -> Seq<char> {
    r.workspace@
}

/// The normalized workspace of a path, where it has one.
pub open spec fn norm_of(path: Seq<char>, canonical: Option<&str>) -> Option<Seq<char>> {
    normalized_spec(path, crate::lifecycle::opt_str(canonical))
}

impl ProviderStore {
    /// `res` is every provider, ordered by sort index, then creation time,
    /// then ID, equal keys in store order.
    pub open spec fn lists_providers(self, res: Seq<Provider>) -> bool {
        exists|idx: Seq<usize>|
            #![trigger is_perm(idx, self.rows_spec().len())]
            is_perm(idx, self.rows_spec().len()) && sorted_by_keys(provider_keys(self.rows_spec()), idx) && res.len()
                == idx.len() && forall|i: int| 0 <= i < idx.len() ==> #[trigger] res[i] == self.rows_spec()[idx[i] as int].provider
    }

    /// `res` is every route rule, in the order of `list_route_rules`.
    pub open spec fn lists_rules(self, res: Seq<WorkspaceRouteRule>) -> bool {
        exists|idx: Seq<usize>|
            #![trigger is_perm(idx, self.rules_spec().len())]
            is_perm(idx, self.rules_spec().len()) && sorted_by_keys(rule_keys(self.rules_spec()), idx) && res.len()
                == idx.len() && forall|i: int| 0 <= i < idx.len() ==> #[trigger] res[i] == self.rules_spec()[idx[i] as int]
    }
}

impl ProviderStore {
    /// Every provider, ordered by sort index, then creation time, then ID.
    pub fn list(&self) -> (res: Vec<Provider>)
        ensures
            self.lists_providers(res@),
    {
        let mut keys: Vec<(i64, i64, String)> = Vec::new();
        let mut i: usize = 0;
        while i < self.rows.len()
            invariant
                i <= self.rows@.len(),
                key_views(keys@) =~= provider_keys(self.rows@).take(i as int),
            decreases self.rows@.len() - i,
        {
            let p = &self.rows[i].provider;
            let a = match p.sort_index {
                Some(x) => x,
                None => 999999i64,
            };
            let b = match p.created_at {
                Some(x) => x,
                None => 9999999999999i64,
            };
            keys.push((a, b, p.id.clone()));
            i = i + 1;
        }
        assert(key_views(keys@) =~= provider_keys(self.rows@));
        let idx = sort_keys(&keys);
        let mut out: Vec<Provider> = Vec::new();
        let mut j: usize = 0;
        while j < idx.len()
            invariant
                j <= idx@.len(),
                is_perm(idx@, self.rows@.len()),
                out@.len() == j,
                forall|q: int| 0 <= q < j ==> #[trigger] out@[q] == self.rows@[idx@[q] as int].provider,
            decreases idx@.len() - j,
        {
            out.push(self.rows[idx[j]].provider.clone());
            j = j + 1;
        }
        assert(is_perm(idx@, self.rows_spec().len()));
        assert(sorted_by_keys(provider_keys(self.rows_spec()), idx@));
        out
    }

    /// Every route rule, ordered by workspace.
    pub fn list_route_rules(&self) -> (res: Vec<WorkspaceRouteRule>)
        ensures
            self.lists_rules(res@),
    {
        let mut keys: Vec<(i64, i64, String)> = Vec::new();
        let mut i: usize = 0;
        while i < self.rules.len()
            invariant
                i <= self.rules@.len(),
                key_views(keys@) =~= rule_keys(self.rules@).take(i as int),
            decreases self.rules@.len() - i,
        {
            keys.push((0i64, 0i64, self.rules[i].workspace.clone()));
            i = i + 1;
        }
        assert(key_views(keys@) =~= rule_keys(self.rules@));
        let idx = sort_keys(&keys);
        let mut out: Vec<WorkspaceRouteRule> = Vec::new();
        let mut j: usize = 0;
        while j < idx.len()
            invariant
                j <= idx@.len(),
                is_perm(idx@, self.rules@.len()),
                out@.len() == j,
                forall|q: int| 0 <= q < j ==> #[trigger] out@[q] == self.rules@[idx@[q] as int],
            decreases idx@.len() - j,
        {
            out.push(self.rules[idx[j]].clone());
            j = j + 1;
        }
        assert(is_perm(idx@, self.rules_spec().len()));
        assert(sorted_by_keys(rule_keys(self.rules_spec()), idx@));
        out
    }

    fn rule_index(&self, ws: &str) -> (res: Option<usize>)
        requires
            self.wf(),
        ensures
            match res {
                Some(i) => i < self.rules@.len() && self.rules@[i as int].workspace@ == ws@ && rule_for(self.rules@, ws@)
                    == Some(self.rules@[i as int]),
                None => rule_for(self.rules@, ws@) is None,
            },
    {
        let mut i: usize = 0;
        while i < self.rules.len()
            invariant
                i <= self.rules@.len(),
                forall|j: int| 0 <= j < i ==> (#[trigger] self.rules@[j]).workspace@ != ws@,
            decreases self.rules@.len() - i,
        {
            if str_eq(self.rules[i].workspace.as_str(), ws) {
                proof {
                    lemma_rule_at(self.rules@, i as int, ws@);
                }
                return Some(i);
            }
            i = i + 1;
        }
        None
    }

    /// The rule for a workspace.  `canonical` is what canonicalizing the
    /// path on disk gave.
    pub fn get_route_rule(&self, workspace: &str, canonical: Option<&str>) -> (res: Result<Option<WorkspaceRouteRule>, ProviderStoreError>)
        requires
            self.wf(),
        ensures
            rule_read(self.rules_spec(), norm_of(workspace@, canonical), res),
    {
        let ws = match normalize_workspace_path(workspace, canonical) {
            Ok(w) => w,
            Err(e) => {
                return Err(ProviderStoreError::InvalidWorkspace(e));
            },
        };
        match self.rule_index(ws.as_str()) {
            Some(i) => Ok(Some(self.rules[i].clone())),
            None => Ok(None),
        }
    }

    /// Routes a workspace to a provider: inserts its rule, or (with
    /// `replace`) rewrites the provider of the existing one.
    pub fn upsert_route_rule(
        &mut self,
        workspace: &str,
        canonical: Option<&str>,
        provider_id: &str,
        replace: bool,
        now: i64,
    ) -> (res: Result<UpsertRouteRuleOutcome, ProviderStoreError>)
        requires
            old(self).wf(),
        ensures
            final(self).wf(),
            final(self).rows_spec() == old(self).rows_spec(),
            final(self).path_spec() == old(self).path_spec(),
            rule_upserted(
                old(self).rows_spec(),
                old(self).rules_spec(),
                final(self).rules_spec(),
                norm_of(workspace@, canonical),
                provider_id@,
                replace,
                now,
                res,
            ),
    {
        let ws = match normalize_workspace_path(workspace, canonical) {
            Ok(w) => w,
            Err(e) => {
                return Err(ProviderStoreError::InvalidWorkspace(e));
            },
        };
        if self.index_of(provider_id).is_none() {
            return Err(ProviderStoreError::ProviderNotFound(owned(provider_id)));
        }
        let ghost before = self.rules@;
        match self.rule_index(ws.as_str()) {
            Some(i) => {
                if !replace {
                    return Err(ProviderStoreError::RouteRuleAlreadyExists(ws));
                }
                let old_rule = self.rules[i].clone();
                let rule = WorkspaceRouteRule {
                    workspace: old_rule.workspace,
                    provider_id: owned(provider_id),
                    created_at: old_rule.created_at,
                    updated_at: now,
                };
                self.rules.set(i, rule);
                proof {
                    let after = self.rules@;
                    assert forall|a: int, b: int|
                        0 <= a < after.len() && 0 <= b < after.len() && a != b implies #[trigger] after[a].workspace@
                        != #[trigger] after[b].workspace@ by {
                        assert(before[a].workspace@ != before[b].workspace@);
                    }
                    lemma_rule_at(after, i as int, ws@);
                    assert forall|w: Seq<char>| w != ws@ implies #[trigger] rule_for(after, w) == rule_for(before, w) by {
                        if exists|q: int| 0 <= q < before.len() && (#[trigger] before[q]).workspace@ == w {
                            let q = choose|q: int| 0 <= q < before.len() && (#[trigger] before[q]).workspace@ == w;
                            lemma_rule_at(before, q, w);
                            assert(after[q] == before[q]);
                            lemma_rule_at(after, q, w);
                        } else {
                            assert forall|q: int| 0 <= q < after.len() implies (#[trigger] after[q]).workspace@ != w by {
                                if q != i {
                                    assert(after[q] == before[q]);
                                }
                            }
                        }
                    }
                }
                Ok(UpsertRouteRuleOutcome::Replaced)
            },
            None => {
                let rule = WorkspaceRouteRule { workspace: ws, provider_id: owned(provider_id), created_at: now, updated_at: now };
                self.rules.push(rule);
                proof {
                    let after = self.rules@;
                    let n = before.len() as int;
                    assert forall|q: int| 0 <= q < n implies (#[trigger] before[q]).workspace@ != after[n].workspace@ by {}
                    assert forall|a: int, b: int|
                        0 <= a < after.len() && 0 <= b < after.len() && a != b implies #[trigger] after[a].workspace@
                        != #[trigger] after[b].workspace@ by {
                        if a < n && b < n {
                            assert(before[a].workspace@ != before[b].workspace@);
                        } else if a == n {
                            assert(after[b] == before[b]);
                        } else {
                            assert(after[a] == before[a]);
                        }
                    }
                    lemma_rule_at(after, n, after[n].workspace@);
                    assert forall|w: Seq<char>| w != after[n].workspace@ implies #[trigger] rule_for(after, w) == rule_for(before, w) by {
                        if exists|q: int| 0 <= q < before.len() && (#[trigger] before[q]).workspace@ == w {
                            let q = choose|q: int| 0 <= q < before.len() && (#[trigger] before[q]).workspace@ == w;
                            lemma_rule_at(before, q, w);
                            assert(after[q] == before[q]);
                            lemma_rule_at(after, q, w);
                        } else {
                            assert forall|q: int| 0 <= q < after.len() implies (#[trigger] after[q]).workspace@ != w by {
                                if q < n {
                                    assert(after[q] == before[q]);
                                }
                            }
                        }
                    }
                }
                Ok(UpsertRouteRuleOutcome::Inserted)
            },
        }
    }

    /// Removes the rule for a workspace and returns it.
    pub fn remove_route_rule(&mut self, workspace: &str, canonical: Option<&str>) -> (res: Result<WorkspaceRouteRule, ProviderStoreError>)
        requires
            old(self).wf(),
        ensures
            final(self).wf(),
            final(self).rows_spec() == old(self).rows_spec(),
            final(self).path_spec() == old(self).path_spec(),
            rule_removed(old(self).rules_spec(), final(self).rules_spec(), norm_of(workspace@, canonical), res),
    {
        let ws = match normalize_workspace_path(workspace, canonical) {
            Ok(w) => w,
            Err(e) => {
                return Err(ProviderStoreError::InvalidWorkspace(e));
            },
        };
        let ghost before = self.rules@;
        match self.rule_index(ws.as_str()) {
            None => Err(ProviderStoreError::RouteRuleNotFound(ws)),
            Some(i) => {
                let rule = self.rules.remove(i);
                proof {
                    let after = self.rules@;
                    assert forall|a: int, b: int|
                        0 <= a < after.len() && 0 <= b < after.len() && a != b implies #[trigger] after[a].workspace@
                        != #[trigger] after[b].workspace@ by {
                        let aa = if a < i { a } else { a + 1 };
                        let bb = if b < i { b } else { b + 1 };
                        assert(after[a] == before[aa]);
                        assert(after[b] == before[bb]);
                    }
                    assert forall|q: int| 0 <= q < after.len() implies (#[trigger] after[q]).workspace@ != ws@ by {
                        let qq = if q < i { q } else { q + 1 };
                        assert(after[q] == before[qq]);
                    }
                    assert forall|w: Seq<char>| w != ws@ implies #[trigger] rule_for(after, w) == rule_for(before, w) by {
                        if exists|q: int| 0 <= q < before.len() && (#[trigger] before[q]).workspace@ == w {
                            let q = choose|q: int| 0 <= q < before.len() && (#[trigger] before[q]).workspace@ == w;
                            lemma_rule_at(before, q, w);
                            let qq = if q < i { q } else { q - 1 };
                            assert(after[qq] == before[q]);
                            lemma_rule_at(after, qq, w);
                        } else {
                            assert forall|q: int| 0 <= q < after.len() implies (#[trigger] after[q]).workspace@ != w by {
                                let qq = if q < i { q } else { q + 1 };
                                assert(after[q] == before[qq]);
                            }
                        }
                    }
                }
                Ok(rule)
            },
        }
    }
}


/// `i` holds a current provider whose sort key is the least among current
/// providers.
pub open spec fn is_first_current(rows: Seq<StoredProvider>, i: int) -> bool {
    &&& 0 <= i < rows.len()
    &&& rows[i].provider.is_current
    &&& forall|j: int|
        0 <= j < rows.len() && (#[trigger] rows[j]).provider.is_current ==> key_order3(
            provider_key(rows[i].provider),
            provider_key(rows[j].provider),
        ) != Order::Greater
}

impl ProviderStore {
    /// The rule stored for a normalized workspace.
    pub fn rule_for_workspace(&self, ws: &str) -> (res: Option<WorkspaceRouteRule>)
        requires
            self.wf(),
        ensures
            res == rule_for(self.rules_spec(), ws@),
    {
        match self.rule_index(ws) {
            Some(i) => Some(self.rules[i].clone()),
            None => None,
        }
    }

    /// The current provider that comes first in the provider order.
    pub fn first_current(&self) -> (res: Option<Provider>)
        ensures
            match res {
                Some(p) => exists|i: int| is_first_current(self.rows_spec(), i) && #[trigger] self.rows_spec()[i].provider == p,
                None => !any_current(self.rows_spec()),
            },
    {
        let ghost rows = self.rows@;
        let mut best: Option<usize> = None;
        let mut i: usize = 0;
        while i < self.rows.len()
            invariant
                i <= rows.len(),
                rows == self.rows@,
                match best {
                    None => forall|j: int| 0 <= j < i ==> !(#[trigger] rows[j]).provider.is_current,
                    Some(b) => b < i && rows[b as int].provider.is_current && forall|j: int|
                        0 <= j < i && (#[trigger] rows[j]).provider.is_current ==> key_order3(
                            provider_key(rows[b as int].provider),
                            provider_key(rows[j].provider),
                        ) != Order::Greater,
                },
            decreases rows.len() - i,
        {
            if self.rows[i].provider.is_current {
                let ki = self.key_of(i);
                match best {
                    None => {
                        proof {
                            lemma_key_order3(provider_key(rows[i as int].provider), provider_key(rows[i as int].provider), provider_key(rows[i as int].provider));
                        }
                        best = Some(i);
                    },
                    Some(b) => {
                        let kb = self.key_of(b);
                        if compare_keys(&ki, &kb) == Order::Less {
                            proof {
                                assert forall|j: int|
                                    0 <= j <= i && (#[trigger] rows[j]).provider.is_current implies key_order3(
                                    provider_key(rows[i as int].provider),
                                    provider_key(rows[j].provider),
                                ) != Order::Greater by {
                                    lemma_key_order3(
                                        provider_key(rows[i as int].provider),
                                        provider_key(rows[b as int].provider),
                                        provider_key(rows[j].provider),
                                    );
                                    lemma_key_order3(provider_key(rows[i as int].provider), provider_key(rows[i as int].provider), provider_key(rows[i as int].provider));
                                }
                            }
                            best = Some(i);
                        } else {
                            proof {
                                lemma_key_order3(provider_key(rows[i as int].provider), provider_key(rows[b as int].provider), provider_key(rows[b as int].provider));
                            }
                        }
                    },
                }
            }
            i = i + 1;
        }
        match best {
            Some(b) => {
                let r = self.rows[b].provider.clone();
                assert(is_first_current(self.rows_spec(), b as int));
                assert(self.rows_spec()[b as int].provider == r);
                Some(r)
            },
            None => None,
        }
    }

    fn key_of(&self, i: usize) -> (res: (i64, i64, String))
        requires
            i < self.rows@.len(),
        ensures
            (res.0, res.1, res.2@) == provider_key(self.rows@[i as int].provider),
    {
        let p = &self.rows[i].provider;
        let a = match p.sort_index {
            Some(x) => x,
            None => 999999i64,
        };
        let b = match p.created_at {
            Some(x) => x,
            None => 9999999999999i64,
        };
        (a, b, p.id.clone())
    }
}

/// The provider sort key orders like a total order: its comparison flips
/// with its arguments, and two keys compare equal only where they are
/// equal.
pub proof fn lemma_provider_key_order(a: (i64, i64, Seq<char>), b: (i64, i64, Seq<char>))
    ensures
        key_order3(b, a) == key_order3(a, b).flip(),
        key_order3(a, b) == Order::Equal ==> a.2 == b.2,
{
    lemma_key_order3(a, b, b);
    crate::text::lemma_lex_equal(a.2, b.2);
}

/// The sort index a provider is listed by: its own, else 999999.
pub open spec fn listed_sort_index(p: Provider) -> int {
    match p.sort_index {
        Some(x) => x as int,
        None => 999999,
    }
}

/// The creation time a provider is listed by: its own, else
/// 9999999999999.
pub open spec fn listed_created_at(p: Provider) -> int {
    match p.created_at {
        Some(x) => x as int,
        None => 9999999999999,
    }
}

/// The catalog is listed by sort index, then creation time, then ID: of
/// two providers listed one before the other, the first never has the
/// larger sort index; with equal sort indexes, never the later creation
/// time; and with both equal, never the larger ID.  There are as many as
/// are stored.
pub proof fn lemma_list_order(store: ProviderStore, res: Seq<Provider>)
    requires
        store.lists_providers(res),
    ensures
        res.len() == store.rows_spec().len(),
        forall|i: int, j: int|
            0 <= i < j < res.len() ==> {
                let a = #[trigger] res[i];
                let b = #[trigger] res[j];
                &&& listed_sort_index(a) <= listed_sort_index(b)
                &&& listed_sort_index(a) == listed_sort_index(b) ==> listed_created_at(a) <= listed_created_at(b)
                &&& listed_sort_index(a) == listed_sort_index(b) && listed_created_at(a) == listed_created_at(b)
                    ==> lex(a.id@, b.id@) != Order::Greater
            },
{
    let rows = store.rows_spec();
    let idx = choose|idx: Seq<usize>|
        #![trigger is_perm(idx, rows.len())]
        is_perm(idx, rows.len()) && sorted_by_keys(provider_keys(rows), idx) && res.len() == idx.len() && forall|i: int|
            0 <= i < idx.len() ==> #[trigger] res[i] == rows[idx[i] as int].provider;
    let k = provider_keys(rows);
    assert forall|i: int, j: int| 0 <= i < j < res.len() implies {
        let a = #[trigger] res[i];
        let b = #[trigger] res[j];
        &&& listed_sort_index(a) <= listed_sort_index(b)
        &&& listed_sort_index(a) == listed_sort_index(b) ==> listed_created_at(a) <= listed_created_at(b)
        &&& listed_sort_index(a) == listed_sort_index(b) && listed_created_at(a) == listed_created_at(b) ==> lex(a.id@, b.id@)
            != Order::Greater
    } by {
        assert(key_order3(k[idx[i] as int], k[idx[j] as int]) != Order::Greater);
        assert(k[idx[i] as int] == provider_key(res[i]));
        assert(k[idx[j] as int] == provider_key(res[j]));
    }
}

/// The current provider picked first is current and comes first in the
/// listing order among the current ones: no current provider has a smaller
/// sort index, or the same with an earlier creation time, or both the same
/// with a smaller ID.
pub proof fn lemma_first_current_order(rows: Seq<StoredProvider>, i: int)
    requires
        is_first_current(rows, i),
    ensures
        rows[i].provider.is_current,
        forall|j: int|
            0 <= j < rows.len() && (#[trigger] rows[j]).provider.is_current ==> {
                let a = rows[i].provider;
                let b = rows[j].provider;
                &&& listed_sort_index(a) <= listed_sort_index(b)
                &&& listed_sort_index(a) == listed_sort_index(b) ==> listed_created_at(a) <= listed_created_at(b)
                &&& listed_sort_index(a) == listed_sort_index(b) && listed_created_at(a) == listed_created_at(b)
                    ==> lex(a.id@, b.id@) != Order::Greater
            },
{
}

/// Route rules are listed by workspace: of two rules listed one before
/// the other, the first never has the larger workspace text.
pub proof fn lemma_rule_list_order(store: ProviderStore, res: Seq<WorkspaceRouteRule>)
    requires
        store.lists_rules(res),
    ensures
        res.len() == store.rules_spec().len(),
        forall|i: int, j: int| 0 <= i < j < res.len() ==> lex((#[trigger] res[i]).workspace@, (#[trigger] res[j]).workspace@) != Order::Greater,
{
    let rules = store.rules_spec();
    let idx = choose|idx: Seq<usize>|
        #![trigger is_perm(idx, rules.len())]
        is_perm(idx, rules.len()) && sorted_by_keys(rule_keys(rules), idx) && res.len() == idx.len() && forall|i: int|
            0 <= i < idx.len() ==> #[trigger] res[i] == rules[idx[i] as int];
    let k = rule_keys(rules);
    assert forall|i: int, j: int| 0 <= i < j < res.len() implies lex((#[trigger] res[i]).workspace@, (#[trigger] res[j]).workspace@)
        != Order::Greater by {
        assert(key_order3(k[idx[i] as int], k[idx[j] as int]) != Order::Greater);
        assert(k[idx[i] as int] == (0i64, 0i64, res[i].workspace@));
        assert(k[idx[j] as int] == (0i64, 0i64, res[j].workspace@));
    }
}

} // verus!
