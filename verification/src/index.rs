//! The session-to-workspace index built from rollout `session_meta`
//! records.
use vstd::prelude::*;

use crate::paths::{is_absolute, is_absolute_str, lemma_path_trans, path_eq, path_order, path_order_exec};
use crate::config::ScanConfig;
use crate::paths::{join, path_starts_with};
use crate::rollout::{
    file_scan, is_archived_path, read_session_meta, scan_result_view, MetaView, RolloutError, RolloutFile, RolloutSessionMeta,
    ScanView,
};
use crate::sets::{
    first_of_class, from_firsts, key_eq, key_order, key_order_exec, lemma_key_order, lemma_sorted_pairwise, set_of, sorted_set,
    sorted_strict, views,
};
use crate::text::{
    int_order, is_blank_str, lemma_int_order, lemma_lex_ord, lemma_tie_trans, lex, lex_str, ord_trans, trim, trimmed,
    Order,
};
use crate::workspace_rule::{lexical, lexical_normalize};

verus! {

/// What the file system says of one recorded workspace path: its canonical
/// path where canonicalizing it succeeded, and whether its normalized path
/// exists.
#[derive(Debug)]
pub struct WorkspaceFact {
    pub path: String,
    pub canonical: Option<String>,
    pub exists: bool,
}

/// File-system facts about recorded workspace paths, gathered when the
/// index is built.
#[derive(Debug)]
pub struct WorkspaceFacts {
    pub facts: Vec<WorkspaceFact>,
}

pub open spec fn fact_of(facts: Seq<WorkspaceFact>, raw: Seq<char>) -> Option<WorkspaceFact>
    decreases facts.len(),
{
    if facts.len() == 0 {
        None
    } else if facts[0].path@ == raw {
        Some(facts[0])
    } else {
        fact_of(facts.drop_first(), raw)
    }
}

/// The normalized workspace of a recorded path: its canonical path where
/// it has one, else its lexical normalization; a path that cannot be
/// normalized (empty or relative) stays as it is.
pub open spec fn norm_ws(facts: Seq<WorkspaceFact>, raw: Seq<char>) -> Seq<char> {
    if raw.len() == 0 || !is_absolute(raw) {
        raw
    } else {
        match fact_of(facts, raw) {
            Some(f) => match f.canonical {
                Some(c) => c@,
                None => lexical(raw),
            },
            None => lexical(raw),
        }
    }
}

/// Whether the normalized workspace of a recorded path exists.
pub open spec fn ws_exists(facts: Seq<WorkspaceFact>, raw: Seq<char>) -> bool {
    match fact_of(facts, raw) {
        Some(f) => f.exists,
        None => false,
    }
}

impl WorkspaceFacts {
    fn find(&self, raw: &str) -> (res: Option<&WorkspaceFact>)
        ensures
            match res {
                Some(f) => fact_of(self.facts@, raw@) == Some(*f),
                None => fact_of(self.facts@, raw@) is None,
            },
    {
        let mut i: usize = 0;
        assert(self.facts@.subrange(0, self.facts@.len() as int) =~= self.facts@);
        while i < self.facts.len()
            invariant
                i <= self.facts@.len(),
                fact_of(self.facts@, raw@) == fact_of(self.facts@.subrange(i as int, self.facts@.len() as int), raw@),
            decreases self.facts@.len() - i,
        {
            let ghost rest = self.facts@.subrange(i as int, self.facts@.len() as int);
            assert(rest.drop_first() =~= self.facts@.subrange(i + 1, self.facts@.len() as int));
            assert(rest[0] == self.facts@[i as int]);
            if crate::text::str_eq(self.facts[i].path.as_str(), raw) {
                return Some(&self.facts[i]);
            }
            i = i + 1;
        }
        None
    }

    /// The normalized workspace of a recorded path.
    pub fn normalize(&self, raw: &str) -> (res: String)
        ensures
            res@ == norm_ws(self.facts@, raw@),
    {
        if is_blank_len(raw) || !is_absolute_str(raw) {
            return crate::text::owned(raw);
        }
        match self.find(raw) {
            Some(f) => match &f.canonical {
                Some(c) => c.clone(),
                None => lexical_normalize(raw),
            },
            None => lexical_normalize(raw),
        }
    }

    /// Whether the normalized workspace of a recorded path exists.
    pub fn workspace_exists(&self, raw: &str) -> (res: bool)
        ensures
            res == ws_exists(self.facts@, raw@),
    {
        match self.find(raw) {
            Some(f) => f.exists,
            None => false,
        }
    }
}

fn is_blank_len(s: &str) -> (res: bool)
    ensures
        res == (s@.len() == 0),
{
    crate::text::chars_of(s).len() == 0
}

/// `Option<String>` ordered with `Some` first.
pub open spec fn opt_str_some_first(a: Option<Seq<char>>, b: Option<Seq<char>>) -> Order {
    match (a, b) {
        (Some(x), Some(y)) => lex(x, y),
        (Some(_), None) => Order::Less,
        (None, Some(_)) => Order::Greater,
        (None, None) => Order::Equal,
    }
}

/// `Option<String>` in its own order: `None` first.
pub open spec fn opt_str_none_first(a: Option<Seq<char>>, b: Option<Seq<char>>) -> Order {
    match (a, b) {
        (Some(x), Some(y)) => lex(x, y),
        (Some(_), None) => Order::Greater,
        (None, Some(_)) => Order::Less,
        (None, None) => Order::Equal,
    }
}

/// Optional times ordered with `Some` first.
pub open spec fn opt_time_some_first(a: Option<i128>, b: Option<i128>) -> Order {
    match (a, b) {
        (Some(x), Some(y)) => int_order(x as int, y as int),
        (Some(_), None) => Order::Less,
        (None, Some(_)) => Order::Greater,
        (None, None) => Order::Equal,
    }
}

/// The order in which a session's records are ranked: oldest recorded
/// timestamp first, then oldest file, then rollout path.
pub open spec fn record_order(l: MetaView, r: MetaView) -> Order {
    opt_str_some_first(l.timestamp, r.timestamp).tie(opt_time_some_first(l.modified_at, r.modified_at)).tie(
        path_order(l.rollout_path, r.rollout_path),
    )
}

/// How recent a record is: by file modification time (a record with one
/// is more recent than a record without), else by recorded timestamp;
/// then by rollout path.
pub open spec fn recency_order(l: MetaView, r: MetaView) -> Order {
    (match (l.modified_at, r.modified_at) {
        (Some(a), Some(b)) => int_order(a as int, b as int),
        (Some(_), None) => Order::Greater,
        (None, Some(_)) => Order::Less,
        (None, None) => opt_str_none_first(l.timestamp, r.timestamp),
    }).tie(path_order(l.rollout_path, r.rollout_path))
}

fn opt_lex(a: &Option<String>, b: &Option<String>, some_first: bool) -> (res: Order)
    ensures
        res == if some_first {
            opt_str_some_first(crate::codex_provider::opt_view(*a), crate::codex_provider::opt_view(*b))
        } else {
            opt_str_none_first(crate::codex_provider::opt_view(*a), crate::codex_provider::opt_view(*b))
        },
{
    match (a, b) {
        (Some(x), Some(y)) => lex_str(x.as_str(), y.as_str()),
        (Some(_), None) => if some_first {
            Order::Less
        } else {
            Order::Greater
        },
        (None, Some(_)) => if some_first {
            Order::Greater
        } else {
            Order::Less
        },
        (None, None) => Order::Equal,
    }
}

fn i128_order(a: i128, b: i128) -> (res: Order)
    ensures
        res == int_order(a as int, b as int),
{
    if a < b {
        Order::Less
    } else if a == b {
        Order::Equal
    } else {
        Order::Greater
    }
}

fn tie(a: Order, b: Order) -> (res: Order)
    ensures
        res == a.tie(b),
{
    match a {
        Order::Equal => b,
        _ => a,
    }
}

/// `compare_records`.
pub fn compare_records(l: &RolloutSessionMeta, r: &RolloutSessionMeta) -> (res: Order)
    ensures
        res == record_order(l.view(), r.view()),
{
    let a = opt_lex(&l.timestamp, &r.timestamp, true);
    let b = match (l.modified_at, r.modified_at) {
        (Some(x), Some(y)) => i128_order(x, y),
        (Some(_), None) => Order::Less,
        (None, Some(_)) => Order::Greater,
        (None, None) => Order::Equal,
    };
    let c = path_order_exec(l.rollout_path.as_str(), r.rollout_path.as_str());
    tie(tie(a, b), c)
}

/// `compare_recency`.
pub fn compare_recency(l: &RolloutSessionMeta, r: &RolloutSessionMeta) -> (res: Order)
    ensures
        res == recency_order(l.view(), r.view()),
{
    let a = match (l.modified_at, r.modified_at) {
        (Some(x), Some(y)) => i128_order(x, y),
        (Some(_), None) => Order::Greater,
        (None, Some(_)) => Order::Less,
        (None, None) => opt_lex(&l.timestamp, &r.timestamp, false),
    };
    let c = path_order_exec(l.rollout_path.as_str(), r.rollout_path.as_str());
    tie(a, c)
}

/// `compare_activity_desc`: the most recent activity first, no activity
/// last.
pub open spec fn activity_desc(l: Option<i64>, r: Option<i64>) -> Order {
    match (r, l) {
        (Some(a), Some(b)) => int_order(a as int, b as int),
        (Some(_), None) => Order::Greater,
        (None, Some(_)) => Order::Less,
        (None, None) => Order::Equal,
    }
}

pub fn compare_activity_desc(left: Option<i64>, right: Option<i64>) -> (res: Order)
    ensures
        res == activity_desc(left, right),
{
    match (right, left) {
        (Some(a), Some(b)) => if a < b {
            Order::Less
        } else if a == b {
            Order::Equal
        } else {
            Order::Greater
        },
        (Some(_), None) => Order::Greater,
        (None, Some(_)) => Order::Less,
        (None, None) => Order::Equal,
    }
}

#[derive(Debug, PartialEq, Eq)]
pub enum IndexError {
    Rollout(RolloutError),
}

#[derive(Debug, PartialEq, Eq)]
pub enum ResolveError {
    EmptySessionId,
    SessionNotFound(String),
}

impl IndexError {
    /// The error's message: that of the rollout error.
    pub fn message(&self) -> (res: String)
        ensures
            match self {
                IndexError::Rollout(e) => res@ == e.message_spec(),
            },
    {
        match self {
            IndexError::Rollout(e) => e.message(),
        }
    }
}

impl ResolveError {
    /// The error's message, as its `Display` gives it.
    pub fn message(&self) -> (res: String)
        ensures
            res@ == match self {
                ResolveError::EmptySessionId => "session_id must not be empty"@,
                ResolveError::SessionNotFound(s) => "no rollout was found for session_id "@ + s@,
            },
    {
        match self {
            ResolveError::EmptySessionId => crate::text::owned("session_id must not be empty"),
            ResolveError::SessionNotFound(s) => crate::text::concat("no rollout was found for session_id ", s.as_str()),
        }
    }
}


pub proof fn lemma_opt_str_some_first(a: Option<Seq<char>>, b: Option<Seq<char>>, c: Option<Seq<char>>)
    ensures
        ord_trans(opt_str_some_first(a, b), opt_str_some_first(b, c), opt_str_some_first(a, c)),
        opt_str_some_first(b, a) == opt_str_some_first(a, b).flip(),
{
    match (a, b, c) {
        (Some(x), Some(y), Some(z)) => lemma_lex_ord(x, y, z),
        (Some(x), Some(y), None) => lemma_lex_ord(x, y, y),
        _ => {},
    }
}

pub proof fn lemma_opt_str_none_first(a: Option<Seq<char>>, b: Option<Seq<char>>, c: Option<Seq<char>>)
    ensures
        ord_trans(opt_str_none_first(a, b), opt_str_none_first(b, c), opt_str_none_first(a, c)),
        opt_str_none_first(b, a) == opt_str_none_first(a, b).flip(),
{
    match (a, b, c) {
        (Some(x), Some(y), Some(z)) => lemma_lex_ord(x, y, z),
        (Some(x), Some(y), None) => lemma_lex_ord(x, y, y),
        _ => {},
    }
}

pub proof fn lemma_opt_time(a: Option<i128>, b: Option<i128>, c: Option<i128>)
    ensures
        ord_trans(opt_time_some_first(a, b), opt_time_some_first(b, c), opt_time_some_first(a, c)),
        opt_time_some_first(b, a) == opt_time_some_first(a, b).flip(),
{
    match (a, b, c) {
        (Some(x), Some(y), Some(z)) => lemma_int_order(x as int, y as int, z as int),
        (Some(x), Some(y), None) => lemma_int_order(x as int, y as int, y as int),
        _ => {},
    }
}

/// The record order is a total preorder.
pub proof fn lemma_record_order(a: MetaView, b: MetaView, c: MetaView)
    ensures
        ord_trans(record_order(a, b), record_order(b, c), record_order(a, c)),
        record_order(b, a) == record_order(a, b).flip(),
{
    lemma_opt_str_some_first(a.timestamp, b.timestamp, c.timestamp);
    lemma_opt_time(a.modified_at, b.modified_at, c.modified_at);
    lemma_path_trans(a.rollout_path, b.rollout_path, c.rollout_path);
    let t_ab = opt_str_some_first(a.timestamp, b.timestamp);
    let t_bc = opt_str_some_first(b.timestamp, c.timestamp);
    let t_ac = opt_str_some_first(a.timestamp, c.timestamp);
    let m_ab = opt_time_some_first(a.modified_at, b.modified_at);
    let m_bc = opt_time_some_first(b.modified_at, c.modified_at);
    let m_ac = opt_time_some_first(a.modified_at, c.modified_at);
    lemma_tie_trans(t_ab, t_bc, t_ac, m_ab, m_bc, m_ac);
    lemma_tie_trans(
        t_ab.tie(m_ab),
        t_bc.tie(m_bc),
        t_ac.tie(m_ac),
        path_order(a.rollout_path, b.rollout_path),
        path_order(b.rollout_path, c.rollout_path),
        path_order(a.rollout_path, c.rollout_path),
    );
}

pub open spec fn recency_head(l: MetaView, r: MetaView) -> Order {
    match (l.modified_at, r.modified_at) {
        (Some(a), Some(b)) => int_order(a as int, b as int),
        (Some(_), None) => Order::Greater,
        (None, Some(_)) => Order::Less,
        (None, None) => opt_str_none_first(l.timestamp, r.timestamp),
    }
}

/// The recency order is a total preorder.
pub proof fn lemma_recency_order(a: MetaView, b: MetaView, c: MetaView)
    ensures
        ord_trans(recency_order(a, b), recency_order(b, c), recency_order(a, c)),
        recency_order(b, a) == recency_order(a, b).flip(),
{
    lemma_opt_str_none_first(a.timestamp, b.timestamp, c.timestamp);
    lemma_path_trans(a.rollout_path, b.rollout_path, c.rollout_path);
    match (a.modified_at, b.modified_at, c.modified_at) {
        (Some(x), Some(y), Some(z)) => lemma_int_order(x as int, y as int, z as int),
        (Some(x), Some(y), None) => lemma_int_order(x as int, y as int, y as int),
        (None, Some(y), Some(z)) => lemma_int_order(y as int, z as int, z as int),
        _ => {},
    }
    assert(ord_trans(recency_head(a, b), recency_head(b, c), recency_head(a, c)));
    lemma_tie_trans(
        recency_head(a, b),
        recency_head(b, c),
        recency_head(a, c),
        path_order(a.rollout_path, b.rollout_path),
        path_order(b.rollout_path, c.rollout_path),
        path_order(a.rollout_path, c.rollout_path),
    );
}


/// The result of resolving a session ID.
#[derive(Debug, PartialEq, Eq)]
pub struct WorkspaceLookup {
    pub session_id: String,
    pub workspace: String,
    pub workspace_exists: bool,
    pub workspaces: Vec<String>,
    pub thread_ids: Vec<String>,
    pub rollout_paths: Vec<String>,
    pub conflicting_workspaces: bool,
}

/// One workspace of the index with the sessions recorded in it.
#[derive(Debug, PartialEq, Eq)]
pub struct WorkspaceAggregate {
    pub workspace: String,
    pub workspace_exists: bool,
    pub session_ids: Vec<String>,
    pub thread_ids: Vec<String>,
    pub rollout_paths: Vec<String>,
    pub last_activity: Option<i64>,
    pub conflicting_sessions: bool,
}

/// The records of a session, in the order they were scanned.
#[derive(Debug)]
pub struct SessionGroup {
    pub session_id: String,
    pub records: Vec<RolloutSessionMeta>,
}

pub open spec fn meta_views(rs: Seq<RolloutSessionMeta>) -> Seq<MetaView> {
    rs.map_values(|m: RolloutSessionMeta| m.view())
}

pub open spec fn group_ids(gs: Seq<SessionGroup>) -> Seq<Seq<char>> {
    gs.map_values(|g: SessionGroup| g.session_id@)
}

pub open spec fn has_session(gs: Seq<SessionGroup>, sid: Seq<char>) -> bool {
    exists|i: int| 0 <= i < gs.len() && (#[trigger] gs[i]).session_id@ == sid
}

/// The records of a session: those of the group that holds its ID, none
/// where no group does.
pub open spec fn records_in(gs: Seq<SessionGroup>, sid: Seq<char>) -> Seq<MetaView> {
    if has_session(gs, sid) {
        let i = choose|i: int| 0 <= i < gs.len() && (#[trigger] gs[i]).session_id@ == sid;
        meta_views(gs[i].records@)
    } else {
        Seq::empty()
    }
}

/// Sessions are held in increasing order of ID, each once, each with at
/// least one record, each record under its own session's ID.
pub open spec fn groups_wf(gs: Seq<SessionGroup>) -> bool {
    &&& sorted_strict(false, group_ids(gs))
    &&& forall|i: int, j: int|
        0 <= i < gs.len() && 0 <= j < gs.len() && i != j ==> #[trigger] gs[i].session_id@ != #[trigger] gs[j].session_id@
    &&& forall|i: int| 0 <= i < gs.len() ==> (#[trigger] gs[i]).records@.len() > 0
    &&& forall|i: int, k: int|
        0 <= i < gs.len() && 0 <= k < gs[i].records@.len() ==> (#[trigger] gs[i].records@[k]).session_id@
            == gs[i].session_id@
}

proof fn lemma_records_at(gs: Seq<SessionGroup>, i: int, sid: Seq<char>)
    requires
        groups_wf(gs),
        0 <= i < gs.len(),
        gs[i].session_id@ == sid,
    ensures
        records_in(gs, sid) == meta_views(gs[i].records@),
{
    assert(has_session(gs, sid));
    let j = choose|j: int| 0 <= j < gs.len() && (#[trigger] gs[j]).session_id@ == sid;
    if j != i {
        assert(gs[j].session_id@ == gs[i].session_id@);
    }
}

/// The records for a session among a sequence of records, in order.
pub open spec fn metas_for(ms: Seq<MetaView>, sid: Seq<char>) -> Seq<MetaView>
    decreases ms.len(),
{
    if ms.len() == 0 {
        Seq::empty()
    } else if ms.last().session_id == sid {
        metas_for(ms.drop_last(), sid).push(ms.last())
    } else {
        metas_for(ms.drop_last(), sid)
    }
}

/// The records that a list of scan outcomes found, in order.
pub open spec fn found_metas(scans: Seq<Result<Option<RolloutSessionMeta>, RolloutError>>) -> Seq<MetaView>
    decreases scans.len(),
{
    if scans.len() == 0 {
        Seq::empty()
    } else {
        let rest = found_metas(scans.drop_last());
        match scans.last() {
            Ok(Some(m)) => rest.push(m.view()),
            _ => rest,
        }
    }
}

/// A scan outcome that aborts building the index: an error other than a
/// rollout whose prefix exceeded the scan limit.
pub open spec fn fatal(r: Result<Option<RolloutSessionMeta>, RolloutError>) -> bool {
    match r {
        Err(RolloutError::ScanLimitExceeded { .. }) => false,
        Err(_) => true,
        Ok(_) => false,
    }
}

proof fn lemma_insert_sorted_keys(s: Seq<Seq<char>>, x: Seq<char>, k: int)
    requires
        0 <= k <= s.len(),
        sorted_strict(false, s),
        forall|m: int| 0 <= m < k ==> key_order(false, #[trigger] s[m], x) == Order::Less,
        k < s.len() ==> key_order(false, x, s[k]) == Order::Less,
    ensures
        sorted_strict(false, s.insert(k, x)),
{
    let v = s.insert(k, x);
    assert forall|i: int, j: int| #![trigger v[i], v[j]] 0 <= i && j == i + 1 && j < v.len() implies key_order(
        false,
        v[i],
        v[j],
    ) == Order::Less by {
        if i < k - 1 {
            assert(v[i] == s[i]);
            assert(v[i + 1] == s[i + 1]);
        } else if i == k - 1 {
            assert(v[i] == s[i]);
            assert(v[i + 1] == x);
        } else if i == k {
            assert(v[i] == x);
            assert(v[i + 1] == s[i]);
        } else {
            assert(v[i] == s[i - 1]);
            assert(v[i + 1] == s[i]);
        }
    }
}

/// Adds a record to the group of its session, creating the group in its
/// place among the others where there is none.
fn add_record(groups: &mut Vec<SessionGroup>, meta: RolloutSessionMeta)
    requires
        groups_wf(old(groups)@),
    ensures
        groups_wf(final(groups)@),
        forall|sid: Seq<char>|
            #![trigger records_in(final(groups)@, sid)]
            records_in(final(groups)@, sid) == if sid == meta.session_id@ {
                records_in(old(groups)@, sid).push(meta.view())
            } else {
                records_in(old(groups)@, sid)
            },
{
    let ghost old_g = groups@;
    let ghost mid = meta.session_id@;
    let n = groups.len();
    let mut i: usize = 0;
    while i < n
        invariant
            i <= n == groups@.len(),
            groups@ == old_g,
            forall|m: int| 0 <= m < i ==> (#[trigger] groups@[m]).session_id@ != mid,
        decreases n - i,
    {
        if crate::text::str_eq(groups[i].session_id.as_str(), meta.session_id.as_str()) {
            let mut g = groups.remove(i);
            let ghost old_recs = g.records@;
            g.records.push(meta);
            groups.insert(i, g);
            proof {
                let ng = groups@;
                assert(ng =~= old_g.update(i as int, ng[i as int]));
                assert(group_ids(ng) =~= group_ids(old_g));
                assert(meta_views(ng[i as int].records@) =~= meta_views(old_recs).push(meta.view()));
                assert forall|sid: Seq<char>| #![trigger records_in(ng, sid)]
                    records_in(ng, sid) == if sid == mid {
                        records_in(old_g, sid).push(meta.view())
                    } else {
                        records_in(old_g, sid)
                    } by {
                    if sid == mid {
                        lemma_records_at(old_g, i as int, sid);
                        lemma_records_at(ng, i as int, sid);
                    } else if has_session(old_g, sid) {
                        let j = choose|j: int| 0 <= j < old_g.len() && (#[trigger] old_g[j]).session_id@ == sid;
                        lemma_records_at(old_g, j, sid);
                        assert(ng[j] == old_g[j]);
                        lemma_records_at(ng, j, sid);
                    } else {
                        assert forall|j: int| 0 <= j < ng.len() implies (#[trigger] ng[j]).session_id@ != sid by {
                            if j != i {
                                assert(ng[j] == old_g[j]);
                            }
                        }
                    }
                }
            }
            return;
        }
        i = i + 1;
    }
    let mut k: usize = 0;
    while k < n && key_order_exec(false, groups[k].session_id.as_str(), meta.session_id.as_str()) == Order::Less
        invariant
            k <= n == groups@.len(),
            groups@ == old_g,
            forall|m: int| 0 <= m < k ==> key_order(false, (#[trigger] groups@[m]).session_id@, mid) == Order::Less,
        decreases n - k,
    {
        k = k + 1;
    }
    proof {
        if k < n {
            lemma_key_order(false, old_g[k as int].session_id@, mid);
            reveal(crate::sets::key_eq);
        }
    }
    let sid_copy = meta.session_id.clone();
    let mut recs: Vec<RolloutSessionMeta> = Vec::new();
    recs.push(meta);
    let g = SessionGroup { session_id: sid_copy, records: recs };
    groups.insert(k, g);
    proof {
        let ng = groups@;
        assert(ng =~= old_g.insert(k as int, g));
        assert(group_ids(ng) =~= group_ids(old_g).insert(k as int, mid));
        lemma_insert_sorted_keys(group_ids(old_g), mid, k as int);
        assert(meta_views(g.records@) =~= seq![meta.view()]);
        assert forall|sid: Seq<char>| #![trigger records_in(ng, sid)]
            records_in(ng, sid) == if sid == mid {
                records_in(old_g, sid).push(meta.view())
            } else {
                records_in(old_g, sid)
            } by {
            if sid == mid {
                lemma_records_at(ng, k as int, sid);
                assert(!has_session(old_g, sid));
                assert(Seq::<MetaView>::empty().push(meta.view()) =~= seq![meta.view()]);
            } else if has_session(old_g, sid) {
                let j = choose|j: int| 0 <= j < old_g.len() && (#[trigger] old_g[j]).session_id@ == sid;
                lemma_records_at(old_g, j, sid);
                if j < k {
                    assert(ng[j] == old_g[j]);
                    lemma_records_at(ng, j, sid);
                } else {
                    assert(ng[j + 1] == old_g[j]);
                    lemma_records_at(ng, j + 1, sid);
                }
            } else {
                assert forall|j: int| 0 <= j < ng.len() implies (#[trigger] ng[j]).session_id@ != sid by {
                    if j < k {
                        assert(ng[j] == old_g[j]);
                    } else if j > k {
                        assert(ng[j] == old_g[j - 1]);
                    }
                }
            }
        }
    }
}

#[derive(Debug)]
pub struct SessionWorkspaceIndex {
    groups: Vec<SessionGroup>,
    facts: WorkspaceFacts,
}

impl SessionWorkspaceIndex {
    pub closed spec fn wf(self) -> bool {
        groups_wf(self.groups@)
    }

    /// The session IDs, in increasing order.
    pub closed spec fn ids(self) -> Seq<Seq<char>> {
        group_ids(self.groups@)
    }

    /// The records of a session, in the order they were scanned.
    pub closed spec fn records_of(self, sid: Seq<char>) -> Seq<MetaView> {
        records_in(self.groups@, sid)
    }

    /// All records, session by session in increasing order of ID.
    pub closed spec fn all(self) -> Seq<MetaView> {
        all_records(self.groups@)
    }

    pub closed spec fn facts_of(self) -> Seq<WorkspaceFact> {
        self.facts.facts@
    }

    /// The index of the records that a scan found: it fails with the first
    /// error that is not a rollout over the scan limit; the records of each
    /// session are kept in the order they were found.
    pub fn from_scans(
        scans: Vec<Result<Option<RolloutSessionMeta>, RolloutError>>,
        facts: WorkspaceFacts,
    ) -> (res: Result<Self, IndexError>)
        ensures
            match res {
                Ok(idx) => {
                    &&& idx.wf()
                    &&& idx.facts_of() == facts.facts@
                    &&& forall|k: int| 0 <= k < scans@.len() ==> !fatal(#[trigger] scans@[k])
                    &&& forall|sid: Seq<char>| #[trigger] idx.records_of(sid) == metas_for(found_metas(scans@), sid)
                },
                Err(IndexError::Rollout(e)) => exists|k: int|
                    0 <= k < scans@.len() && fatal(#[trigger] scans@[k]) && scans@[k] == Err::<
                        Option<RolloutSessionMeta>,
                        RolloutError,
                    >(e) && forall|j: int| 0 <= j < k ==> !fatal(#[trigger] scans@[j]),
            },
    {
        let ghost orig = scans@;
        let mut scans = scans;
        let mut groups: Vec<SessionGroup> = Vec::new();
        let ghost mut i: int = 0;
        proof {
            assert(orig.take(0) =~= Seq::<Result<Option<RolloutSessionMeta>, RolloutError>>::empty());
            assert forall|sid: Seq<char>| #[trigger] records_in(groups@, sid) == metas_for(found_metas(orig.take(0)), sid) by {
            }
            assert(group_ids(groups@) =~= Seq::<Seq<char>>::empty());
        }
        while scans.len() > 0
            invariant
                0 <= i <= orig.len(),
                scans@ =~= orig.subrange(i, orig.len() as int),
                forall|k: int| 0 <= k < i ==> !fatal(#[trigger] orig[k]),
                groups_wf(groups@),
                forall|sid: Seq<char>| #[trigger] records_in(groups@, sid) == metas_for(found_metas(orig.take(i)), sid),
            decreases scans@.len(),
        {
            let item = scans.remove(0);
            proof {
                assert(item == orig[i]);
                assert(orig.take(i + 1).drop_last() =~= orig.take(i));
                assert(orig.take(i + 1).last() == orig[i]);
            }
            match item {
                Ok(Some(meta)) => {
                    let ghost before = groups@;
                    let ghost m = meta.view();
                    add_record(&mut groups, meta);
                    proof {
                        let fm = found_metas(orig.take(i));
                        assert(found_metas(orig.take(i + 1)) == fm.push(m));
                        assert(fm.push(m).drop_last() =~= fm);
                        assert forall|sid: Seq<char>| #[trigger] records_in(groups@, sid) == metas_for(
                            found_metas(orig.take(i + 1)),
                            sid,
                        ) by {
                            assert(records_in(before, sid) == metas_for(fm, sid));
                        }
                    }
                },
                Ok(None) => {
                    proof {
                        assert(found_metas(orig.take(i + 1)) == found_metas(orig.take(i)));
                    }
                },
                Err(RolloutError::ScanLimitExceeded { .. }) => {
                    proof {
                        assert(found_metas(orig.take(i + 1)) == found_metas(orig.take(i)));
                    }
                },
                Err(e) => {
                    return Err(IndexError::Rollout(e));
                },
            }
            proof {
                i = i + 1;
                assert(scans@ =~= orig.subrange(i, orig.len() as int));
            }
        }
        proof {
            assert(orig.take(i) =~= orig);
        }
        Ok(SessionWorkspaceIndex { groups, facts })
    }

    /// Every session ID, once each, in increasing order.
    pub fn session_ids(&self) -> (res: Vec<String>)
        requires
            self.wf(),
        ensures
            views(res@) == self.ids(),
    {
        let mut out: Vec<String> = Vec::new();
        let mut i: usize = 0;
        while i < self.groups.len()
            invariant
                i <= self.groups@.len(),
                views(out@) =~= group_ids(self.groups@).take(i as int),
            decreases self.groups@.len() - i,
        {
            out.push(self.groups[i].session_id.clone());
            i = i + 1;
        }
        out
    }
}

/// The records of the given sessions, one session after another in the
/// given order.
pub open spec fn records_by_session(ids: Seq<Seq<char>>, recs: spec_fn(Seq<char>) -> Seq<MetaView>) -> Seq<MetaView>
    decreases ids.len(),
{
    if ids.len() == 0 {
        Seq::empty()
    } else {
        records_by_session(ids.drop_last(), recs) + recs(ids.last())
    }
}

proof fn lemma_all_prefix(gs: Seq<SessionGroup>, n: int)
    requires
        groups_wf(gs),
        0 <= n <= gs.len(),
    ensures
        all_records(gs.take(n)) == records_by_session(group_ids(gs).take(n), |sid: Seq<char>| records_in(gs, sid)),
    decreases n,
{
    if n > 0 {
        lemma_all_prefix(gs, n - 1);
        assert(gs.take(n).drop_last() =~= gs.take(n - 1));
        assert(group_ids(gs).take(n).drop_last() =~= group_ids(gs).take(n - 1));
        lemma_records_at(gs, n - 1, gs[n - 1].session_id@);
        assert(group_ids(gs).take(n).last() == gs[n - 1].session_id@);
    } else {
        assert(gs.take(0) =~= Seq::<SessionGroup>::empty());
        assert(group_ids(gs).take(0) =~= Seq::<Seq<char>>::empty());
    }
}

impl SessionWorkspaceIndex {
    /// What the listings of an index hold: its session IDs are strictly
    /// increasing and are exactly the sessions that have records; each
    /// record of a session carries that session's ID; and all records are
    /// the records of each session in turn, in the order of the IDs.
    pub proof fn lemma_listings(self)
        requires
            self.wf(),
        ensures
            sorted_strict(false, self.ids()),
            forall|sid: Seq<char>| #[trigger] self.ids().contains(sid) <==> self.records_of(sid).len() > 0,
            forall|sid: Seq<char>, k: int|
                0 <= k < self.records_of(sid).len() ==> (#[trigger] self.records_of(sid)[k]).session_id == sid,
            self.all() == records_by_session(self.ids(), |sid: Seq<char>| self.records_of(sid)),
    {
        let gs = self.groups@;
        assert forall|sid: Seq<char>| #[trigger] self.ids().contains(sid) <==> self.records_of(sid).len() > 0 by {
            if self.ids().contains(sid) {
                let i = choose|i: int| 0 <= i < self.ids().len() && self.ids()[i] == sid;
                lemma_records_at(gs, i, sid);
            }
            if self.records_of(sid).len() > 0 {
                assert(has_session(gs, sid));
                let i = choose|i: int| 0 <= i < gs.len() && (#[trigger] gs[i]).session_id@ == sid;
                assert(self.ids()[i] == sid);
            }
        }
        assert forall|sid: Seq<char>, k: int|
            0 <= k < self.records_of(sid).len() implies (#[trigger] self.records_of(sid)[k]).session_id == sid by {
            let i = choose|i: int| 0 <= i < gs.len() && (#[trigger] gs[i]).session_id@ == sid;
            lemma_records_at(gs, i, sid);
            assert(gs[i].records@[k].session_id@ == sid);
        }
        lemma_all_prefix(gs, gs.len() as int);
        assert(gs.take(gs.len() as int) =~= gs);
        assert(group_ids(gs).take(gs.len() as int) =~= group_ids(gs));
        assert((|sid: Seq<char>| self.records_of(sid)) =~= (|sid: Seq<char>| records_in(gs, sid)));
    }
}

/// All records of the index, session by session.
pub open spec fn all_records(gs: Seq<SessionGroup>) -> Seq<MetaView>
    decreases gs.len(),
{
    if gs.len() == 0 {
        Seq::empty()
    } else {
        all_records(gs.drop_last()) + meta_views(gs.last().records@)
    }
}


/// Whether `i` is the first least element of `s` in the record order.
pub open spec fn is_first_min(s: Seq<MetaView>, i: int) -> bool {
    &&& 0 <= i < s.len()
    &&& forall|k: int| 0 <= k < s.len() ==> record_order(#[trigger] s[k], s[i]) != Order::Less
    &&& forall|k: int| 0 <= k < i ==> record_order(#[trigger] s[k], s[i]) == Order::Greater
}

pub open spec fn first_min(s: Seq<MetaView>) -> int {
    choose|i: int| is_first_min(s, i)
}

/// The records as a stable sort by the record order ranks them: the first
/// least one, then the rest ranked.
pub open spec fn ranked(s: Seq<MetaView>) -> Seq<MetaView>
    decreases s.len(),
{
    if s.len() == 0 {
        Seq::empty()
    } else {
        let i = first_min(s);
        if 0 <= i < s.len() {
            seq![s[i]] + ranked(s.remove(i))
        } else {
            Seq::empty()
        }
    }
}

proof fn lemma_first_min_exists(s: Seq<MetaView>)
    requires
        s.len() > 0,
    ensures
        is_first_min(s, first_min(s)),
    decreases s.len(),
{
    let t = s.drop_last();
    let n = s.len() - 1;
    if t.len() == 0 {
        lemma_record_order(s[0], s[0], s[0]);
        assert(is_first_min(s, 0));
    } else {
        lemma_first_min_exists(t);
        let b = first_min(t);
        if record_order(s[n], s[b]) == Order::Less {
            assert forall|k: int| 0 <= k < n implies record_order(#[trigger] s[k], s[n]) == Order::Greater by {
                assert(s[k] == t[k]);
                lemma_record_order(s[k], s[n], s[b]);
                lemma_record_order(s[n], s[k], s[k]);
            }
            lemma_record_order(s[n], s[n], s[n]);
            assert(is_first_min(s, n));
        } else {
            assert forall|k: int| 0 <= k < s.len() implies record_order(#[trigger] s[k], s[b]) != Order::Less by {
                if k < n {
                    assert(s[k] == t[k]);
                }
            }
            assert forall|k: int| 0 <= k < b implies record_order(#[trigger] s[k], s[b]) == Order::Greater by {
                assert(s[k] == t[k]);
            }
            assert(is_first_min(s, b));
        }
    }
}

proof fn lemma_ranked_len(s: Seq<MetaView>)
    ensures
        ranked(s).len() == s.len(),
    decreases s.len(),
{
    if s.len() > 0 {
        lemma_first_min_exists(s);
        lemma_ranked_len(s.remove(first_min(s)));
    }
}

proof fn lemma_first_min_unique(s: Seq<MetaView>, i: int)
    requires
        is_first_min(s, i),
    ensures
        first_min(s) == i,
{
    let j = first_min(s);
    assert(is_first_min(s, j));
    if j < i {
        lemma_record_order(s[j], s[i], s[i]);
    } else if i < j {
        lemma_record_order(s[i], s[j], s[j]);
    }
}

pub open spec fn idx_views(recs: Seq<RolloutSessionMeta>, ix: Seq<usize>) -> Seq<MetaView> {
    ix.map_values(|j: usize| recs[j as int].view())
}

fn first_min_pos(recs: &Vec<RolloutSessionMeta>, rem: &Vec<usize>) -> (b: usize)
    requires
        rem@.len() > 0,
        forall|j: int| 0 <= j < rem@.len() ==> (#[trigger] rem@[j]) < recs@.len(),
    ensures
        is_first_min(idx_views(recs@, rem@), b as int),
{
    let ghost s = idx_views(recs@, rem@);
    let mut b: usize = 0;
    let mut j: usize = 1;
    proof {
        lemma_record_order(s[0], s[0], s[0]);
    }
    while j < rem.len()
        invariant
            1 <= j <= rem@.len(),
            b < j,
            s == idx_views(recs@, rem@),
            forall|k: int| 0 <= k < j ==> record_order(#[trigger] s[k], s[b as int]) != Order::Less,
            forall|k: int| 0 <= k < b ==> record_order(#[trigger] s[k], s[b as int]) == Order::Greater,
        decreases rem@.len() - j,
    {
        let o = compare_records(&recs[rem[j]], &recs[rem[b]]);
        if o == Order::Less {
            proof {
                assert forall|k: int| 0 <= k < j implies record_order(#[trigger] s[k], s[j as int]) == Order::Greater by {
                    lemma_record_order(s[k], s[j as int], s[b as int]);
                    lemma_record_order(s[j as int], s[k], s[k]);
                }
                lemma_record_order(s[j as int], s[j as int], s[j as int]);
            }
            b = j;
        }
        j = j + 1;
    }
    b
}

/// The positions of `recs` as a stable sort by the record order ranks them.
fn rank_indices(recs: &Vec<RolloutSessionMeta>) -> (out: Vec<usize>)
    ensures
        forall|j: int| 0 <= j < out@.len() ==> (#[trigger] out@[j]) < recs@.len(),
        idx_views(recs@, out@) == ranked(meta_views(recs@)),
{
    let n = recs.len();
    let mut rem: Vec<usize> = Vec::new();
    let mut i: usize = 0;
    while i < n
        invariant
            i <= n == recs@.len(),
            rem@.len() == i,
            forall|j: int| 0 <= j < i ==> (#[trigger] rem@[j]) == j,
        decreases n - i,
    {
        rem.push(i);
        i = i + 1;
    }
    assert(idx_views(recs@, rem@) =~= meta_views(recs@));
    let mut out: Vec<usize> = Vec::new();
    assert(idx_views(recs@, out@) + ranked(idx_views(recs@, rem@)) =~= ranked(meta_views(recs@)));
    while rem.len() > 0
        invariant
            n == recs@.len(),
            forall|j: int| 0 <= j < rem@.len() ==> (#[trigger] rem@[j]) < n,
            forall|j: int| 0 <= j < out@.len() ==> (#[trigger] out@[j]) < n,
            idx_views(recs@, out@) + ranked(idx_views(recs@, rem@)) == ranked(meta_views(recs@)),
        decreases rem@.len(),
    {
        let ghost s = idx_views(recs@, rem@);
        let ghost old_out = out@;
        let b = first_min_pos(recs, &rem);
        proof {
            lemma_first_min_unique(s, b as int);
        }
        let x = rem.remove(b);
        out.push(x);
        proof {
            assert(idx_views(recs@, rem@) =~= s.remove(b as int));
            assert(idx_views(recs@, out@) =~= idx_views(recs@, old_out).push(s[b as int]));
            assert(ranked(s) == seq![s[b as int]] + ranked(s.remove(b as int)));
            assert(idx_views(recs@, old_out) + (seq![s[b as int]] + ranked(s.remove(b as int))) =~= idx_views(
                recs@,
                out@,
            ) + ranked(idx_views(recs@, rem@)));
        }
    }
    assert(idx_views(recs@, out@) =~= idx_views(recs@, out@) + ranked(idx_views(recs@, rem@)));
    out
}

pub open spec fn lookup_parts(facts: Seq<WorkspaceFact>, r: Seq<MetaView>) -> (
    Seq<Seq<char>>,
    Seq<Seq<char>>,
    Seq<Seq<char>>,
) {
    (
        r.map_values(|m: MetaView| norm_ws(facts, m.workspace)),
        r.map_values(|m: MetaView| m.thread_id),
        r.map_values(|m: MetaView| m.rollout_path),
    )
}

/// What resolving `input` against the records of its session gives: an
/// error for a blank ID or an unknown one; else the lookup of the records
/// ranked oldest first.
pub open spec fn resolves_to(
    facts: Seq<WorkspaceFact>,
    recs: spec_fn(Seq<char>) -> Seq<MetaView>,
    input: Seq<char>,
    r: Result<WorkspaceLookup, ResolveError>,
) -> bool {
    let sid = trimmed(input);
    if sid.len() == 0 {
        r == Err::<WorkspaceLookup, ResolveError>(ResolveError::EmptySessionId)
    } else if recs(sid).len() == 0 {
        r matches Err(ResolveError::SessionNotFound(s)) && s@ == sid
    } else {
        match r {
            Ok(l) => {
                let rk = ranked(recs(sid));
                let parts = lookup_parts(facts, rk);
                &&& l.session_id@ == sid
                &&& l.workspace@ == norm_ws(facts, rk[0].workspace)
                &&& l.workspace_exists == ws_exists(facts, rk[0].workspace)
                &&& set_of(true, views(l.workspaces@), parts.0)
                &&& set_of(false, views(l.thread_ids@), parts.1)
                &&& set_of(true, views(l.rollout_paths@), parts.2)
                &&& l.conflicting_workspaces == (l.workspaces@.len() > 1)
            },
            Err(_) => false,
        }
    }
}

/// A session resolves with a conflict exactly when two of its records name
/// workspaces that differ as paths (after normalization); without one, the
/// workspace returned is the one that every record names.
pub proof fn lemma_conflict_iff_workspaces_differ(
    facts: Seq<WorkspaceFact>,
    recs: spec_fn(Seq<char>) -> Seq<MetaView>,
    input: Seq<char>,
    l: WorkspaceLookup,
)
    requires
        resolves_to(facts, recs, input, Ok(l)),
    ensures
        ({
            let ws = lookup_parts(facts, ranked(recs(trimmed(input)))).0;
            &&& l.conflicting_workspaces <==> exists|i: int, j: int|
                0 <= i < ws.len() && 0 <= j < ws.len() && !path_eq(#[trigger] ws[i], #[trigger] ws[j])
            &&& !l.conflicting_workspaces ==> forall|i: int| 0 <= i < ws.len() ==> path_eq(#[trigger] ws[i], l.workspace@)
        }),
{
    let sid = trimmed(input);
    let rk = ranked(recs(sid));
    lemma_ranked_len(recs(sid));
    let ws = lookup_parts(facts, rk).0;
    let set = views(l.workspaces@);
    assert(set_of(true, set, ws));
    reveal(crate::sets::covers);
    reveal(from_firsts);
    assert(ws.len() > 0);
    assert(ws[0] == l.workspace@);
    if l.conflicting_workspaces {
        assert(set.len() > 1);
        assert(key_order(true, set[0], set[1]) == Order::Less);
        let a = choose|a: int| 0 <= a < ws.len() && first_of_class(true, ws, a) && #[trigger] set[0] == #[trigger] ws[a];
        let b = choose|b: int| 0 <= b < ws.len() && first_of_class(true, ws, b) && #[trigger] set[1] == #[trigger] ws[b];
        lemma_key_order(true, set[0], set[1]);
        reveal(key_eq);
        assert(!path_eq(ws[a], ws[b]));
    } else {
        assert(set.len() <= 1);
        assert forall|i: int| 0 <= i < ws.len() implies path_eq(#[trigger] ws[i], l.workspace@) by {
            let x = choose|x: int| 0 <= x < set.len() && key_eq(true, #[trigger] set[x], #[trigger] ws[i]);
            let y = choose|y: int| 0 <= y < set.len() && key_eq(true, #[trigger] set[y], #[trigger] ws[0]);
            assert(x == 0 && y == 0);
            reveal(key_eq);
        }
        assert forall|i: int, j: int| 0 <= i < ws.len() && 0 <= j < ws.len() implies path_eq(
            #[trigger] ws[i],
            #[trigger] ws[j],
        ) by {
            assert(path_eq(ws[i], l.workspace@));
            assert(path_eq(ws[j], l.workspace@));
        }
    }
}

/// Resolving picks the oldest record: the workspace returned is the
/// normalized workspace of a record of the session that no record of it
/// precedes in the record order (and that comes first among those that tie
/// with it), and it is one of the workspaces listed.
pub proof fn lemma_resolve_picks_oldest(
    facts: Seq<WorkspaceFact>,
    recs: spec_fn(Seq<char>) -> Seq<MetaView>,
    input: Seq<char>,
    l: WorkspaceLookup,
)
    requires
        resolves_to(facts, recs, input, Ok(l)),
    ensures
        exists|i: int|
            #![trigger recs(trimmed(input))[i]]
            is_first_min(recs(trimmed(input)), i) && l.workspace@ == norm_ws(facts, recs(trimmed(input))[i].workspace),
        views(l.workspaces@).contains(l.workspace@),
{
    let sid = trimmed(input);
    let s = recs(sid);
    lemma_first_min_exists(s);
    let i = first_min(s);
    let rk = ranked(s);
    assert(rk[0] == s[i]);
    let ws = lookup_parts(facts, rk).0;
    lemma_ranked_len(s);
    let set = views(l.workspaces@);
    reveal(crate::sets::covers);
    reveal(from_firsts);
    assert(ws[0] == l.workspace@);
    let x = choose|x: int| 0 <= x < set.len() && key_eq(true, #[trigger] set[x], #[trigger] ws[0]);
    let j = choose|j: int| 0 <= j < ws.len() && first_of_class(true, ws, j) && #[trigger] set[x] == #[trigger] ws[j];
    if j != 0 {
        reveal(key_eq);
        assert(!key_eq(true, ws[0], ws[j]));
        assert(false);
    }
    assert(set[x] == l.workspace@);
    assert(s[i] == recs(trimmed(input))[i]);
}

impl SessionWorkspaceIndex {
    fn find_group(&self, sid: &str) -> (res: Option<usize>)
        requires
            self.wf(),
        ensures
            match res {
                Some(i) => i < self.groups@.len() && self.groups@[i as int].session_id@ == sid@,
                None => !has_session(self.groups@, sid@),
            },
    {
        let mut i: usize = 0;
        while i < self.groups.len()
            invariant
                i <= self.groups@.len(),
                forall|m: int| 0 <= m < i ==> (#[trigger] self.groups@[m]).session_id@ != sid@,
            decreases self.groups@.len() - i,
        {
            if crate::text::str_eq(self.groups[i].session_id.as_str(), sid) {
                return Some(i);
            }
            i = i + 1;
        }
        None
    }

    /// Resolves a session ID (surrounding whitespace ignored) to the
    /// workspace of its oldest record.
    pub fn resolve(&self, session_id: &str) -> (res: Result<WorkspaceLookup, ResolveError>)
        requires
            self.wf(),
        ensures
            resolves_to(self.facts_of(), |sid: Seq<char>| self.records_of(sid), session_id@, res),
    {
        let sid = trim(session_id);
        if is_blank_len(sid.as_str()) {
            return Err(ResolveError::EmptySessionId);
        }
        let gi = match self.find_group(sid.as_str()) {
            None => {
                return Err(ResolveError::SessionNotFound(sid));
            },
            Some(gi) => gi,
        };
        let recs = &self.groups[gi].records;
        proof {
            lemma_records_at(self.groups@, gi as int, sid@);
        }
        let order = rank_indices(recs);
        let ghost rk = ranked(meta_views(recs@));
        let ghost facts = self.facts.facts@;
        proof {
            assert(meta_views(recs@).len() > 0);
            lemma_ranked_len(meta_views(recs@));
        }
        let mut ws: Vec<String> = Vec::new();
        let mut threads: Vec<String> = Vec::new();
        let mut paths: Vec<String> = Vec::new();
        let mut j: usize = 0;
        while j < order.len()
            invariant
                j <= order@.len(),
                forall|q: int| 0 <= q < order@.len() ==> (#[trigger] order@[q]) < recs@.len(),
                idx_views(recs@, order@) == rk,
                views(ws@) =~= lookup_parts(facts, rk).0.take(j as int),
                views(threads@) =~= lookup_parts(facts, rk).1.take(j as int),
                views(paths@) =~= lookup_parts(facts, rk).2.take(j as int),
            decreases order@.len() - j,
        {
            let r = &recs[order[j]];
            ws.push(self.facts.normalize(r.workspace.as_str()));
            threads.push(r.thread_id.clone());
            paths.push(r.rollout_path.clone());
            j = j + 1;
        }
        proof {
            assert(lookup_parts(facts, rk).0.take(j as int) =~= lookup_parts(facts, rk).0);
            assert(lookup_parts(facts, rk).1.take(j as int) =~= lookup_parts(facts, rk).1);
            assert(lookup_parts(facts, rk).2.take(j as int) =~= lookup_parts(facts, rk).2);
        }
        let first = &recs[order[0]];
        let workspace = self.facts.normalize(first.workspace.as_str());
        let workspace_exists = self.facts.workspace_exists(first.workspace.as_str());
        let workspaces = sorted_set(&ws, true);
        let thread_ids = sorted_set(&threads, false);
        let rollout_paths = sorted_set(&paths, true);
        let conflicting_workspaces = workspaces.len() > 1;
        Ok(WorkspaceLookup {
            session_id: sid,
            workspace,
            workspace_exists,
            workspaces,
            thread_ids,
            rollout_paths,
            conflicting_workspaces,
        })
    }
}


/// The records that a list of scan views found, in order.
pub open spec fn found_views(vs: Seq<ScanView>) -> Seq<MetaView>
    decreases vs.len(),
{
    if vs.len() == 0 {
        Seq::empty()
    } else {
        let rest = found_views(vs.drop_last());
        match vs.last() {
            ScanView::Found(m) => rest.push(m),
            _ => rest,
        }
    }
}

pub open spec fn scan_views(scans: Seq<Result<Option<RolloutSessionMeta>, RolloutError>>) -> Seq<ScanView> {
    scans.map_values(|r: Result<Option<RolloutSessionMeta>, RolloutError>| scan_result_view(r))
}

proof fn lemma_found_bridge(scans: Seq<Result<Option<RolloutSessionMeta>, RolloutError>>)
    ensures
        found_metas(scans) == found_views(scan_views(scans)),
    decreases scans.len(),
{
    if scans.len() > 0 {
        lemma_found_bridge(scans.drop_last());
        assert(scan_views(scans).drop_last() =~= scan_views(scans.drop_last()));
    }
}

/// Whether a rollout lies under the archived sessions directory of a Codex
/// home.
pub open spec fn archived_in(home: Seq<char>, path: Seq<char>) -> bool {
    path_starts_with(path, join(home, "archived_sessions"@))
}

/// How each rollout file reads: under the archived flag of its path, or
/// as active when only active sessions are indexed.
pub open spec fn file_views(files: Seq<RolloutFile>, home: Seq<char>, max: int, active_only: bool) -> Seq<ScanView> {
    files.map_values(|f: RolloutFile| file_scan(f, !active_only && archived_in(home, f.path@), max))
}

/// What building an index from rollout files gives: the records found,
/// grouped by session; or the failed read of the first file that could
/// not be read.
pub open spec fn built_from(
    res: Result<SessionWorkspaceIndex, IndexError>,
    files: Seq<RolloutFile>,
    fv: Seq<ScanView>,
    facts: Seq<WorkspaceFact>,
) -> bool {
    match res {
        Ok(idx) => {
            &&& idx.wf()
            &&& idx.facts_of() == facts
            &&& forall|k: int| 0 <= k < fv.len() ==> #[trigger] fv[k] != ScanView::ReadFailed
            &&& forall|sid: Seq<char>| #[trigger] idx.records_of(sid) == metas_for(found_views(fv), sid)
        },
        Err(IndexError::Rollout(e)) => exists|k: int|
            {
                &&& 0 <= k < fv.len()
                &&& #[trigger] fv[k] == ScanView::ReadFailed
                &&& forall|j: int| 0 <= j < k ==> #[trigger] fv[j] != ScanView::ReadFailed
                &&& e matches RolloutError::Read { path, .. } && path@ == files[k].path@
            },
    }
}

impl SessionWorkspaceIndex {
    fn build_files(config: &ScanConfig, files: Vec<RolloutFile>, facts: WorkspaceFacts, active_only: bool) -> (res: Result<
        Self,
        IndexError,
    >)
        ensures
            built_from(
                res,
                files@,
                file_views(files@, config.codex_home@, config.max_rollout_bytes as int, active_only),
                facts.facts@,
            ),
    {
        let ghost fv = file_views(files@, config.codex_home@, config.max_rollout_bytes as int, active_only);
        let mut scans: Vec<Result<Option<RolloutSessionMeta>, RolloutError>> = Vec::new();
        let mut i: usize = 0;
        while i < files.len()
            invariant
                i <= files@.len(),
                scans@.len() == i,
                fv == file_views(files@, config.codex_home@, config.max_rollout_bytes as int, active_only),
                forall|k: int| 0 <= k < i ==> scan_result_view(#[trigger] scans@[k]) == fv[k],
                forall|k: int|
                    0 <= k < i ==> (#[trigger] scans@[k] matches Err(RolloutError::Read { path, .. }) ==> path@
                        == files@[k].path@),
                forall|k: int| 0 <= k < i ==> (#[trigger] scans@[k] matches Err(e) ==> (e is ScanLimitExceeded || e is Read)),
            decreases files@.len() - i,
        {
            let archived = if active_only {
                false
            } else {
                is_archived_path(config.codex_home.as_str(), files[i].path.as_str())
            };
            let r = read_session_meta(&files[i], archived, config.max_rollout_bytes);
            scans.push(r);
            i = i + 1;
        }
        let ghost sv = scans@;
        proof {
            assert(scan_views(sv) =~= fv);
            lemma_found_bridge(sv);
            assert forall|k: int| 0 <= k < sv.len() implies fatal(#[trigger] sv[k]) == (fv[k] == ScanView::ReadFailed) by {
                assert(scan_result_view(sv[k]) == fv[k]);
            }
        }
        let res = Self::from_scans(scans, facts);
        proof {
            match &res {
                Ok(idx) => {},
                Err(IndexError::Rollout(e)) => {
                    let k = choose|k: int|
                        0 <= k < sv.len() && fatal(#[trigger] sv[k]) && sv[k] == Err::<
                            Option<RolloutSessionMeta>,
                            RolloutError,
                        >(*e) && forall|j: int| 0 <= j < k ==> !fatal(#[trigger] sv[j]);
                    assert(fv[k] == ScanView::ReadFailed);
                    assert forall|j: int| 0 <= j < k implies #[trigger] fv[j] != ScanView::ReadFailed by {
                        assert(!fatal(sv[j]));
                    }
                },
            }
        }
        res
    }

    /// Builds the index of every rollout, active and archived, from what
    /// was read of the files that discovery found (in that order).
    pub fn build(config: &ScanConfig, files: Vec<RolloutFile>, facts: WorkspaceFacts) -> (res: Result<Self, IndexError>)
        ensures
            built_from(
                res,
                files@,
                file_views(files@, config.codex_home@, config.max_rollout_bytes as int, false),
                facts.facts@,
            ),
    {
        Self::build_files(config, files, facts, false)
    }

    /// Builds the index of active sessions only: every record read from
    /// these files counts as active.
    pub fn build_active(config: &ScanConfig, files: Vec<RolloutFile>, facts: WorkspaceFacts) -> (res: Result<
        Self,
        IndexError,
    >)
        ensures
            built_from(
                res,
                files@,
                file_views(files@, config.codex_home@, config.max_rollout_bytes as int, true),
                facts.facts@,
            ),
    {
        Self::build_files(config, files, facts, true)
    }
}


pub open spec fn pair_views(gs: Seq<SessionGroup>, ps: Seq<(usize, usize)>) -> Seq<MetaView> {
    ps.map_values(|p: (usize, usize)| gs[p.0 as int].records@[p.1 as int].view())
}

pub open spec fn pairs_valid(gs: Seq<SessionGroup>, ps: Seq<(usize, usize)>) -> bool {
    forall|q: int|
        0 <= q < ps.len() ==> (#[trigger] ps[q]).0 < gs.len() && ps[q].1 < gs[ps[q].0 as int].records@.len()
}

/// Whether record `k` of `a` takes part in choosing the latest session:
/// active records do, and archived ones too when there is no active one.
pub open spec fn latest_candidate(a: Seq<MetaView>, k: int) -> bool {
    !a[k].archived || forall|m: int| 0 <= m < a.len() ==> (#[trigger] a[m]).archived
}

/// `i` is the last of the most recent candidates of `a`.
pub open spec fn is_latest(a: Seq<MetaView>, i: int) -> bool {
    &&& 0 <= i < a.len()
    &&& latest_candidate(a, i)
    &&& forall|k: int| 0 <= k < a.len() && latest_candidate(a, k) ==> recency_order(#[trigger] a[k], a[i]) != Order::Greater
    &&& forall|k: int| i < k < a.len() && latest_candidate(a, k) ==> recency_order(#[trigger] a[k], a[i]) == Order::Less
}

pub open spec fn ok_of(r: Result<WorkspaceLookup, ResolveError>) -> Option<WorkspaceLookup> {
    match r {
        Ok(l) => Some(l),
        Err(_) => None,
    }
}

impl SessionWorkspaceIndex {
    /// The position of every record, session by session.
    fn flatten(&self) -> (ps: Vec<(usize, usize)>)
        ensures
            pairs_valid(self.groups@, ps@),
            pair_views(self.groups@, ps@) == all_records(self.groups@),
    {
        let ghost gs = self.groups@;
        let mut ps: Vec<(usize, usize)> = Vec::new();
        let mut g: usize = 0;
        assert(gs.take(0) =~= Seq::<SessionGroup>::empty());
        assert(pair_views(gs, ps@) =~= all_records(gs.take(0)));
        while g < self.groups.len()
            invariant
                g <= gs.len(),
                gs == self.groups@,
                pairs_valid(gs, ps@),
                pair_views(gs, ps@) == all_records(gs.take(g as int)),
            decreases gs.len() - g,
        {
            let ghost base = ps@;
            let n = self.groups[g].records.len();
            let mut r: usize = 0;
            while r < n
                invariant
                    g < gs.len(),
                    r <= n == gs[g as int].records@.len(),
                    pairs_valid(gs, ps@),
                    pair_views(gs, ps@) =~= all_records(gs.take(g as int)) + meta_views(
                        gs[g as int].records@,
                    ).take(r as int),
                decreases n - r,
            {
                let ghost before = ps@;
                ps.push((g, r));
                proof {
                    assert(pair_views(gs, ps@) =~= pair_views(gs, before).push(gs[g as int].records@[r as int].view()));
                    assert(meta_views(gs[g as int].records@).take(r + 1) =~= meta_views(gs[g as int].records@).take(
                        r as int,
                    ).push(gs[g as int].records@[r as int].view()));
                }
                r = r + 1;
            }
            proof {
                assert(meta_views(gs[g as int].records@).take(r as int) =~= meta_views(gs[g as int].records@));
                assert(gs.take(g + 1).drop_last() =~= gs.take(g as int));
                assert(gs.take(g + 1).last() == gs[g as int]);
            }
            g = g + 1;
        }
        assert(gs.take(g as int) =~= gs);
        ps
    }

    /// The lookup of the session of the most recent record: among active
    /// records, or among all where none is active; `None` for an empty
    /// index.
    pub fn latest_workspace(&self) -> (res: Option<WorkspaceLookup>)
        requires
            self.wf(),
        ensures
            self.all().len() == 0 ==> res is None,
            self.all().len() > 0 ==> exists|i: int, r: Result<WorkspaceLookup, ResolveError>|
                #![trigger is_latest(self.all(), i), ok_of(r)]
                is_latest(self.all(), i) && resolves_to(
                    self.facts_of(),
                    |sid: Seq<char>| self.records_of(sid),
                    self.all()[i].session_id,
                    r,
                ) && res == ok_of(r),
    {
        let ps = self.flatten();
        let ghost a = all_records(self.groups@);
        let n = ps.len();
        let mut any_active = false;
        let mut j: usize = 0;
        while j < n
            invariant
                j <= n == a.len(),
                pairs_valid(self.groups@, ps@),
                pair_views(self.groups@, ps@) == a,
                any_active == exists|m: int| 0 <= m < j && !(#[trigger] a[m]).archived,
            decreases n - j,
        {
            let (g, r) = ps[j];
            assert(a[j as int] == self.groups@[g as int].records@[r as int].view());
            if !self.groups[g].records[r].archived {
                any_active = true;
            }
            j = j + 1;
        }
        let mut best: Option<usize> = None;
        let mut j: usize = 0;
        while j < n
            invariant
                j <= n == a.len(),
                pairs_valid(self.groups@, ps@),
                pair_views(self.groups@, ps@) == a,
                any_active == exists|m: int| 0 <= m < a.len() && !(#[trigger] a[m]).archived,
                match best {
                    None => forall|k: int| 0 <= k < j ==> !latest_candidate(a, k),
                    Some(b) => {
                        &&& b < j
                        &&& latest_candidate(a, b as int)
                        &&& forall|k: int|
                            0 <= k < j && latest_candidate(a, k) ==> recency_order(#[trigger] a[k], a[b as int])
                                != Order::Greater
                        &&& forall|k: int|
                            b < k < j && latest_candidate(a, k) ==> recency_order(#[trigger] a[k], a[b as int])
                                == Order::Less
                    },
                },
            decreases n - j,
        {
            let (g, r) = ps[j];
            let rec = &self.groups[g].records[r];
            assert(a[j as int] == rec.view());
            let candidate = !rec.archived || !any_active;
            assert(candidate == latest_candidate(a, j as int));
            if candidate {
                match best {
                    None => {
                        proof {
                            lemma_recency_order(a[j as int], a[j as int], a[j as int]);
                        }
                        best = Some(j);
                    },
                    Some(b) => {
                        let (bg, br) = ps[b];
                        assert(a[b as int] == self.groups@[bg as int].records@[br as int].view());
                        if compare_recency(rec, &self.groups[bg].records[br]) != Order::Less {
                            proof {
                                assert forall|k: int| 0 <= k <= j && latest_candidate(a, k) implies recency_order(
                                    #[trigger] a[k],
                                    a[j as int],
                                ) != Order::Greater by {
                                    lemma_recency_order(a[k], a[b as int], a[j as int]);
                                    lemma_recency_order(a[j as int], a[b as int], a[b as int]);
                                    lemma_recency_order(a[j as int], a[j as int], a[j as int]);
                                }
                            }
                            best = Some(j);
                        }
                    },
                }
            }
            j = j + 1;
        }
        match best {
            None => {
                proof {
                    if a.len() > 0 {
                        assert(a == self.all());
                        assert(!latest_candidate(a, 0));
                        assert forall|m: int| 0 <= m < a.len() implies (#[trigger] a[m]).archived by {
                            assert(!latest_candidate(a, m));
                        }
                        assert(latest_candidate(a, 0));
                    }
                }
                None
            },
            Some(b) => {
                let (bg, br) = ps[b];
                let sid = &self.groups[bg].records[br].session_id;
                assert(a[b as int] == self.groups@[bg as int].records@[br as int].view());
                let r = self.resolve(sid.as_str());
                let ghost rg = r;
                let res = match r {
                    Ok(l) => Some(l),
                    Err(_) => None,
                };
                proof {
                    assert(a == self.all());
                    assert(is_latest(self.all(), b as int));
                    assert(res == ok_of(rg));
                }
                res
            },
        }
    }
}


/// The normalized workspace of a record.
pub open spec fn key_of(facts: Seq<WorkspaceFact>, m: MetaView) -> Seq<char> {
    norm_ws(facts, m.workspace)
}

/// An active record of the workspace `c`.
pub open spec fn is_member(facts: Seq<WorkspaceFact>, c: Seq<char>, m: MetaView) -> bool {
    !m.archived && path_eq(key_of(facts, m), c)
}

/// The normalized workspaces of the active records, in order.
pub open spec fn active_keys(a: Seq<MetaView>, facts: Seq<WorkspaceFact>) -> Seq<Seq<char>>
    decreases a.len(),
{
    if a.len() == 0 {
        Seq::empty()
    } else if !a.last().archived {
        active_keys(a.drop_last(), facts).push(key_of(facts, a.last()))
    } else {
        active_keys(a.drop_last(), facts)
    }
}

/// A field of the records of workspace `c`, in order.
pub open spec fn member_values(a: Seq<MetaView>, facts: Seq<WorkspaceFact>, c: Seq<char>, f: spec_fn(MetaView) -> Seq<char>) -> Seq<Seq<char>>
    decreases a.len(),
{
    if a.len() == 0 {
        Seq::empty()
    } else if is_member(facts, c, a.last()) {
        member_values(a.drop_last(), facts, c, f).push(f(a.last()))
    } else {
        member_values(a.drop_last(), facts, c, f)
    }
}

pub open spec fn opt_max(a: Option<i128>, b: Option<i128>) -> Option<i128> {
    match (a, b) {
        (Some(x), Some(y)) => Some(if x >= y { x } else { y }),
        (Some(x), None) => Some(x),
        (None, y) => y,
    }
}

/// The latest modification time among the records of workspace `c`.
pub open spec fn latest_time(a: Seq<MetaView>, facts: Seq<WorkspaceFact>, c: Seq<char>) -> Option<i128>
    decreases a.len(),
{
    if a.len() == 0 {
        None
    } else {
        opt_max(
            latest_time(a.drop_last(), facts, c),
            if is_member(facts, c, a.last()) {
                a.last().modified_at
            } else {
                None
            },
        )
    }
}

/// Seconds since the Unix epoch of a time in nanoseconds; none before the
/// epoch.
pub open spec fn activity_of(t: Option<i128>) -> Option<i64> {
    match t {
        Some(x) => if x >= 0 {
            Some((x / 1000000000) as i64)
        } else {
            None
        },
        None => None,
    }
}

/// Some session of workspace `c` also has an active record in another
/// workspace.
pub open spec fn conflicting_in(a: Seq<MetaView>, facts: Seq<WorkspaceFact>, c: Seq<char>) -> bool {
    exists|k: int, j: int|
        0 <= k < a.len() && 0 <= j < a.len() && is_member(facts, c, #[trigger] a[k]) && !(#[trigger] a[j]).archived
            && a[j].session_id == a[k].session_id && !path_eq(key_of(facts, a[j]), c)
}

/// The row of workspace `c`: named after its last record, with its
/// sessions, threads and rollouts as ordered sets, its latest activity, and
/// whether one of its sessions also ran in another workspace.
pub open spec fn row_ok(a: Seq<MetaView>, facts: Seq<WorkspaceFact>, c: Seq<char>, row: WorkspaceAggregate) -> bool {
    &&& exists|l: int|
        #![trigger a[l]]
        0 <= l < a.len() && is_member(facts, c, a[l]) && (forall|k: int| l < k < a.len() ==> !is_member(facts, c, #[trigger] a[k]))
            && row.workspace@ == key_of(facts, a[l]) && row.workspace_exists == ws_exists(facts, a[l].workspace)
    &&& set_of(false, views(row.session_ids@), member_values(a, facts, c, |m: MetaView| m.session_id))
    &&& set_of(false, views(row.thread_ids@), member_values(a, facts, c, |m: MetaView| m.thread_id))
    &&& set_of(true, views(row.rollout_paths@), member_values(a, facts, c, |m: MetaView| m.rollout_path))
    &&& row.last_activity == activity_of(latest_time(a, facts, c))
    &&& row.conflicting_sessions == conflicting_in(a, facts, c)
}

/// The order of the rows: most recent activity first (no activity last),
/// then by workspace path.
pub open spec fn row_order(l: WorkspaceAggregate, r: WorkspaceAggregate) -> Order {
    activity_desc(l.last_activity, r.last_activity).tie(path_order(l.workspace@, r.workspace@))
}

proof fn lemma_activity_desc(a: Option<i64>, b: Option<i64>, c: Option<i64>)
    ensures
        ord_trans(activity_desc(a, b), activity_desc(b, c), activity_desc(a, c)),
        activity_desc(b, a) == activity_desc(a, b).flip(),
{
    match (a, b, c) {
        (Some(x), Some(y), Some(z)) => lemma_int_order(z as int, y as int, x as int),
        (Some(x), Some(y), None) => lemma_int_order(y as int, x as int, x as int),
        (None, Some(y), Some(z)) => lemma_int_order(z as int, y as int, y as int),
        _ => {},
    }
    match (a, b) {
        (Some(x), Some(y)) => lemma_int_order(y as int, x as int, x as int),
        _ => {},
    }
}

proof fn lemma_row_order(a: WorkspaceAggregate, b: WorkspaceAggregate, c: WorkspaceAggregate)
    ensures
        ord_trans(row_order(a, b), row_order(b, c), row_order(a, c)),
        row_order(b, a) == row_order(a, b).flip(),
{
    lemma_activity_desc(a.last_activity, b.last_activity, c.last_activity);
    lemma_path_trans(a.workspace@, b.workspace@, c.workspace@);
    lemma_tie_trans(
        activity_desc(a.last_activity, b.last_activity),
        activity_desc(b.last_activity, c.last_activity),
        activity_desc(a.last_activity, c.last_activity),
        path_order(a.workspace@, b.workspace@),
        path_order(b.workspace@, c.workspace@),
        path_order(a.workspace@, c.workspace@),
    );
}

impl SessionWorkspaceIndex {
    /// The row of one workspace.
    fn aggregate(&self, ps: &Vec<(usize, usize)>, c: &str) -> (res: Option<WorkspaceAggregate>)
        requires
            self.wf(),
            pairs_valid(self.groups@, ps@),
            pair_views(self.groups@, ps@) == all_records(self.groups@),
        ensures
            match res {
                Some(row) => row_ok(self.all(), self.facts_of(), c@, row),
                None => forall|k: int| 0 <= k < self.all().len() ==> !is_member(self.facts_of(), c@, #[trigger] self.all()[k]),
            },
    {
        let ghost a = all_records(self.groups@);
        let ghost facts = self.facts.facts@;
        let n = ps.len();
        let mut last: Option<usize> = None;
        let mut sessions: Vec<String> = Vec::new();
        let mut threads: Vec<String> = Vec::new();
        let mut paths: Vec<String> = Vec::new();
        let mut latest: Option<i128> = None;
        let mut j: usize = 0;
        while j < n
            invariant
                j <= n == a.len(),
                pairs_valid(self.groups@, ps@),
                pair_views(self.groups@, ps@) == a,
                facts == self.facts.facts@,
                views(sessions@) =~= member_values(a.take(j as int), facts, c@, |m: MetaView| m.session_id),
                views(threads@) =~= member_values(a.take(j as int), facts, c@, |m: MetaView| m.thread_id),
                views(paths@) =~= member_values(a.take(j as int), facts, c@, |m: MetaView| m.rollout_path),
                latest == latest_time(a.take(j as int), facts, c@),
                match last {
                    None => forall|k: int| 0 <= k < j ==> !is_member(facts, c@, #[trigger] a[k]),
                    Some(l) => l < j && is_member(facts, c@, a[l as int]) && forall|k: int|
                        l < k < j ==> !is_member(facts, c@, #[trigger] a[k]),
                },
            decreases n - j,
        {
            let (g, r) = ps[j];
            let rec = &self.groups[g].records[r];
            assert(a[j as int] == rec.view());
            proof {
                assert(a.take(j + 1).drop_last() =~= a.take(j as int));
                assert(a.take(j + 1).last() == a[j as int]);
            }
            if !rec.archived {
                let key = self.facts.normalize(rec.workspace.as_str());
                if path_eq_exec_str(key.as_str(), c) {
                    last = Some(j);
                    sessions.push(rec.session_id.clone());
                    threads.push(rec.thread_id.clone());
                    paths.push(rec.rollout_path.clone());
                    latest = match (latest, rec.modified_at) {
                        (Some(x), Some(y)) => Some(if x >= y { x } else { y }),
                        (Some(x), None) => Some(x),
                        (None, y) => y,
                    };
                }
            }
            j = j + 1;
        }
        proof {
            assert(a.take(j as int) =~= a);
        }
        let l = match last {
            Some(l) => l,
            None => {
                return None;
            },
        };
        let (g, r) = ps[l];
        let rec = &self.groups[g].records[r];
        assert(a[l as int] == rec.view());
        let workspace = self.facts.normalize(rec.workspace.as_str());
        let workspace_exists = self.facts.workspace_exists(rec.workspace.as_str());
        let last_activity = match latest {
            Some(t) => if t >= 0 {
                Some((t / 1000000000) as i64)
            } else {
                None
            },
            None => None,
        };
        let conflicting = self.conflicting(ps, c);
        let row = WorkspaceAggregate {
            workspace,
            workspace_exists,
            session_ids: sorted_set(&sessions, false),
            thread_ids: sorted_set(&threads, false),
            rollout_paths: sorted_set(&paths, true),
            last_activity,
            conflicting_sessions: conflicting,
        };
        proof {
            assert(a == self.all());
            assert(facts == self.facts_of());
            assert(0 <= l < a.len() && is_member(facts, c@, a[l as int]));
        }
        Some(row)
    }

    /// Whether some session of workspace `c` also has an active record in
    /// another workspace.
    fn conflicting(&self, ps: &Vec<(usize, usize)>, c: &str) -> (res: bool)
        requires
            self.wf(),
            pairs_valid(self.groups@, ps@),
            pair_views(self.groups@, ps@) == all_records(self.groups@),
        ensures
            res == conflicting_in(self.all(), self.facts_of(), c@),
    {
        let ghost a = all_records(self.groups@);
        let ghost facts = self.facts.facts@;
        let n = ps.len();
        let mut k: usize = 0;
        while k < n
            invariant
                k <= n == a.len(),
                pairs_valid(self.groups@, ps@),
                pair_views(self.groups@, ps@) == a,
                facts == self.facts.facts@,
                forall|x: int, y: int|
                    0 <= x < k && 0 <= y < n ==> !(is_member(facts, c@, #[trigger] a[x]) && !(#[trigger] a[y]).archived
                        && a[y].session_id == a[x].session_id && !path_eq(key_of(facts, a[y]), c@)),
            decreases n - k,
        {
            let (g, r) = ps[k];
            let rec = &self.groups[g].records[r];
            assert(a[k as int] == rec.view());
            if !rec.archived && path_eq_exec_str(self.facts.normalize(rec.workspace.as_str()).as_str(), c) {
                let mut m: usize = 0;
                while m < n
                    invariant
                        m <= n == a.len(),
                        k < n,
                        pairs_valid(self.groups@, ps@),
                        pair_views(self.groups@, ps@) == a,
                        facts == self.facts.facts@,
                        a[k as int] == rec.view(),
                        forall|y: int|
                            0 <= y < m ==> !(!(#[trigger] a[y]).archived && a[y].session_id == a[k as int].session_id && !path_eq(
                                key_of(facts, a[y]),
                                c@,
                            )),
                    decreases n - m,
                {
                    let (g2, r2) = ps[m];
                    let other = &self.groups[g2].records[r2];
                    assert(a[m as int] == other.view());
                    if !other.archived && crate::text::str_eq(other.session_id.as_str(), rec.session_id.as_str())
                        && !path_eq_exec_str(self.facts.normalize(other.workspace.as_str()).as_str(), c) {
                        proof {
                            assert(is_member(facts, c@, a[k as int]));
                            assert(a == self.all());
                        }
                        return true;
                    }
                    m = m + 1;
                }
            }
            k = k + 1;
        }
        proof {
            assert(a == self.all());
        }
        false
    }
}

/// `rows[i]` is the row of workspace `classes[perm[i]]`, each workspace
/// given once.
pub open spec fn rows_for(
    a: Seq<MetaView>,
    facts: Seq<WorkspaceFact>,
    classes: Seq<Seq<char>>,
    rows: Seq<WorkspaceAggregate>,
    perm: Seq<int>,
) -> bool {
    &&& rows.len() == classes.len()
    &&& perm.len() == rows.len()
    &&& forall|i: int| 0 <= i < perm.len() ==> 0 <= #[trigger] perm[i] < classes.len() && row_ok(a, facts, classes[perm[i]], rows[i])
    &&& forall|i: int, j: int| 0 <= i < j < perm.len() ==> #[trigger] perm[i] != #[trigger] perm[j]
}

/// Each key of `active_keys` is the normalized workspace of an active record.
proof fn lemma_active_key_source(a: Seq<MetaView>, facts: Seq<WorkspaceFact>, j: int)
    requires
        0 <= j < active_keys(a, facts).len(),
    ensures
        exists|m: int| #![trigger a[m]] 0 <= m < a.len() && !a[m].archived && key_of(facts, a[m]) == active_keys(a, facts)[j],
    decreases a.len(),
{
    if a.len() > 0 {
        let last = a.len() - 1;
        if !a.last().archived && j == active_keys(a, facts).len() - 1 {
            assert(a[last] == a.last());
        } else {
            lemma_active_key_source(a.drop_last(), facts, j);
            let m = choose|m: int|
                #![trigger a.drop_last()[m]]
                0 <= m < a.drop_last().len() && !a.drop_last()[m].archived && key_of(facts, a.drop_last()[m])
                    == active_keys(a.drop_last(), facts)[j];
            assert(a.drop_last()[m] == a[m]);
        }
    }
}

/// Rows of two different workspaces never compare equal.
proof fn lemma_rows_differ(
    a: Seq<MetaView>,
    facts: Seq<WorkspaceFact>,
    classes: Seq<Seq<char>>,
    x: int,
    y: int,
    rx: WorkspaceAggregate,
    ry: WorkspaceAggregate,
)
    requires
        sorted_strict(true, classes),
        0 <= x < classes.len(),
        0 <= y < classes.len(),
        x != y,
        row_ok(a, facts, classes[x], rx),
        row_ok(a, facts, classes[y], ry),
    ensures
        row_order(rx, ry) != Order::Equal,
{
    if row_order(rx, ry) == Order::Equal {
        lemma_path_trans(rx.workspace@, ry.workspace@, ry.workspace@);
        let lx = choose|l: int|
            #![trigger a[l]]
            0 <= l < a.len() && is_member(facts, classes[x], a[l]) && (forall|k: int|
                l < k < a.len() ==> !is_member(facts, classes[x], #[trigger] a[k])) && rx.workspace@ == key_of(facts, a[l])
                && rx.workspace_exists == ws_exists(facts, a[l].workspace);
        let ly = choose|l: int|
            #![trigger a[l]]
            0 <= l < a.len() && is_member(facts, classes[y], a[l]) && (forall|k: int|
                l < k < a.len() ==> !is_member(facts, classes[y], #[trigger] a[k])) && ry.workspace@ == key_of(facts, a[l])
                && ry.workspace_exists == ws_exists(facts, a[l].workspace);
        crate::paths::lemma_path_order(rx.workspace@, ry.workspace@);
        assert(path_eq(classes[x], classes[y]));
        if x < y {
            lemma_sorted_pairwise(true, classes, x, y);
        } else {
            lemma_sorted_pairwise(true, classes, y, x);
        }
        lemma_key_order(true, classes[x], classes[y]);
        reveal(key_eq);
    }
}

/// The row order of two rows, computed.
fn compare_rows(l: &WorkspaceAggregate, r: &WorkspaceAggregate) -> (res: Order)
    ensures
        res == row_order(*l, *r),
{
    match compare_activity_desc(l.last_activity, r.last_activity) {
        Order::Equal => path_order_exec(l.workspace.as_str(), r.workspace.as_str()),
        o => o,
    }
}

/// Each row is below every later row.
pub open spec fn rows_sorted(rows: Seq<WorkspaceAggregate>) -> bool {
    forall|x: int, y: int| 0 <= x < y < rows.len() ==> row_order(#[trigger] rows[x], #[trigger] rows[y]) == Order::Less
}

/// Each class of the active keys has an active record.
proof fn lemma_class_has_member(a: Seq<MetaView>, facts: Seq<WorkspaceFact>, cv: Seq<Seq<char>>, i: int)
    requires
        set_of(true, cv, active_keys(a, facts)),
        0 <= i < cv.len(),
    ensures
        exists|m: int| #![trigger a[m]] 0 <= m < a.len() && is_member(facts, cv[i], a[m]),
{
    let ak = active_keys(a, facts);
    reveal(from_firsts);
    let jj = choose|jj: int| 0 <= jj < ak.len() && first_of_class(true, ak, jj) && #[trigger] cv[i] == #[trigger] ak[jj];
    lemma_active_key_source(a, facts, jj);
    let m = choose|m: int| #![trigger a[m]] 0 <= m < a.len() && !a[m].archived && key_of(facts, a[m]) == ak[jj];
    assert(is_member(facts, cv[i], a[m]));
}

/// Inserting a row between the rows below it and those above it keeps the
/// rows sorted.
proof fn lemma_insert_row(before: Seq<WorkspaceAggregate>, row: WorkspaceAggregate, k: int)
    requires
        rows_sorted(before),
        0 <= k <= before.len(),
        forall|m: int| 0 <= m < k ==> row_order(#[trigger] before[m], row) == Order::Less,
        k < before.len() ==> row_order(row, before[k]) == Order::Less,
    ensures
        rows_sorted(before.insert(k, row)),
{
    let after = before.insert(k, row);
    assert forall|x: int, y: int| 0 <= x < y < after.len() implies row_order(#[trigger] after[x], #[trigger] after[y])
        == Order::Less by {
        if y < k {
            assert(after[x] == before[x] && after[y] == before[y]);
        } else if y == k {
            assert(after[x] == before[x]);
        } else if x == k {
            assert(after[y] == before[y - 1]);
            if y - 1 > k {
                assert(row_order(before[k], before[y - 1]) == Order::Less);
                lemma_row_order(row, before[k], before[y - 1]);
            }
        } else if x < k {
            assert(after[x] == before[x] && after[y] == before[y - 1]);
            assert(row_order(before[x], row) == Order::Less);
            if y - 1 >= k {
                lemma_row_order(before[x], row, before[y - 1]);
            }
        } else {
            assert(after[x] == before[x - 1] && after[y] == before[y - 1]);
        }
    }
}

/// The rows of the first `i` classes, with the row of class `i` inserted at
/// `k`, are the rows of the first `i + 1` classes.
proof fn lemma_insert_class(
    a: Seq<MetaView>,
    facts: Seq<WorkspaceFact>,
    cv: Seq<Seq<char>>,
    before: Seq<WorkspaceAggregate>,
    perm: Seq<int>,
    row: WorkspaceAggregate,
    k: int,
    i: int,
)
    requires
        0 <= i < cv.len(),
        before.len() == i,
        perm.len() == i,
        0 <= k <= i,
        row_ok(a, facts, cv[i], row),
        forall|q: int| 0 <= q < i ==> 0 <= #[trigger] perm[q] < i && row_ok(a, facts, cv[perm[q]], before[q]),
        forall|q: int, w: int| 0 <= q < w < i ==> #[trigger] perm[q] != #[trigger] perm[w],
    ensures
        ({
            let p2 = perm.insert(k, i);
            let r2 = before.insert(k, row);
            &&& forall|q: int| 0 <= q < i + 1 ==> 0 <= #[trigger] p2[q] < i + 1 && row_ok(a, facts, cv[p2[q]], r2[q])
            &&& forall|q: int, w: int| 0 <= q < w < i + 1 ==> #[trigger] p2[q] != #[trigger] p2[w]
        }),
{
    let p2 = perm.insert(k, i);
    let r2 = before.insert(k, row);
    assert forall|q: int| 0 <= q < i + 1 implies 0 <= #[trigger] p2[q] < i + 1 && row_ok(a, facts, cv[p2[q]], r2[q]) by {
        if q < k {
            assert(p2[q] == perm[q] && r2[q] == before[q]);
        } else if q > k {
            assert(p2[q] == perm[q - 1] && r2[q] == before[q - 1]);
        }
    }
    assert forall|q: int, w: int| 0 <= q < w < i + 1 implies #[trigger] p2[q] != #[trigger] p2[w] by {
        if q < k && w < k {
            assert(p2[q] == perm[q] && p2[w] == perm[w]);
        } else if q < k && w == k {
            assert(p2[q] == perm[q]);
        } else if q < k {
            assert(p2[q] == perm[q] && p2[w] == perm[w - 1]);
        } else if q == k {
            assert(p2[w] == perm[w - 1]);
        } else {
            assert(p2[q] == perm[q - 1] && p2[w] == perm[w - 1]);
        }
    }
}

impl SessionWorkspaceIndex {
    /// The normalized workspaces of the active records, in order.
    fn active_key_list(&self, ps: &Vec<(usize, usize)>) -> (keys: Vec<String>)
        requires
            self.wf(),
            pairs_valid(self.groups@, ps@),
            pair_views(self.groups@, ps@) == all_records(self.groups@),
        ensures
            views(keys@) == active_keys(self.all(), self.facts_of()),
    {
        let ghost a = all_records(self.groups@);
        let ghost facts = self.facts.facts@;
        let n = ps.len();
        let mut keys: Vec<String> = Vec::new();
        let mut j: usize = 0;
        while j < n
            invariant
                j <= n == a.len(),
                pairs_valid(self.groups@, ps@),
                pair_views(self.groups@, ps@) == a,
                facts == self.facts.facts@,
                views(keys@) =~= active_keys(a.take(j as int), facts),
            decreases n - j,
        {
            let (g, r) = ps[j];
            let rec = &self.groups[g].records[r];
            assert(a[j as int] == rec.view());
            proof {
                assert(a.take(j + 1).drop_last() =~= a.take(j as int));
                assert(a.take(j + 1).last() == a[j as int]);
            }
            if !rec.archived {
                let key = self.facts.normalize(rec.workspace.as_str());
                keys.push(key);
            }
            j = j + 1;
        }
        proof {
            assert(a.take(n as int) =~= a);
        }
        keys
    }

    /// One row per workspace of the active records (workspaces compared as
    /// paths after normalization), ordered by `row_order`: most recent
    /// activity first, then by workspace.
    pub fn workspaces(&self) -> (res: Vec<WorkspaceAggregate>)
        requires
            self.wf(),
        ensures
            exists|classes: Seq<Seq<char>>, perm: Seq<int>|
                #![trigger rows_for(self.all(), self.facts_of(), classes, res@, perm)]
                set_of(true, classes, active_keys(self.all(), self.facts_of())) && rows_for(
                    self.all(),
                    self.facts_of(),
                    classes,
                    res@,
                    perm,
                ),
            rows_sorted(res@),
    {
        let ps = self.flatten();
        let keys = self.active_key_list(&ps);
        let classes = sorted_set(&keys, true);
        let ghost a = self.all();
        let ghost facts = self.facts_of();
        let ghost cv = views(classes@);
        let mut res: Vec<WorkspaceAggregate> = Vec::new();
        let ghost mut perm: Seq<int> = Seq::empty();
        let mut i: usize = 0;
        while i < classes.len()
            invariant
                i <= classes.len(),
                cv == views(classes@),
                a == self.all(),
                facts == self.facts_of(),
                set_of(true, cv, active_keys(a, facts)),
                self.wf(),
                pairs_valid(self.groups@, ps@),
                pair_views(self.groups@, ps@) == all_records(self.groups@),
                res.len() == i,
                perm.len() == i,
                forall|q: int| 0 <= q < i ==> 0 <= #[trigger] perm[q] < i && row_ok(a, facts, cv[perm[q]], res@[q]),
                forall|q: int, w: int| 0 <= q < w < i ==> #[trigger] perm[q] != #[trigger] perm[w],
                rows_sorted(res@),
            decreases classes.len() - i,
        {
            assert(cv[i as int] == classes[i as int]@);
            let found = self.aggregate(&ps, classes[i].as_str());
            if let Some(row) = found {
                let mut k: usize = 0;
                while k < res.len() && compare_rows(&row, &res[k]) != Order::Less
                    invariant
                        k <= res.len() == i,
                        row_ok(a, facts, cv[i as int], row),
                        forall|m: int| 0 <= m < k ==> row_order(#[trigger] res@[m], row) == Order::Less,
                    decreases res.len() - k,
                {
                    proof {
                        let q = k as int;
                        lemma_rows_differ(a, facts, cv, perm[q], i as int, res@[q], row);
                        lemma_row_order(res@[q], row, row);
                    }
                    k = k + 1;
                }
                let ghost before = res@;
                proof {
                    lemma_insert_row(before, row, k as int);
                    lemma_insert_class(a, facts, cv, before, perm, row, k as int, i as int);
                }
                res.insert(k, row);
                proof {
                    perm = perm.insert(k as int, i as int);
                }
            } else {
                proof {
                    lemma_class_has_member(a, facts, cv, i as int);
                }
            }
            i = i + 1;
        }
        proof {
            assert(rows_for(a, facts, cv, res@, perm));
        }
        res
    }
}

fn path_eq_exec_str(a: &str, b: &str) -> (res: bool)
    ensures
        res == path_eq(a@, b@),
{
    crate::paths::path_eq_exec(a, b)
}

} // verus!
