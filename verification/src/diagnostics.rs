//! Diagnostic records: secrets are redacted from what they say, and the
//! newest records are kept.
use vstd::prelude::*;

use crate::client::DiagnosticSeverity;
use crate::sets::views;
use crate::text::{
    ascii_lower, chars_occur_at, chars_of, is_whitespace, is_ws, occurs_at, push_char, starts_with, str_eq,
    str_starts_with, string_from_chars, to_ascii_lowercase, int_order, lemma_int_order, lemma_tie_trans, ord_trans, Order,
};

verus! {

/// `s[i..]` with every non-overlapping match of `pat`, taken from the left,
/// replaced by `rep` (`str::replace`).
pub open spec fn replace_from(s: Seq<char>, pat: Seq<char>, rep: Seq<char>, i: int) -> Seq<char>
    decreases s.len() - i,
{
    if i < 0 || i >= s.len() {
        Seq::empty()
    } else if pat.len() > 0 && occurs_at(s, pat, i) {
        rep + replace_from(s, pat, rep, i + pat.len())
    } else {
        seq![s[i]] + replace_from(s, pat, rep, i + 1)
    }
}

/// Every secret of the list that is not empty, in turn, replaced by
/// `[REDACTED]`.
pub open spec fn redact_secrets(s: Seq<char>, secrets: Seq<Seq<char>>) -> Seq<char>
    decreases secrets.len(),
{
    if secrets.len() == 0 {
        s
    } else {
        let t = redact_secrets(s, secrets.drop_last());
        if secrets.last().len() == 0 {
            t
        } else {
            replace_from(t, secrets.last(), "[REDACTED]"@, 0)
        }
    }
}

/// The end of the word that starts at `i`.
pub open spec fn word_end(s: Seq<char>, i: int) -> int
    decreases s.len() - i,
{
    if i < 0 || i >= s.len() || is_ws(s[i]) {
        i
    } else {
        word_end(s, i + 1)
    }
}

/// The whitespace-separated words of `s[i..]` (`str::split_whitespace`).
pub open spec fn words_from(s: Seq<char>, i: int) -> Seq<Seq<char>>
    decreases s.len() - i,
{
    if i < 0 || i >= s.len() {
        Seq::empty()
    } else if is_ws(s[i]) {
        words_from(s, i + 1)
    } else {
        let e = word_end(s, i);
        if i < e <= s.len() {
            seq![s.subrange(i, e)] + words_from(s, e)
        } else {
            Seq::empty()
        }
    }
}

/// The characters that `looks_like_api_key` strips from a word's ends.
pub open spec fn is_punct(c: char) -> bool {
    c == ',' || c == ';' || c == ')' || c == ']' || c == '}' || c == '"' || c == '\''
}

pub open spec fn trim_punct_left(s: Seq<char>) -> Seq<char>
    decreases s.len(),
{
    if s.len() > 0 && is_punct(s[0]) {
        trim_punct_left(s.drop_first())
    } else {
        s
    }
}

pub open spec fn trim_punct_right(s: Seq<char>) -> Seq<char>
    decreases s.len(),
{
    if s.len() > 0 && is_punct(s.last()) {
        trim_punct_right(s.drop_last())
    } else {
        s
    }
}

/// A word shaped like an API key: once stripped of surrounding
/// punctuation, it starts with `sk-` or `rk-` and is at least twelve bytes
/// long.
pub open spec fn api_key_like(w: Seq<char>) -> bool {
    let t = trim_punct_right(trim_punct_left(w));
    (starts_with(t, "sk-"@) || starts_with(t, "rk-"@)) && vstd::utf8::encode_utf8(t).len() >= 12
}

/// The first position from `i` at which `m` occurs in `t`, or -1.
pub open spec fn find_from(t: Seq<char>, m: Seq<char>, i: int) -> int
    decreases t.len() + 1 - i,
{
    if i < 0 || i + m.len() > t.len() {
        -1
    } else if occurs_at(t, m, i) {
        i
    } else {
        find_from(t, m, i + 1)
    }
}

/// Where a query value ends: at `&`, `#`, a space or the end.
pub open spec fn is_value_stop(c: char) -> bool {
    c == '&' || c == '#' || c == ' '
}

pub open spec fn value_end(t: Seq<char>, i: int) -> int
    decreases t.len() - i,
{
    if i < 0 || i >= t.len() || is_value_stop(t[i]) {
        i
    } else {
        value_end(t, i + 1)
    }
}

/// `t[i..]` with the value after each occurrence of the marker `m`
/// replaced by `[REDACTED]`, the search going on after each replacement.
pub open spec fn redact_marker_from(t: Seq<char>, m: Seq<char>, i: int) -> Seq<char>
    decreases t.len() - i,
{
    if i < 0 || i > t.len() {
        Seq::empty()
    } else {
        let p = find_from(t, m, i);
        if m.len() == 0 || p < 0 {
            t.subrange(i, t.len() as int)
        } else {
            let vs = p + m.len();
            let ve = value_end(t, vs);
            if i <= vs <= ve && i < ve <= t.len() {
                t.subrange(i, vs) + "[REDACTED]"@ + redact_marker_from(t, m, ve)
            } else {
                t.subrange(i, t.len() as int)
            }
        }
    }
}

/// The values of the secret query parameters of a word redacted, marker
/// by marker: `api_key`, `api-key`, `key`, `token`, `access_token`.
pub open spec fn redact_query(w: Seq<char>) -> Seq<char> {
    let a = redact_marker_from(w, "api_key="@, 0);
    let b = redact_marker_from(a, "api-key="@, 0);
    let c = redact_marker_from(b, "key="@, 0);
    let d = redact_marker_from(c, "token="@, 0);
    redact_marker_from(d, "access_token="@, 0)
}

/// The words from `j` on, redacted: `bearer` (in any ASCII case) and the
/// word after it become `Bearer [REDACTED]`, a word shaped like an API key
/// becomes `[REDACTED]`, and other words have their secret query values
/// redacted.
pub open spec fn redact_words_from(ws: Seq<Seq<char>>, j: int) -> Seq<Seq<char>>
    decreases ws.len() + 1 - j,
{
    if j < 0 || j >= ws.len() {
        Seq::empty()
    } else if ascii_lower(ws[j]) == "bearer"@ {
        seq!["Bearer [REDACTED]"@] + redact_words_from(ws, j + 2)
    } else if api_key_like(ws[j]) {
        seq!["[REDACTED]"@] + redact_words_from(ws, j + 1)
    } else {
        seq![redact_query(ws[j])] + redact_words_from(ws, j + 1)
    }
}

/// Words joined by single spaces.
pub open spec fn join_spaced(ws: Seq<Seq<char>>) -> Seq<char>
    decreases ws.len(),
{
    if ws.len() == 0 {
        Seq::empty()
    } else if ws.len() == 1 {
        ws[0]
    } else {
        join_spaced(ws.drop_last()) + seq![' '] + ws.last()
    }
}

/// A text with its secrets redacted: the given secrets first, then bearer
/// tokens, API-key-shaped words and secret query values; the words come
/// out joined by single spaces.
pub open spec fn redacted(value: Seq<char>, secrets: Seq<Seq<char>>) -> Seq<char> {
    join_spaced(redact_words_from(words_from(redact_secrets(value, secrets), 0), 0))
}

fn push_all(out: &mut Vec<char>, add: &Vec<char>)
    ensures
        final(out)@ == old(out)@ + add@,
{
    let mut k: usize = 0;
    while k < add.len()
        invariant
            k <= add@.len(),
            out@ == old(out)@ + add@.take(k as int),
        decreases add@.len() - k,
    {
        out.push(add[k]);
        assert(add@.take(k + 1) =~= add@.take(k as int).push(add@[k as int]));
        k = k + 1;
    }
    assert(add@.take(k as int) =~= add@);
}

/// Replaces every match of `pat` in `s` by `rep`.
fn replace_chars(s: &Vec<char>, pat: &Vec<char>, rep: &Vec<char>) -> (res: Vec<char>)
    ensures
        res@ == replace_from(s@, pat@, rep@, 0),
{
    let mut out: Vec<char> = Vec::new();
    let mut i: usize = 0;
    while i < s.len()
        invariant
            i <= s@.len(),
            out@ + replace_from(s@, pat@, rep@, i as int) == replace_from(s@, pat@, rep@, 0),
        decreases s@.len() - i,
    {
        let ghost before = out@;
        if pat.len() > 0 && chars_occur_at(s.as_slice(), pat.as_slice(), i) {
            push_all(&mut out, rep);
            proof {
                assert(before + replace_from(s@, pat@, rep@, i as int) =~= out@ + replace_from(
                    s@,
                    pat@,
                    rep@,
                    i + pat@.len(),
                ));
            }
            i = i + pat.len();
        } else {
            out.push(s[i]);
            proof {
                assert(before + replace_from(s@, pat@, rep@, i as int) =~= out@ + replace_from(s@, pat@, rep@, i + 1));
            }
            i = i + 1;
        }
    }
    assert(out@ + replace_from(s@, pat@, rep@, i as int) =~= out@);
    out
}

fn redact_secret_list(value: &str, secrets: &Vec<String>) -> (res: Vec<char>)
    ensures
        res@ == redact_secrets(value@, views(secrets@)),
{
    let mut cur = chars_of(value);
    let rep = chars_of("[REDACTED]");
    let mut j: usize = 0;
    while j < secrets.len()
        invariant
            j <= secrets@.len(),
            rep@ == "[REDACTED]"@,
            cur@ == redact_secrets(value@, views(secrets@).take(j as int)),
        decreases secrets@.len() - j,
    {
        proof {
            assert(views(secrets@).take(j + 1).drop_last() =~= views(secrets@).take(j as int));
            assert(views(secrets@).take(j + 1).last() == secrets@[j as int]@);
        }
        let pat = chars_of(secrets[j].as_str());
        if pat.len() > 0 {
            cur = replace_chars(&cur, &pat, &rep);
        }
        j = j + 1;
    }
    assert(views(secrets@).take(j as int) =~= views(secrets@));
    cur
}

fn string_of_range(cs: &Vec<char>, a: usize, b: usize) -> (res: String)
    requires
        a <= b <= cs@.len(),
    ensures
        res@ == cs@.subrange(a as int, b as int),
{
    let mut out = String::new();
    let mut k: usize = a;
    while k < b
        invariant
            a <= k <= b <= cs@.len(),
            out@ == cs@.subrange(a as int, k as int),
        decreases b - k,
    {
        push_char(&mut out, cs[k]);
        assert(cs@.subrange(a as int, k + 1) =~= cs@.subrange(a as int, k as int).push(cs@[k as int]));
        k = k + 1;
    }
    out
}

/// The whitespace-separated words of a text.
fn split_words(cs: &Vec<char>) -> (res: Vec<String>)
    ensures
        views(res@) == words_from(cs@, 0),
{
    let mut out: Vec<String> = Vec::new();
    let mut i: usize = 0;
    while i < cs.len()
        invariant
            i <= cs@.len(),
            views(out@) + words_from(cs@, i as int) == words_from(cs@, 0),
        decreases cs@.len() - i,
    {
        if is_whitespace(cs[i]) {
            i = i + 1;
        } else {
            let mut e: usize = i + 1;
            while e < cs.len() && !is_whitespace(cs[e])
                invariant
                    i < e <= cs@.len(),
                    word_end(cs@, i as int) == word_end(cs@, e as int),
                decreases cs@.len() - e,
            {
                e = e + 1;
            }
            let w = string_of_range(cs, i, e);
            let ghost before = views(out@);
            out.push(w);
            proof {
                assert(views(out@) =~= before.push(cs@.subrange(i as int, e as int)));
                assert(before + words_from(cs@, i as int) =~= views(out@) + words_from(cs@, e as int));
            }
            i = e;
        }
    }
    assert(views(out@) + words_from(cs@, i as int) =~= views(out@));
    out
}

fn is_punct_char(c: char) -> (res: bool)
    ensures
        res == is_punct(c),
{
    c == ',' || c == ';' || c == ')' || c == ']' || c == '}' || c == '"' || c == '\''
}

/// Whether a word is shaped like an API key.
fn looks_like_api_key(w: &str) -> (res: bool)
    ensures
        res == api_key_like(w@),
{
    let cs = chars_of(w);
    let n = cs.len();
    let mut a: usize = 0;
    assert(cs@.subrange(0, n as int) =~= cs@);
    while a < n && is_punct_char(cs[a])
        invariant
            a <= n == cs@.len(),
            trim_punct_left(cs@) == trim_punct_left(cs@.subrange(a as int, n as int)),
        decreases n - a,
    {
        assert(cs@.subrange(a as int, n as int).drop_first() =~= cs@.subrange(a + 1, n as int));
        a = a + 1;
    }
    assert(trim_punct_left(cs@) == cs@.subrange(a as int, n as int));
    let mut b: usize = n;
    while b > a && is_punct_char(cs[b - 1])
        invariant
            a <= b <= n == cs@.len(),
            trim_punct_right(cs@.subrange(a as int, n as int)) == trim_punct_right(cs@.subrange(a as int, b as int)),
        decreases b - a,
    {
        assert(cs@.subrange(a as int, b as int).drop_last() =~= cs@.subrange(a as int, b - 1));
        b = b - 1;
    }
    assert(trim_punct_right(cs@.subrange(a as int, b as int)) == cs@.subrange(a as int, b as int));
    let t = string_of_range(&cs, a, b);
    let shaped = str_starts_with(t.as_str(), "sk-") || str_starts_with(t.as_str(), "rk-");
    shaped && t.as_str().as_bytes().len() >= 12
}

/// The position of the first match of `m` in `t` from `i`.
fn find_chars(t: &Vec<char>, m: &Vec<char>, i: usize) -> (res: Option<usize>)
    requires
        i <= t@.len(),
    ensures
        match res {
            Some(p) => p == find_from(t@, m@, i as int) && i <= p && p + m@.len() <= t@.len(),
            None => find_from(t@, m@, i as int) < 0,
        },
{
    let mut k: usize = i;
    while m.len() <= t.len() - k
        invariant
            i <= k <= t@.len(),
            find_from(t@, m@, i as int) == find_from(t@, m@, k as int),
        decreases t@.len() + 1 - k,
    {
        if m.len() == 0 {
            assert(t@.subrange(k as int, k as int) =~= m@);
        }
        if chars_occur_at(t.as_slice(), m.as_slice(), k) {
            return Some(k);
        }
        k = k + 1;
    }
    None
}

/// The value after each occurrence of the marker redacted.
fn redact_marker(t: &Vec<char>, marker: &str) -> (res: Vec<char>)
    ensures
        res@ == redact_marker_from(t@, marker@, 0),
{
    let m = chars_of(marker);
    let rep = chars_of("[REDACTED]");
    if m.len() == 0 {
        assert(t@.subrange(0, t@.len() as int) =~= t@);
        return t.clone();
    }
    let mut out: Vec<char> = Vec::new();
    let mut i: usize = 0;
    loop
        invariant
            i <= t@.len(),
            m@ == marker@,
            m@.len() > 0,
            rep@ == "[REDACTED]"@,
            out@ + redact_marker_from(t@, m@, i as int) == redact_marker_from(t@, m@, 0),
        decreases t@.len() - i,
    {
        match find_chars(t, &m, i) {
            None => {
                let mut k: usize = i;
                let ghost before = out@;
                while k < t.len()
                    invariant
                        i <= k <= t@.len(),
                        out@ == before + t@.subrange(i as int, k as int),
                    decreases t@.len() - k,
                {
                    out.push(t[k]);
                    assert(t@.subrange(i as int, k + 1) =~= t@.subrange(i as int, k as int).push(t@[k as int]));
                    k = k + 1;
                }
                return out;
            },
            Some(p) => {
                let tl = t.len();
                assert(p + m@.len() <= tl);
                let vs = p + m.len();
                let mut ve: usize = vs;
                while ve < t.len() && !(t[ve] == '&' || t[ve] == '#' || t[ve] == ' ')
                    invariant
                        vs <= ve <= t@.len(),
                        value_end(t@, vs as int) == value_end(t@, ve as int),
                    decreases t@.len() - ve,
                {
                    ve = ve + 1;
                }
                let ghost before = out@;
                let mut k: usize = i;
                while k < vs
                    invariant
                        i <= k <= vs <= t@.len(),
                        out@ == before + t@.subrange(i as int, k as int),
                    decreases vs - k,
                {
                    out.push(t[k]);
                    assert(t@.subrange(i as int, k + 1) =~= t@.subrange(i as int, k as int).push(t@[k as int]));
                    k = k + 1;
                }
                push_all(&mut out, &rep);
                proof {
                    assert(before + redact_marker_from(t@, m@, i as int) =~= out@ + redact_marker_from(
                        t@,
                        m@,
                        ve as int,
                    ));
                }
                i = ve;
            },
        }
    }
}

fn redact_query_chars(w: &Vec<char>) -> (res: Vec<char>)
    ensures
        res@ == redact_query(w@),
{
    let a = redact_marker(w, "api_key=");
    let b = redact_marker(&a, "api-key=");
    let c = redact_marker(&b, "key=");
    let d = redact_marker(&c, "token=");
    redact_marker(&d, "access_token=")
}

/// Redacts a text: the given secrets first, then bearer tokens, words
/// shaped like API keys and the values of secret query parameters; the
/// words come out joined by single spaces.
pub fn redact(value: &str, secrets: &Vec<String>) -> (res: String)
    ensures
        res@ == redacted(value@, views(secrets@)),
{
    let cs = redact_secret_list(value, secrets);
    let ws = split_words(&cs);
    let ghost wv = views(ws@);
    let mut parts: Vec<String> = Vec::new();
    let mut j: usize = 0;
    while j < ws.len()
        invariant
            j <= ws@.len(),
            wv == views(ws@),
            views(parts@) + redact_words_from(wv, j as int) == redact_words_from(wv, 0),
        decreases ws@.len() - j,
    {
        let ghost before = views(parts@);
        let word = ws[j].as_str();
        assert(wv[j as int] == word@);
        let lowered = to_ascii_lowercase(word);
        if str_eq(lowered.as_str(), "bearer") {
            parts.push(crate::text::owned("Bearer [REDACTED]"));
            proof {
                assert(views(parts@) =~= before.push("Bearer [REDACTED]"@));
                assert(before + redact_words_from(wv, j as int) =~= views(parts@) + redact_words_from(wv, j + 2));
            }
            j = j + 1;
            if j < ws.len() {
                j = j + 1;
            }
        } else {
            if looks_like_api_key(word) {
                parts.push(crate::text::owned("[REDACTED]"));
                proof {
                    assert(views(parts@) =~= before.push("[REDACTED]"@));
                }
            } else {
                let wc = chars_of(word);
                let q = redact_query_chars(&wc);
                parts.push(string_from_chars(q.as_slice()));
                proof {
                    assert(views(parts@) =~= before.push(redact_query(word@)));
                }
            }
            proof {
                assert(before + redact_words_from(wv, j as int) =~= views(parts@) + redact_words_from(wv, j + 1));
            }
            j = j + 1;
        }
    }
    proof {
        assert(views(parts@) + redact_words_from(wv, j as int) =~= views(parts@));
    }
    join_words(&parts)
}

fn join_words(ws: &Vec<String>) -> (res: String)
    ensures
        res@ == join_spaced(views(ws@)),
{
    let mut out = String::new();
    if ws.len() == 0 {
        return out;
    }
    out = ws[0].clone();
    assert(views(ws@).take(1).len() == 1);
    let mut k: usize = 1;
    while k < ws.len()
        invariant
            1 <= k <= ws@.len(),
            out@ == join_spaced(views(ws@).take(k as int)),
        decreases ws@.len() - k,
    {
        push_char(&mut out, ' ');
        let w = chars_of(ws[k].as_str());
        let mut c: usize = 0;
        let ghost base = out@;
        while c < w.len()
            invariant
                c <= w@.len(),
                out@ == base + w@.take(c as int),
            decreases w@.len() - c,
        {
            push_char(&mut out, w[c]);
            assert(w@.take(c + 1) =~= w@.take(c as int).push(w@[c as int]));
            c = c + 1;
        }
        proof {
            assert(w@.take(c as int) =~= w@);
            assert(views(ws@).take(k + 1).drop_last() =~= views(ws@).take(k as int));
            assert(views(ws@).take(k + 1).last() == ws@[k as int]@);
        }
        k = k + 1;
    }
    assert(views(ws@).take(k as int) =~= views(ws@));
    out
}

} // verus!

verus! {

/// How many records the log keeps.
pub const MAX_RECORDS: usize = 200;

/// One diagnostic record; `context` holds key and value pairs in strictly
/// increasing order of key.
#[derive(Debug)]
pub struct DiagnosticRecord {
    pub id: u64,
    pub timestamp: i64,
    pub severity: DiagnosticSeverity,
    pub code: String,
    pub message: String,
    pub source: String,
    pub context: Vec<(String, String)>,
}

pub struct RecordView {
    pub id: u64,
    pub timestamp: i64,
    pub severity: DiagnosticSeverity,
    pub code: Seq<char>,
    pub message: Seq<char>,
    pub source: Seq<char>,
    pub context: Seq<(Seq<char>, Seq<char>)>,
}

pub open spec fn pair_views(ps: Seq<(String, String)>) -> Seq<(Seq<char>, Seq<char>)> {
    ps.map_values(|p: (String, String)| (p.0@, p.1@))
}

impl DiagnosticRecord {
    pub open spec fn view(self) -> RecordView {
        RecordView {
            id: self.id,
            timestamp: self.timestamp,
            severity: self.severity,
            code: self.code@,
            message: self.message@,
            source: self.source@,
            context: pair_views(self.context@),
        }
    }
}

pub open spec fn record_views(rs: Seq<DiagnosticRecord>) -> Seq<RecordView> {
    rs.map_values(|r: DiagnosticRecord| r.view())
}

/// The keys of a context, in order.
pub open spec fn context_keys(ps: Seq<(Seq<char>, Seq<char>)>) -> Seq<Seq<char>> {
    ps.map_values(|p: (Seq<char>, Seq<char>)| p.0)
}

/// A context whose keys are strictly increasing: each key once, in order.
pub open spec fn context_ordered(ps: Seq<(Seq<char>, Seq<char>)>) -> bool {
    crate::sets::sorted_strict(false, context_keys(ps))
}

/// The context with each value redacted.
pub open spec fn redacted_context(ps: Seq<(Seq<char>, Seq<char>)>, secrets: Seq<Seq<char>>) -> Seq<(Seq<char>, Seq<char>)> {
    ps.map_values(|p: (Seq<char>, Seq<char>)| (p.0, redacted(p.1, secrets)))
}

/// The newest records, at most `MAX_RECORDS` of them.
pub open spec fn kept(rs: Seq<RecordView>) -> Seq<RecordView> {
    if rs.len() > MAX_RECORDS {
        rs.take(MAX_RECORDS as int)
    } else {
        rs
    }
}

/// Every record that the log keeps has an ordered context where every
/// record recorded into it had one.
pub proof fn lemma_contexts_stay_ordered(r: RecordView, rs: Seq<RecordView>)
    requires
        context_ordered(r.context),
        forall|i: int| 0 <= i < rs.len() ==> context_ordered(#[trigger] rs[i].context),
    ensures
        forall|i: int| 0 <= i < kept(seq![r] + rs).len() ==> context_ordered(#[trigger] kept(seq![r] + rs)[i].context),
{
    assert forall|i: int| 0 <= i < kept(seq![r] + rs).len() implies context_ordered(#[trigger] kept(seq![r] + rs)[i].context) by {
        if i > 0 {
            assert(kept(seq![r] + rs)[i] == rs[i - 1]);
        }
    }
}

/// Recording keeps at most `MAX_RECORDS` records: the new one first, then
/// the newest of the earlier ones, in their order.
pub proof fn lemma_record_keeps_newest(r: RecordView, rs: Seq<RecordView>)
    ensures
        kept(seq![r] + rs).len() <= MAX_RECORDS,
        kept(seq![r] + rs)[0] == r,
        forall|i: int| 1 <= i < kept(seq![r] + rs).len() ==> #[trigger] kept(seq![r] + rs)[i] == rs[i - 1],
        kept(seq![r] + rs).len() == if rs.len() < MAX_RECORDS {
            rs.len() + 1
        } else {
            MAX_RECORDS as nat
        },
{
}

/// Newest first: by timestamp, then by id, both descending.
pub open spec fn recent_order(a: RecordView, b: RecordView) -> Order {
    int_order(b.timestamp as int, a.timestamp as int).tie(int_order(b.id as int, a.id as int))
}

proof fn lemma_recent_order(a: RecordView, b: RecordView, c: RecordView)
    ensures
        ord_trans(recent_order(a, b), recent_order(b, c), recent_order(a, c)),
        recent_order(b, a) == recent_order(a, b).flip(),
{
    lemma_int_order(c.timestamp as int, b.timestamp as int, a.timestamp as int);
    lemma_int_order(c.id as int, b.id as int, a.id as int);
    lemma_int_order(b.timestamp as int, a.timestamp as int, a.timestamp as int);
    lemma_int_order(b.id as int, a.id as int, a.id as int);
    lemma_tie_trans(
        int_order(b.timestamp as int, a.timestamp as int),
        int_order(c.timestamp as int, b.timestamp as int),
        int_order(c.timestamp as int, a.timestamp as int),
        int_order(b.id as int, a.id as int),
        int_order(c.id as int, b.id as int),
        int_order(c.id as int, a.id as int),
    );
}

/// `res` is `items` ordered newest first as a stable sort leaves them:
/// `res[i]` is `items[perm[i]]`, each item once, and items that compare
/// equal keep their order.
pub open spec fn recent_sorted_from(res: Seq<RecordView>, items: Seq<RecordView>, perm: Seq<int>) -> bool {
    &&& res.len() == items.len()
    &&& perm.len() == res.len()
    &&& forall|i: int| 0 <= i < perm.len() ==> 0 <= #[trigger] perm[i] < items.len() && res[i] == items[perm[i]]
    &&& forall|i: int, j: int| 0 <= i < j < perm.len() ==> #[trigger] perm[i] != #[trigger] perm[j]
    &&& forall|i: int, j: int|
        0 <= i < j < res.len() ==> recent_order(#[trigger] res[i], #[trigger] res[j]) != Order::Greater
    &&& forall|i: int, j: int|
        0 <= i < j < res.len() && recent_order(#[trigger] res[i], #[trigger] res[j]) == Order::Equal ==> perm[i] < perm[j]
}

proof fn lemma_recent_insert(before: Seq<RecordView>, items: Seq<RecordView>, perm: Seq<int>, k: int)
    requires
        0 < items.len(),
        recent_sorted_from(before, items.drop_last(), perm),
        0 <= k <= before.len(),
        forall|m: int| 0 <= m < k ==> recent_order(#[trigger] before[m], items.last()) != Order::Greater,
        k < before.len() ==> recent_order(items.last(), before[k]) == Order::Less,
    ensures
        recent_sorted_from(before.insert(k, items.last()), items, perm.insert(k, items.len() - 1)),
{
    let x = items.last();
    let n = items.len() - 1;
    let after = before.insert(k, x);
    let p2 = perm.insert(k, n);
    assert forall|i: int| 0 <= i < p2.len() implies 0 <= #[trigger] p2[i] < items.len() && after[i] == items[p2[i]] by {
        if i < k {
            assert(p2[i] == perm[i] && after[i] == before[i]);
        } else if i > k {
            assert(p2[i] == perm[i - 1] && after[i] == before[i - 1]);
        }
    }
    assert forall|i: int, j: int| 0 <= i < j < p2.len() implies #[trigger] p2[i] != #[trigger] p2[j] by {
        if i < k && j < k {
            assert(p2[i] == perm[i] && p2[j] == perm[j]);
        } else if i < k && j == k {
            assert(p2[i] == perm[i]);
        } else if i < k {
            assert(p2[i] == perm[i] && p2[j] == perm[j - 1]);
        } else if i == k {
            assert(p2[j] == perm[j - 1]);
        } else {
            assert(p2[i] == perm[i - 1] && p2[j] == perm[j - 1]);
        }
    }
    assert forall|i: int, j: int| 0 <= i < j < after.len() implies recent_order(#[trigger] after[i], #[trigger] after[j])
        != Order::Greater && (recent_order(after[i], after[j]) == Order::Equal ==> p2[i] < p2[j]) by {
        if j < k {
            assert(after[i] == before[i] && after[j] == before[j] && p2[i] == perm[i] && p2[j] == perm[j]);
        } else if j == k {
            assert(after[i] == before[i] && p2[i] == perm[i]);
        } else if i == k {
            assert(after[j] == before[j - 1]);
            if j - 1 > k {
                assert(recent_order(before[k], before[j - 1]) != Order::Greater);
                lemma_recent_order(x, before[k], before[j - 1]);
            }
        } else if i < k {
            assert(after[i] == before[i] && after[j] == before[j - 1] && p2[i] == perm[i] && p2[j] == perm[j - 1]);
            if recent_order(before[i], before[j - 1]) == Order::Equal {
                assert(perm[i] < perm[j - 1]);
            }
        } else {
            assert(after[i] == before[i - 1] && after[j] == before[j - 1] && p2[i] == perm[i - 1] && p2[j] == perm[j - 1]);
        }
    }
}

fn compare_recent(a: &DiagnosticRecord, b: &DiagnosticRecord) -> (res: Order)
    ensures
        res == recent_order(a.view(), b.view()),
{
    if b.timestamp < a.timestamp {
        Order::Less
    } else if b.timestamp > a.timestamp {
        Order::Greater
    } else if b.id < a.id {
        Order::Less
    } else if b.id > a.id {
        Order::Greater
    } else {
        Order::Equal
    }
}

fn copy_string(s: &String) -> (res: String)
    ensures
        res@ == s@,
{
    s.clone()
}

fn copy_record(r: &DiagnosticRecord) -> (res: DiagnosticRecord)
    ensures
        res.view() == r.view(),
{
    let mut context: Vec<(String, String)> = Vec::new();
    let mut k: usize = 0;
    while k < r.context.len()
        invariant
            k <= r.context@.len(),
            pair_views(context@) =~= pair_views(r.context@).take(k as int),
        decreases r.context@.len() - k,
    {
        let (key, value) = &r.context[k];
        context.push((copy_string(key), copy_string(value)));
        k = k + 1;
    }
    assert(pair_views(r.context@).take(k as int) =~= pair_views(r.context@));
    DiagnosticRecord {
        id: r.id,
        timestamp: r.timestamp,
        severity: r.severity,
        code: copy_string(&r.code),
        message: copy_string(&r.message),
        source: copy_string(&r.source),
        context,
    }
}

/// The diagnostics log: the newest records first, and the id of the next.
pub struct DiagnosticsStore {
    records: Vec<DiagnosticRecord>,
    next_id: u64,
}

impl DiagnosticsStore {
    /// The records kept, newest first.
    pub closed spec fn entries(self) -> Seq<RecordView> {
        record_views(self.records@)
    }

    /// The id that the next record gets.
    pub closed spec fn next(self) -> u64 {
        self.next_id
    }

    /// An empty log whose first record gets id 1.
    pub fn new() -> (res: Self)
        ensures
            res.entries() == Seq::<RecordView>::empty(),
            res.next() == 1,
    {
        let log = DiagnosticsStore { records: Vec::new(), next_id: 1 };
        assert(record_views(log.records@) =~= Seq::<RecordView>::empty());
        log
    }

    /// Records a diagnostic at time `now` with the given secrets, and
    /// every other secret-shaped text, redacted from its message and
    /// context values; the log keeps the newest `MAX_RECORDS` records, and
    /// ids count up by one, wrapping at the top of `u64`.
    pub fn record_with_secrets(
        &mut self,
        severity: DiagnosticSeverity,
        code: &str,
        message: &str,
        source: &str,
        context: &Vec<(String, String)>,
        secrets: &Vec<String>,
        now: i64,
    ) -> (rec: DiagnosticRecord)
        requires
            context_ordered(pair_views(context@)),
        ensures
            context_ordered(rec.view().context),
            rec.view() == (RecordView {
                id: old(self).next(),
                timestamp: now,
                severity,
                code: code@,
                message: redacted(message@, views(secrets@)),
                source: source@,
                context: redacted_context(pair_views(context@), views(secrets@)),
            }),
            final(self).entries() == kept(seq![rec.view()] + old(self).entries()),
            final(self).next() == (if old(self).next() == u64::MAX {
                0
            } else {
                (old(self).next() + 1) as u64
            }),
    {
        let mut ctx: Vec<(String, String)> = Vec::new();
        let mut k: usize = 0;
        while k < context.len()
            invariant
                k <= context@.len(),
                pair_views(ctx@) =~= redacted_context(pair_views(context@), views(secrets@)).take(k as int),
            decreases context@.len() - k,
        {
            let (key, value) = &context[k];
            ctx.push((copy_string(key), redact(value.as_str(), secrets)));
            k = k + 1;
        }
        assert(redacted_context(pair_views(context@), views(secrets@)).take(k as int) =~= redacted_context(
            pair_views(context@),
            views(secrets@),
        ));
        assert(context_keys(redacted_context(pair_views(context@), views(secrets@))) =~= context_keys(pair_views(context@)));
        let rec = DiagnosticRecord {
            id: self.next_id,
            timestamp: now,
            severity,
            code: crate::text::owned(code),
            message: redact(message, secrets),
            source: crate::text::owned(source),
            context: ctx,
        };
        self.next_id = if self.next_id == u64::MAX {
            0
        } else {
            self.next_id + 1
        };
        let stored = copy_record(&rec);
        let ghost before = self.records@;
        self.records.insert(0, stored);
        self.records.truncate(MAX_RECORDS);
        proof {
            assert(record_views(before.insert(0, stored)) =~= seq![rec.view()] + record_views(before));
            if before.len() + 1 > MAX_RECORDS {
                assert(record_views(self.records@) =~= (seq![rec.view()] + record_views(before)).take(MAX_RECORDS as int));
            }
        }
        rec
    }

    /// Records a diagnostic, redacting only what is secret-shaped.
    pub fn record(
        &mut self,
        severity: DiagnosticSeverity,
        code: &str,
        message: &str,
        source: &str,
        context: &Vec<(String, String)>,
        now: i64,
    ) -> (rec: DiagnosticRecord)
        requires
            context_ordered(pair_views(context@)),
        ensures
            context_ordered(rec.view().context),
            rec.view() == (RecordView {
                id: old(self).next(),
                timestamp: now,
                severity,
                code: code@,
                message: redacted(message@, Seq::empty()),
                source: source@,
                context: redacted_context(pair_views(context@), Seq::empty()),
            }),
            final(self).entries() == kept(seq![rec.view()] + old(self).entries()),
            final(self).next() == (if old(self).next() == u64::MAX {
                0
            } else {
                (old(self).next() + 1) as u64
            }),
    {
        let none: Vec<String> = Vec::new();
        assert(views(none@) =~= Seq::<Seq<char>>::empty());
        self.record_with_secrets(severity, code, message, source, context, &none, now)
    }

    /// The newest records, at most `limit` and at most `MAX_RECORDS`:
    /// ordered by timestamp, then id, both descending.
    pub fn recent(&self, limit: usize) -> (res: Vec<DiagnosticRecord>)
        ensures
            exists|sorted: Seq<RecordView>, perm: Seq<int>|
                #![trigger recent_sorted_from(sorted, self.entries(), perm)]
                recent_sorted_from(sorted, self.entries(), perm) && record_views(res@) == sorted.take(
                    vstd::math::min(vstd::math::min(limit as int, MAX_RECORDS as int), sorted.len() as int),
                ),
    {
        let ghost iv = record_views(self.records@);
        let mut res: Vec<DiagnosticRecord> = Vec::new();
        let ghost mut perm: Seq<int> = Seq::empty();
        let mut i: usize = 0;
        while i < self.records.len()
            invariant
                i <= self.records@.len(),
                iv == record_views(self.records@),
                recent_sorted_from(record_views(res@), iv.take(i as int), perm),
            decreases self.records@.len() - i,
        {
            let x = copy_record(&self.records[i]);
            let mut k: usize = 0;
            while k < res.len() && compare_recent(&x, &res[k]) != Order::Less
                invariant
                    k <= res.len() == i,
                    x.view() == iv[i as int],
                    forall|m: int| 0 <= m < k ==> recent_order(#[trigger] record_views(res@)[m], x.view()) != Order::Greater,
                decreases res.len() - k,
            {
                proof {
                    lemma_recent_order(x.view(), res@[k as int].view(), res@[k as int].view());
                    assert(record_views(res@)[k as int] == res@[k as int].view());
                }
                k = k + 1;
            }
            proof {
                assert(iv.take(i + 1).drop_last() =~= iv.take(i as int));
                assert(iv.take(i + 1).last() == x.view());
                if k < res.len() {
                    assert(record_views(res@)[k as int] == res@[k as int].view());
                }
                lemma_recent_insert(record_views(res@), iv.take(i + 1), perm, k as int);
            }
            let ghost before = res@;
            res.insert(k, x);
            proof {
                assert(record_views(res@) =~= record_views(before).insert(k as int, x.view()));
                perm = perm.insert(k as int, i as int);
            }
            i = i + 1;
        }
        proof {
            assert(iv.take(i as int) =~= iv);
        }
        let ghost sorted = record_views(res@);
        let n = if limit < MAX_RECORDS {
            limit
        } else {
            MAX_RECORDS
        };
        res.truncate(n);
        proof {
            assert(recent_sorted_from(sorted, self.entries(), perm));
            assert(record_views(res@) =~= sorted.take(
                vstd::math::min(vstd::math::min(limit as int, MAX_RECORDS as int), sorted.len() as int),
            ));
        }
        res
    }

    /// Forgets every record; ids go on counting.
    pub fn clear(&mut self)
        ensures
            final(self).entries() == Seq::<RecordView>::empty(),
            final(self).next() == old(self).next(),
    {
        self.records = Vec::new();
        assert(record_views(self.records@) =~= Seq::<RecordView>::empty());
    }
}

} // verus!
