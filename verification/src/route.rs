//! The decisions of the local Responses route: which provider a request
//! goes to, how its upstream URL and headers are made, and what an error
//! is answered with.
use vstd::prelude::*;

use crate::codex_provider::{
    active_base_url, api_key_spec, extract_active_base_url, extract_codex_api_key, is_cc_switch_proxy_url,
    is_proxy_url_spec, is_responses_wire_api, lift, opt_view, responses_wire, active_wire_api,
};
use crate::json::JsonValue;
use crate::lifecycle::opt_str;
use crate::provider::Provider;
use crate::index::{ResolveError, WorkspaceLookup};
use crate::provider::ProviderSummary;
use crate::provider_store::{any_current, has_id, is_first_current, rule_for, ProviderStore, ProviderStoreError};
use crate::workspace_rule::{normalize_workspace_path, normalized_spec};
use crate::text::{concat, is_blank, is_blank_str, owned, str_eq, trim, trimmed};
use crate::toml_doc::{parse_toml_opt, toml_doc_opt, TomlValue};

verus! {

/// The route's default port.
pub const DEFAULT_ROUTE_PORT: u16 = 16729;

#[derive(Debug)]
pub enum RouteStartupError {
    ProviderNotFound(String),
    NoCurrentProvider,
    MissingBaseUrl(String),
    MissingCredential(String),
    UnsupportedWireApi(String),
    InvalidBaseUrl(String),
    InvalidConfiguration(String),
    Store(ProviderStoreError),
    HttpClient(String),
}

impl RouteStartupError {
    /// The error's message, as its `Display` gives it.
    pub open spec fn message_spec(self) -> Seq<char> {
        match self {
            RouteStartupError::ProviderNotFound(id) => "provider '"@ + id@ + "' was not found"@,
            RouteStartupError::NoCurrentProvider => "no current provider is configured"@,
            RouteStartupError::MissingBaseUrl(id) => "provider '"@ + id@ + "' has no usable Responses upstream URL"@,
            RouteStartupError::MissingCredential(id) => "provider '"@ + id@ + "' has no usable upstream credential"@,
            RouteStartupError::UnsupportedWireApi(id) => "provider '"@ + id@ + "' does not use the Responses protocol"@,
            RouteStartupError::InvalidBaseUrl(id) => "invalid provider '"@ + id@ + "' upstream URL"@,
            RouteStartupError::InvalidConfiguration(id) => "provider '"@ + id@ + "' has invalid configuration"@,
            RouteStartupError::Store(e) => "provider store error: "@ + e.message_spec(),
            RouteStartupError::HttpClient(m) => "HTTP client initialization failed: "@ + m@,
        }
    }

    /// The error's message.
    pub fn message(&self) -> (res: String)
        ensures
            res@ == self.message_spec(),
    {
        match self {
            RouteStartupError::ProviderNotFound(id) => quoted("provider '", id.as_str(), "' was not found"),
            RouteStartupError::NoCurrentProvider => owned("no current provider is configured"),
            RouteStartupError::MissingBaseUrl(id) => quoted("provider '", id.as_str(), "' has no usable Responses upstream URL"),
            RouteStartupError::MissingCredential(id) => quoted("provider '", id.as_str(), "' has no usable upstream credential"),
            RouteStartupError::UnsupportedWireApi(id) => quoted("provider '", id.as_str(), "' does not use the Responses protocol"),
            RouteStartupError::InvalidBaseUrl(id) => quoted("invalid provider '", id.as_str(), "' upstream URL"),
            RouteStartupError::InvalidConfiguration(id) => quoted("provider '", id.as_str(), "' has invalid configuration"),
            RouteStartupError::Store(e) => {
                let m = e.message();
                concat("provider store error: ", m.as_str())
            },
            RouteStartupError::HttpClient(m) => concat("HTTP client initialization failed: ", m.as_str()),
        }
    }
}

fn quoted(a: &str, b: &str, c: &str) -> (res: String)
    ensures
        res@ == a@ + b@ + c@,
{
    let x = concat(a, b);
    concat(x.as_str(), c)
}

#[derive(Debug, Clone, Copy, PartialEq, Eq, Structural)]
pub enum RouteRequestError {
    ProviderUnavailable,
    ProviderConfiguration,
    UnsupportedWireApi,
    InvalidUrl,
    InvalidHeader,
    RequestBody,
    Upstream,
}

/// Why a provider's configuration cannot serve the route.
#[derive(Debug, Clone, Copy, PartialEq, Eq, Structural)]
pub enum ProviderConfigError {
    Invalid,
    UnsupportedWireApi,
    MissingBaseUrl,
    MissingCredential,
    InvalidBaseUrl,
}

/// A request header: its (lower-case) name and its value's bytes.
#[derive(Debug)]
pub struct HeaderEntry {
    pub name: String,
    pub value: Vec<u8>,
}

pub open spec fn header_view(h: HeaderEntry) -> (Seq<char>, Seq<u8>) {
    (h.name@, h.value@)
}

pub open spec fn header_views(hs: Seq<HeaderEntry>) -> Seq<(Seq<char>, Seq<u8>)> {
    hs.map_values(|h: HeaderEntry| header_view(h))
}

impl Clone for HeaderEntry {
    fn clone(&self) -> (res: Self)
        ensures
            header_view(res) == header_view(*self),
    {
        HeaderEntry { name: self.name.clone(), value: self.value.clone() }
    }
}

/// Headers that the route never forwards upstream.
pub open spec fn request_hop_by_hop(name: Seq<char>) -> bool {
    ||| name == "authorization"@
    ||| name == "host"@
    ||| name == "content-length"@
    ||| name == "connection"@
    ||| name == "transfer-encoding"@
    ||| name == "te"@
    ||| name == "trailer"@
    ||| name == "upgrade"@
    ||| name == "proxy-authenticate"@
    ||| name == "proxy-authorization"@
}

/// Headers of an upstream response that the route does not hand back.
pub open spec fn response_hop_by_hop(name: Seq<char>) -> bool {
    ||| name == "host"@
    ||| name == "content-length"@
    ||| name == "transfer-encoding"@
    ||| name == "connection"@
    ||| name == "te"@
    ||| name == "trailer"@
    ||| name == "upgrade"@
    ||| name == "proxy-authenticate"@
    ||| name == "proxy-authorization"@
}

pub fn is_request_hop_by_hop(name: &str) -> (res: bool)
    ensures
        res == request_hop_by_hop(name@),
{
    str_eq(name, "authorization") || str_eq(name, "host") || str_eq(name, "content-length") || str_eq(name, "connection")
        || str_eq(name, "transfer-encoding") || str_eq(name, "te") || str_eq(name, "trailer") || str_eq(name, "upgrade")
        || str_eq(name, "proxy-authenticate") || str_eq(name, "proxy-authorization")
}

pub fn is_response_hop_by_hop(name: &str) -> (res: bool)
    ensures
        res == response_hop_by_hop(name@),
{
    str_eq(name, "host") || str_eq(name, "content-length") || str_eq(name, "transfer-encoding") || str_eq(name, "connection")
        || str_eq(name, "te") || str_eq(name, "trailer") || str_eq(name, "upgrade") || str_eq(name, "proxy-authenticate")
        || str_eq(name, "proxy-authorization")
}

/// A byte that a header value may hold (`HeaderValue::from_str`).
pub open spec fn header_byte(b: u8) -> bool {
    (b >= 32 && b != 127) || b == 9
}

/// A byte of a header value that reads as text (`HeaderValue::to_str`).
pub open spec fn visible_byte(b: u8) -> bool {
    (b >= 32 && b < 127) || b == 9
}

pub open spec fn all_header_bytes(bs: Seq<u8>) -> bool {
    forall|i: int| 0 <= i < bs.len() ==> header_byte(#[trigger] bs[i])
}

pub open spec fn all_visible(bs: Seq<u8>) -> bool {
    forall|i: int| 0 <= i < bs.len() ==> visible_byte(#[trigger] bs[i])
}

fn header_bytes_ok(bs: &[u8]) -> (res: bool)
    ensures
        res == all_header_bytes(bs@),
{
    let mut i: usize = 0;
    while i < bs.len()
        invariant
            i <= bs@.len(),
            forall|j: int| 0 <= j < i ==> header_byte(#[trigger] bs@[j]),
        decreases bs@.len() - i,
    {
        let b = bs[i];
        if !((b >= 32 && b != 127) || b == 9) {
            return false;
        }
        i = i + 1;
    }
    true
}

fn visible_bytes_ok(bs: &[u8]) -> (res: bool)
    ensures
        res == all_visible(bs@),
{
    let mut i: usize = 0;
    while i < bs.len()
        invariant
            i <= bs@.len(),
            forall|j: int| 0 <= j < i ==> visible_byte(#[trigger] bs@[j]),
        decreases bs@.len() - i,
    {
        let b = bs[i];
        if !((b >= 32 && b < 127) || b == 9) {
            return false;
        }
        i = i + 1;
    }
    true
}

/// The headers that remain of a request once hop-by-hop headers are
/// dropped, in order.
pub open spec fn kept_headers(hs: Seq<(Seq<char>, Seq<u8>)>) -> Seq<(Seq<char>, Seq<u8>)>
    decreases hs.len(),
{
    if hs.len() == 0 {
        Seq::empty()
    } else if request_hop_by_hop(hs.last().0) {
        kept_headers(hs.drop_last())
    } else {
        kept_headers(hs.drop_last()).push(hs.last())
    }
}

/// The request headers that are never forwarded: the client's own
/// credential, the host and length of the request to the route, and the
/// hop-by-hop headers.
pub open spec fn never_forwarded(name: Seq<char>) -> bool {
    name == "authorization"@ || name == "host"@ || name == "content-length"@ || name == "connection"@ || name
        == "transfer-encoding"@ || name == "te"@ || name == "trailer"@ || name == "upgrade"@ || name
        == "proxy-authenticate"@ || name == "proxy-authorization"@
}

/// The headers kept of a request are exactly those whose names are not
/// `never_forwarded`, in their order: none of those is kept, every other
/// header is, and nothing else is added.
pub proof fn lemma_kept_headers(hs: Seq<(Seq<char>, Seq<u8>)>)
    ensures
        forall|i: int| 0 <= i < kept_headers(hs).len() ==> !never_forwarded(#[trigger] kept_headers(hs)[i].0),
        forall|i: int| 0 <= i < kept_headers(hs).len() ==> hs.contains(#[trigger] kept_headers(hs)[i]),
        forall|i: int| 0 <= i < hs.len() && !never_forwarded(#[trigger] hs[i].0) ==> kept_headers(hs).contains(hs[i]),
        kept_headers(hs).len() <= hs.len(),
    decreases hs.len(),
{
    if hs.len() > 0 {
        let t = hs.drop_last();
        lemma_kept_headers(t);
        let k = kept_headers(hs);
        assert forall|i: int| 0 <= i < k.len() implies hs.contains(#[trigger] k[i]) by {
            if i < kept_headers(t).len() {
                let j = choose|j: int| 0 <= j < t.len() && t[j] == kept_headers(t)[i];
                assert(hs[j] == t[j]);
            } else {
                assert(hs[hs.len() - 1] == k[i]);
            }
        }
        assert forall|i: int| 0 <= i < hs.len() && !never_forwarded(#[trigger] hs[i].0) implies k.contains(hs[i]) by {
            if i < hs.len() - 1 {
                assert(t[i] == hs[i]);
                let j = choose|j: int| 0 <= j < kept_headers(t).len() && kept_headers(t)[j] == t[i];
                assert(k[j] == kept_headers(t)[j]);
            } else {
                assert(k[k.len() - 1] == hs[i]);
            }
        }
    }
}

/// The headers forwarded upstream: the request's own, without hop-by-hop
/// headers, and the provider's credential as a bearer token (where there is
/// one that is not blank); an error where the token cannot be a header
/// value.
pub fn filter_request_headers(input: &Vec<HeaderEntry>, credential: Option<&str>) -> (res: Result<Vec<HeaderEntry>, RouteRequestError>)
    ensures
        match credential {
            Some(c) if !is_blank(c@) => {
                let v = crate::text::utf8_bytes("Bearer "@ + c@);
                if all_header_bytes(v) {
                    res matches Ok(out) && header_views(out@) == kept_headers(header_views(input@)).push(
                        ("authorization"@, v),
                    )
                } else {
                    res == Err::<Vec<HeaderEntry>, RouteRequestError>(RouteRequestError::InvalidHeader)
                }
            },
            _ => res matches Ok(out) && header_views(out@) == kept_headers(header_views(input@)),
        },
{
    let mut out: Vec<HeaderEntry> = Vec::new();
    let mut i: usize = 0;
    while i < input.len()
        invariant
            i <= input@.len(),
            header_views(out@) == kept_headers(header_views(input@).take(i as int)),
        decreases input@.len() - i,
    {
        proof {
            assert(header_views(input@).take(i + 1).drop_last() =~= header_views(input@).take(i as int));
        }
        let ghost before = out@;
        if !is_request_hop_by_hop(input[i].name.as_str()) {
            out.push(input[i].clone());
            assert(header_views(out@) =~= header_views(before).push(header_view(input@[i as int])));
        }
        i = i + 1;
    }
    assert(header_views(input@).take(i as int) =~= header_views(input@));
    match credential {
        Some(c) => {
            if is_blank_str(c) {
                return Ok(out);
            }
            let text = concat("Bearer ", c);
            let bytes = text.as_str().as_bytes();
            proof {
                reveal_strlit("Bearer ");
            }
            if !header_bytes_ok(bytes) {
                return Err(RouteRequestError::InvalidHeader);
            }
            let ghost kept = header_views(out@);
            let mut value: Vec<u8> = Vec::new();
            let mut k: usize = 0;
            while k < bytes.len()
                invariant
                    k <= bytes@.len(),
                    value@ == bytes@.take(k as int),
                decreases bytes@.len() - k,
            {
                value.push(bytes[k]);
                proof {
                    assert(value@ =~= bytes@.take(k + 1));
                }
                k = k + 1;
            }
            assert(bytes@.take(k as int) =~= bytes@);
            let ghost vv = value@;
            out.push(HeaderEntry { name: owned("authorization"), value });
            proof {
                reveal_strlit("authorization");
                assert(header_views(out@) =~= kept.push(("authorization"@, vv)));
            }
            Ok(out)
        },
        None => Ok(out),
    }
}

/// The value of the first header with this name, where it reads as text,
/// trimmed and not empty.
pub open spec fn header_session(hs: Seq<HeaderEntry>, name: Seq<char>) -> Option<Seq<char>> {
    if exists|i: int| 0 <= i < hs.len() && (#[trigger] hs[i]).name@ == name {
        let i = choose|i: int|
            0 <= i < hs.len() && (#[trigger] hs[i]).name@ == name && forall|j: int| 0 <= j < i ==> (#[trigger] hs[j]).name@ != name;
        let v = hs[i].value@;
        if all_visible(v) {
            let t = trimmed(ascii_chars(v));
            if t.len() > 0 {
                Some(t)
            } else {
                None
            }
        } else {
            None
        }
    } else {
        None
    }
}

/// Bytes of visible ASCII read as characters.
pub open spec fn ascii_chars(v: Seq<u8>) -> Seq<char> {
    v.map_values(|b: u8| (b as u32) as char)
}

/// The session ID of a Responses request: the `session_id` header, else
/// the `x-session-id` header, else `metadata.session_id` in the body; each
/// trimmed, an empty one skipped.
pub open spec fn session_spec(hs: Seq<HeaderEntry>, body: JsonValue) -> Option<Seq<char>> {
    match header_session(hs, "session_id"@) {
        Some(s) => Some(s),
        None => match header_session(hs, "x-session-id"@) {
            Some(s) => Some(s),
            None => match body.field("metadata"@) {
                Some(m) => match m.field("session_id"@) {
                    Some(JsonValue::Str(s)) => if trimmed(s@).len() > 0 {
                        Some(trimmed(s@))
                    } else {
                        None
                    },
                    _ => None,
                },
                None => None,
            },
        },
    }
}

/// A header value that names a session: visible ASCII whose trim is not
/// empty.
pub open spec fn names_session(v: Seq<u8>) -> bool {
    all_visible(v) && trimmed(ascii_chars(v)).len() > 0
}

proof fn lemma_header_first(hs: Seq<HeaderEntry>, name: Seq<char>, k: int)
    requires
        0 <= k < hs.len(),
        hs[k].name@ == name,
        forall|j: int| 0 <= j < k ==> (#[trigger] hs[j]).name@ != name,
    ensures
        header_session(hs, name) == if names_session(hs[k].value@) {
            Some(trimmed(ascii_chars(hs[k].value@)))
        } else {
            None
        },
{
    let c = choose|c: int|
        0 <= c < hs.len() && (#[trigger] hs[c]).name@ == name && forall|j: int| 0 <= j < c ==> (#[trigger] hs[j]).name@ != name;
    if c < k {
        assert(hs[c].name@ != name);
    } else if c > k {
        assert(hs[k].name@ != name);
    }
}

proof fn lemma_first_header_exists(hs: Seq<HeaderEntry>, name: Seq<char>, i: int)
    requires
        0 <= i < hs.len(),
        hs[i].name@ == name,
    ensures
        exists|c: int| 0 <= c < hs.len() && (#[trigger] hs[c]).name@ == name && forall|j: int| 0 <= j < c ==> (#[trigger] hs[j]).name@ != name,
    decreases i,
{
    if exists|j: int| 0 <= j < i && (#[trigger] hs[j]).name@ == name {
        let j = choose|j: int| 0 <= j < i && (#[trigger] hs[j]).name@ == name;
        lemma_first_header_exists(hs, name, j);
    } else {
        assert(forall|j: int| 0 <= j < i ==> (#[trigger] hs[j]).name@ != name);
    }
}

proof fn lemma_header_none(hs: Seq<HeaderEntry>, name: Seq<char>)
    requires
        forall|j: int| 0 <= j < hs.len() && (#[trigger] hs[j]).name@ == name ==> !names_session(hs[j].value@),
    ensures
        header_session(hs, name) is None,
{
    if exists|i: int| 0 <= i < hs.len() && (#[trigger] hs[i]).name@ == name {
        let i = choose|i: int| 0 <= i < hs.len() && (#[trigger] hs[i]).name@ == name;
        lemma_first_header_exists(hs, name, i);
        let d = choose|d: int|
            0 <= d < hs.len() && (#[trigger] hs[d]).name@ == name && forall|j: int| 0 <= j < d ==> (#[trigger] hs[j]).name@ != name;
        lemma_header_first(hs, name, d);
    }
}

/// The first `session_id` header of a request, where it names a session,
/// gives the session ID, trimmed, whatever else the request holds.
pub proof fn lemma_session_id_header_first(hs: Seq<HeaderEntry>, body: JsonValue, k: int)
    requires
        0 <= k < hs.len(),
        hs[k].name@ == "session_id"@,
        forall|j: int| 0 <= j < k ==> (#[trigger] hs[j]).name@ != "session_id"@,
        names_session(hs[k].value@),
    ensures
        session_spec(hs, body) == Some(trimmed(ascii_chars(hs[k].value@))),
{
    lemma_header_first(hs, "session_id"@, k);
}

/// Where no `session_id` header names a session, the first `x-session-id`
/// header, where it names one, gives the session ID, trimmed, whatever the
/// body holds.
pub proof fn lemma_x_session_id_header(hs: Seq<HeaderEntry>, body: JsonValue, k: int)
    requires
        forall|j: int| 0 <= j < hs.len() && (#[trigger] hs[j]).name@ == "session_id"@ ==> !names_session(hs[j].value@),
        0 <= k < hs.len(),
        hs[k].name@ == "x-session-id"@,
        forall|j: int| 0 <= j < k ==> (#[trigger] hs[j]).name@ != "x-session-id"@,
        names_session(hs[k].value@),
    ensures
        session_spec(hs, body) == Some(trimmed(ascii_chars(hs[k].value@))),
{
    lemma_header_none(hs, "session_id"@);
    lemma_header_first(hs, "x-session-id"@, k);
}

/// Where no header names a session, the trimmed `metadata.session_id`
/// string of the body, when it is not blank, is the session ID; else there
/// is none.
pub proof fn lemma_session_from_body(hs: Seq<HeaderEntry>, body: JsonValue)
    requires
        forall|j: int|
            0 <= j < hs.len() && ((#[trigger] hs[j]).name@ == "session_id"@ || hs[j].name@ == "x-session-id"@)
                ==> !names_session(hs[j].value@),
    ensures
        session_spec(hs, body) == match body.field("metadata"@) {
            Some(m) => match m.field("session_id"@) {
                Some(v) => match v.str_of() {
                    Some(s) => if trimmed(s).len() > 0 {
                        Some(trimmed(s))
                    } else {
                        None
                    },
                    None => None,
                },
                None => None,
            },
            None => None,
        },
{
    lemma_header_none(hs, "session_id"@);
    lemma_header_none(hs, "x-session-id"@);
}

fn header_value_text(hs: &Vec<HeaderEntry>, name: &str) -> (res: Option<String>)
    ensures
        opt_view(res) == header_session(hs@, name@),
{
    let mut i: usize = 0;
    while i < hs.len()
        invariant
            i <= hs@.len(),
            forall|j: int| 0 <= j < i ==> (#[trigger] hs@[j]).name@ != name@,
        decreases hs@.len() - i,
    {
        if str_eq(hs[i].name.as_str(), name) {
            proof {
                let c = choose|c: int|
                    0 <= c < hs@.len() && (#[trigger] hs@[c]).name@ == name@ && forall|j: int| 0 <= j < c ==> (#[trigger] hs@[j]).name@ != name@;
                assert(0 <= i < hs@.len() && hs@[i as int].name@ == name@);
                if c < i {
                    assert(hs@[c].name@ != name@);
                } else if c > i {
                    assert(hs@[i as int].name@ != name@);
                }
            }
            let v = &hs[i].value;
            if !visible_bytes_ok(v.as_slice()) {
                return None;
            }
            let mut text = String::new();
            let mut k: usize = 0;
            while k < v.len()
                invariant
                    k <= v@.len(),
                    all_visible(v@),
                    text@ == ascii_chars(v@.take(k as int)),
                decreases v@.len() - k,
            {
                let b = v[k];
                assert(visible_byte(v@[k as int]));
                let c = b as char;
                crate::text::push_char(&mut text, c);
                proof {
                    assert(ascii_chars(v@.take(k + 1)) =~= ascii_chars(v@.take(k as int)).push((b as u32) as char));
                }
                k = k + 1;
            }
            assert(v@.take(k as int) =~= v@);
            let t = trim(text.as_str());
            if is_blank_len(t.as_str()) {
                return None;
            }
            return Some(t);
        }
        i = i + 1;
    }
    None
}

fn is_blank_len(s: &str) -> (res: bool)
    ensures
        res == (s@.len() == 0),
{
    crate::text::chars_of(s).len() == 0
}

/// The session ID of a Responses request.
pub fn extract_codex_session_id(headers: &Vec<HeaderEntry>, body: &JsonValue) -> (res: Option<String>)
    ensures
        opt_view(res) == session_spec(headers@, *body),
{
    proof {
        reveal_strlit("session_id");
        reveal_strlit("x-session-id");
    }
    match header_value_text(headers, "session_id") {
        Some(s) => {
            return Some(s);
        },
        None => {},
    }
    match header_value_text(headers, "x-session-id") {
        Some(s) => {
            return Some(s);
        },
        None => {},
    }
    match body.get("metadata") {
        Some(m) => match m.get("session_id") {
            Some(JsonValue::Str(s)) => {
                let t = trim(s.as_str());
                if is_blank_len(t.as_str()) {
                    None
                } else {
                    Some(t)
                }
            },
            _ => None,
        },
        None => None,
    }
}


/// What `url::Url::parse` reads from a text: its scheme, whether it has a
/// host, and its path; `None` where it reports an error.
pub uninterp spec fn url_parsed(text: Seq<char>) -> Option<(Seq<char>, bool, Seq<char>)>;

/// The text of the URL that `url::Url::parse` reads from `base` once
/// `set_path(path)` and `set_query(query)` have been applied to it.
pub uninterp spec fn url_rewritten(base: Seq<char>, path: Seq<char>, query: Option<Seq<char>>) -> Seq<char>;

/// Parses a URL with `url::Url::parse` and reads its scheme, host and path.
/// The contract claims only that the result is the parser's (named
/// `url_parsed`).
#[verifier::external_body]
fn parse_url(text: &str) -> (res: Option<(String, bool, String)>)
    ensures
        match res {
            Some(r) => url_parsed(text@) == Some((r.0@, r.1, r.2@)),
            None => url_parsed(text@) is None,
        },
{
    reqwest::Url::parse(text).ok().map(|u| (u.scheme().to_string(), u.host_str().is_some(), u.path().to_string()))
}

/// Parses `base` with `url::Url::parse`, sets its path and query, and
/// writes it out.  The contract claims only that the result is that text
/// (named `url_rewritten`).
#[verifier::external_body]
fn rewrite_url(base: &str, path: &str, query: Option<&str>) -> (res: String)
    requires
        url_parsed(base@) is Some,
    ensures
        res@ == url_rewritten(base@, path@, opt_str(query)),
{
    let mut url = reqwest::Url::parse(base).unwrap();
    url.set_path(path);
    url.set_query(query);
    url.to_string()
}

/// A path with its trailing slashes removed.
pub open spec fn trim_end_slashes(p: Seq<char>) -> Seq<char>
    decreases p.len(),
{
    if p.len() > 0 && p.last() == '/' {
        trim_end_slashes(p.drop_last())
    } else {
        p
    }
}

/// The upstream URL of an endpoint: the provider's base URL (which must be
/// an `http` or `https` URL with a host) with the endpoint appended to its
/// path and the request's query.
pub open spec fn endpoint_url_spec(base: Seq<char>, endpoint: Seq<char>, query: Option<Seq<char>>) -> Option<Seq<char>> {
    match url_parsed(base) {
        None => None,
        Some((scheme, has_host, path)) => if !(scheme == "http"@ || scheme == "https"@) || !has_host {
            None
        } else {
            let p = trim_end_slashes(path);
            Some(url_rewritten(base, if p.len() == 0 { endpoint } else { p + endpoint }, query))
        },
    }
}

/// The base path keeps its place when an endpoint is appended: what is kept
/// of it is a prefix of it that does not end in a slash, and what is dropped
/// is slashes only, so that the endpoint (which starts with one) joins it
/// with a single slash.
pub proof fn lemma_base_path_joins_once(path: Seq<char>)
    ensures
        trim_end_slashes(path).len() <= path.len(),
        trim_end_slashes(path) == path.take(trim_end_slashes(path).len() as int),
        trim_end_slashes(path).len() == 0 || trim_end_slashes(path).last() != '/',
        forall|i: int| trim_end_slashes(path).len() <= i < path.len() ==> path[i] == '/',
    decreases path.len(),
{
    if path.len() > 0 && path.last() == '/' {
        lemma_base_path_joins_once(path.drop_last());
        let t = trim_end_slashes(path.drop_last());
        assert(path.drop_last().take(t.len() as int) =~= path.take(t.len() as int));
        assert forall|i: int| t.len() <= i < path.len() implies path[i] == '/' by {
            if i < path.len() - 1 {
                assert(path.drop_last()[i] == path[i]);
            }
        }
    } else {
        assert(path.take(path.len() as int) =~= path);
    }
}

/// An endpoint's upstream URL is the base URL, parsed as an `http` or
/// `https` URL with a host, with its path replaced by the base path less
/// its trailing slashes followed by the endpoint, and the request's query;
/// there is none for any other base URL.
pub proof fn lemma_endpoint_url(base: Seq<char>, endpoint: Seq<char>, query: Option<Seq<char>>)
    ensures
        match url_parsed(base) {
            Some((scheme, has_host, path)) => if (scheme == "http"@ || scheme == "https"@) && has_host {
                exists|n: int|
                    #![trigger path.take(n)]
                    0 <= n <= path.len() && (n == 0 || path[n - 1] != '/') && (forall|i: int|
                        n <= i < path.len() ==> path[i] == '/') && endpoint_url_spec(base, endpoint, query) == Some(
                        url_rewritten(base, path.take(n) + endpoint, query),
                    )
            } else {
                endpoint_url_spec(base, endpoint, query) is None
            },
            None => endpoint_url_spec(base, endpoint, query) is None,
        },
{
    match url_parsed(base) {
        Some((scheme, has_host, path)) => {
            if (scheme == "http"@ || scheme == "https"@) && has_host {
                lemma_base_path_joins_once(path);
                let n = trim_end_slashes(path).len() as int;
                assert(path.take(n) == trim_end_slashes(path));
                if n == 0 {
                    assert(path.take(0) + endpoint =~= endpoint);
                }
            }
        },
        None => {},
    }
}

fn trim_end_slashes_exec(p: &str) -> (res: String)
    ensures
        res@ == trim_end_slashes(p@),
{
    let cs = crate::text::chars_of(p);
    let mut n = cs.len();
    proof {
        assert(cs@.take(n as int) =~= cs@);
    }
    while n > 0 && cs[n - 1] == '/'
        invariant
            n <= cs@.len(),
            trim_end_slashes(p@) == trim_end_slashes(cs@.take(n as int)),
            cs@ == p@,
        decreases n,
    {
        proof {
            assert(cs@.take(n as int).drop_last() =~= cs@.take(n - 1));
        }
        n = n - 1;
    }
    crate::text::string_from_chars(crate::text::slice_sub(cs.as_slice(), 0, n))
}

pub fn upstream_endpoint_url(base_url: &str, endpoint: &str, query: Option<&str>) -> (res: Result<String, RouteRequestError>)
    ensures
        match endpoint_url_spec(base_url@, endpoint@, opt_str(query)) {
            Some(u) => res matches Ok(x) && x@ == u,
            None => res == Err::<String, RouteRequestError>(RouteRequestError::InvalidUrl),
        },
{
    let parsed = match parse_url(base_url) {
        Some(p) => p,
        None => {
            return Err(RouteRequestError::InvalidUrl);
        },
    };
    if !(str_eq(parsed.0.as_str(), "http") || str_eq(parsed.0.as_str(), "https")) || !parsed.1 {
        return Err(RouteRequestError::InvalidUrl);
    }
    let p = trim_end_slashes_exec(parsed.2.as_str());
    let path = if is_blank_len(p.as_str()) {
        owned(endpoint)
    } else {
        concat(p.as_str(), endpoint)
    };
    Ok(rewrite_url(base_url, path.as_str(), query))
}

/// The upstream URL of the Responses endpoint of a base URL.
pub fn upstream_responses_url(base_url: &str, query: Option<&str>) -> (res: Result<String, RouteRequestError>)
    ensures
        match endpoint_url_spec(base_url@, "/responses"@, opt_str(query)) {
            Some(u) => res matches Ok(x) && x@ == u,
            None => res == Err::<String, RouteRequestError>(RouteRequestError::InvalidUrl),
        },
{
    upstream_endpoint_url(base_url, "/responses", query)
}

/// The configuration text of a provider's settings: a string `config` that
/// is not blank.
pub open spec fn config_string(settings: JsonValue) -> Option<Seq<char>> {
    match settings.field("config"@) {
        Some(JsonValue::Str(s)) => if is_blank(s@) {
            None
        } else {
            Some(s@)
        },
        _ => None,
    }
}

/// What a provider's configuration gives the route: its upstream base URL
/// and credential, or why it cannot serve.
pub open spec fn provider_config_spec(settings: Option<JsonValue>) -> Result<(Seq<char>, Seq<char>), ProviderConfigError> {
    match settings {
        None => Err(ProviderConfigError::Invalid),
        Some(s) => if !s.is_object() {
            Err(ProviderConfigError::Invalid)
        } else {
            match config_string(s) {
                None => Err(ProviderConfigError::Invalid),
                Some(config) => match toml_doc_opt(config) {
                    None => Err(ProviderConfigError::Invalid),
                    Some(doc) => if !responses_wire(active_wire_api(doc)) {
                        Err(ProviderConfigError::UnsupportedWireApi)
                    } else {
                        match active_base_url(doc) {
                            None => Err(ProviderConfigError::MissingBaseUrl),
                            Some(base) => match api_key_spec(s, Some(doc)) {
                                None => Err(ProviderConfigError::MissingCredential),
                                Some(cred) => if cred == "PROXY_MANAGED"@ {
                                    Err(ProviderConfigError::MissingCredential)
                                } else if is_proxy_url_spec(base) {
                                    Err(ProviderConfigError::MissingBaseUrl)
                                } else if endpoint_url_spec(base, "/responses"@, None) is None {
                                    Err(ProviderConfigError::InvalidBaseUrl)
                                } else {
                                    Ok((base, cred))
                                },
                            },
                        }
                    },
                },
            }
        },
    }
}

pub open spec fn config_result_view(r: Result<(String, String), ProviderConfigError>) -> Result<(Seq<char>, Seq<char>), ProviderConfigError> {
    match r {
        Ok((a, b)) => Ok((a@, b@)),
        Err(e) => Err(e),
    }
}

/// The upstream base URL and credential of a provider.
pub fn provider_configuration_inner(provider: &Provider) -> (res: Result<(String, String), ProviderConfigError>)
    ensures
        config_result_view(res) == provider_config_spec(provider.settings_spec()),
{
    let settings = match provider.settings() {
        Some(s) => s,
        None => {
            return Err(ProviderConfigError::Invalid);
        },
    };
    if !settings.is_object_value() {
        return Err(ProviderConfigError::Invalid);
    }
    let config = match settings.get("config") {
        Some(JsonValue::Str(c)) => {
            if is_blank_str(c.as_str()) {
                return Err(ProviderConfigError::Invalid);
            }
            c
        },
        _ => {
            return Err(ProviderConfigError::Invalid);
        },
    };
    let doc = match parse_toml_opt(config.as_str()) {
        Some(d) => d,
        None => {
            return Err(ProviderConfigError::Invalid);
        },
    };
    if !is_responses_wire_api(config.as_str()) {
        return Err(ProviderConfigError::UnsupportedWireApi);
    }
    let base_url = match extract_active_base_url(config.as_str()) {
        Some(b) => b,
        None => {
            return Err(ProviderConfigError::MissingBaseUrl);
        },
    };
    let credential = match extract_codex_api_key(&settings, Some(config.as_str())) {
        Some(c) => c,
        None => {
            return Err(ProviderConfigError::MissingCredential);
        },
    };
    if str_eq(credential.as_str(), "PROXY_MANAGED") {
        return Err(ProviderConfigError::MissingCredential);
    }
    if is_cc_switch_proxy_url(base_url.as_str()) {
        return Err(ProviderConfigError::MissingBaseUrl);
    }
    if upstream_responses_url(base_url.as_str(), None).is_err() {
        return Err(ProviderConfigError::InvalidBaseUrl);
    }
    Ok((base_url, credential))
}

/// A configuration error as a request error.
pub open spec fn request_error_of(e: ProviderConfigError) -> RouteRequestError {
    match e {
        ProviderConfigError::UnsupportedWireApi => RouteRequestError::UnsupportedWireApi,
        ProviderConfigError::InvalidBaseUrl => RouteRequestError::InvalidUrl,
        _ => RouteRequestError::ProviderConfiguration,
    }
}

pub fn provider_configuration(provider: &Provider) -> (res: Result<(String, String), RouteRequestError>)
    ensures
        match provider_config_spec(provider.settings_spec()) {
            Ok((b, c)) => res matches Ok((x, y)) && x@ == b && y@ == c,
            Err(e) => res == Err::<(String, String), RouteRequestError>(request_error_of(e)),
        },
{
    match provider_configuration_inner(provider) {
        Ok(v) => Ok(v),
        Err(ProviderConfigError::UnsupportedWireApi) => Err(RouteRequestError::UnsupportedWireApi),
        Err(ProviderConfigError::InvalidBaseUrl) => Err(RouteRequestError::InvalidUrl),
        Err(_) => Err(RouteRequestError::ProviderConfiguration),
    }
}

pub fn provider_configuration_startup(provider: &Provider) -> (res: Result<(String, String), RouteStartupError>)
    ensures
        match provider_config_spec(provider.settings_spec()) {
            Ok((b, c)) => res matches Ok((x, y)) && x@ == b && y@ == c,
            Err(ProviderConfigError::UnsupportedWireApi) => res matches Err(RouteStartupError::UnsupportedWireApi(id)) && id
                == provider.id,
            Err(ProviderConfigError::MissingBaseUrl) => res matches Err(RouteStartupError::MissingBaseUrl(id)) && id
                == provider.id,
            Err(ProviderConfigError::MissingCredential) => res matches Err(RouteStartupError::MissingCredential(id)) && id
                == provider.id,
            Err(ProviderConfigError::InvalidBaseUrl) => res matches Err(RouteStartupError::InvalidBaseUrl(id)) && id
                == provider.id,
            Err(ProviderConfigError::Invalid) => res matches Err(RouteStartupError::InvalidConfiguration(id)) && id
                == provider.id,
        },
{
    match provider_configuration_inner(provider) {
        Ok(v) => Ok(v),
        Err(ProviderConfigError::UnsupportedWireApi) => Err(RouteStartupError::UnsupportedWireApi(provider.id.clone())),
        Err(ProviderConfigError::MissingBaseUrl) => Err(RouteStartupError::MissingBaseUrl(provider.id.clone())),
        Err(ProviderConfigError::MissingCredential) => Err(RouteStartupError::MissingCredential(provider.id.clone())),
        Err(ProviderConfigError::InvalidBaseUrl) => Err(RouteStartupError::InvalidBaseUrl(provider.id.clone())),
        Err(ProviderConfigError::Invalid) => Err(RouteStartupError::InvalidConfiguration(provider.id.clone())),
    }
}

/// The code that `/api/status` reports for a configuration error.
pub fn provider_configuration_error_code(error: &ProviderConfigError) -> (res: &'static str)
    ensures
        res@ == match error {
            ProviderConfigError::Invalid => "invalid_configuration"@,
            ProviderConfigError::UnsupportedWireApi => "unsupported_wire_api"@,
            ProviderConfigError::MissingBaseUrl => "missing_base_url"@,
            ProviderConfigError::MissingCredential => "missing_credential"@,
            ProviderConfigError::InvalidBaseUrl => "invalid_base_url"@,
        },
{
    match error {
        ProviderConfigError::Invalid => "invalid_configuration",
        ProviderConfigError::UnsupportedWireApi => "unsupported_wire_api",
        ProviderConfigError::MissingBaseUrl => "missing_base_url",
        ProviderConfigError::MissingCredential => "missing_credential",
        ProviderConfigError::InvalidBaseUrl => "invalid_base_url",
    }
}

/// The HTTP status, error code and message that a request error is
/// answered with.
pub fn route_error_parts(error: RouteRequestError) -> (res: (u16, &'static str, &'static str))
    ensures
        match error {
            RouteRequestError::ProviderUnavailable => res.0 == 503 && res.1@ == "provider_unavailable"@ && res.2@
                == "provider is unavailable"@,
            RouteRequestError::ProviderConfiguration | RouteRequestError::InvalidUrl | RouteRequestError::InvalidHeader => res.0
                == 503 && res.1@ == "provider_configuration_error"@ && res.2@ == "provider configuration is invalid"@,
            RouteRequestError::UnsupportedWireApi => res.0 == 501 && res.1@ == "responses_only"@ && res.2@
                == "only the Responses protocol is supported"@,
            RouteRequestError::RequestBody => res.0 == 413 && res.1@ == "request_body_error"@ && res.2@
                == "request body is too large or unreadable"@,
            RouteRequestError::Upstream => res.0 == 502 && res.1@ == "upstream_unavailable"@ && res.2@
                == "upstream request failed"@,
        },
{
    match error {
        RouteRequestError::ProviderUnavailable => (503, "provider_unavailable", "provider is unavailable"),
        RouteRequestError::ProviderConfiguration | RouteRequestError::InvalidUrl | RouteRequestError::InvalidHeader => (
            503,
            "provider_configuration_error",
            "provider configuration is invalid",
        ),
        RouteRequestError::UnsupportedWireApi => (501, "responses_only", "only the Responses protocol is supported"),
        RouteRequestError::RequestBody => (413, "request_body_error", "request body is too large or unreadable"),
        RouteRequestError::Upstream => (502, "upstream_unavailable", "upstream request failed"),
    }
}

/// The HTTP status, error code and message that a store error is answered
/// with by the management API.
pub fn management_store_error_parts(error: &ProviderStoreError) -> (res: (u16, &'static str, String))
    ensures
        match error {
            ProviderStoreError::ProviderNotFound(id) => res.0 == 404 && res.1@ == "provider_not_found"@ && res.2@
                == "provider '"@ + id@ + "' was not found"@,
            ProviderStoreError::RouteRuleAlreadyExists(w) => res.0 == 409 && res.1@ == "route_rule_exists"@ && res.2@
                == "workspace route already exists: "@ + w@,
            ProviderStoreError::RouteRuleNotFound(w) => res.0 == 404 && res.1@ == "route_rule_not_found"@ && res.2@
                == "workspace route was not found: "@ + w@,
            ProviderStoreError::InvalidWorkspace(e) => res.0 == 400 && res.1@ == "invalid_workspace"@ && res.2@ == match e {
                crate::workspace_rule::WorkspacePathError::Empty => "workspace path must not be empty"@,
                crate::workspace_rule::WorkspacePathError::Relative(p) => "workspace path must be absolute: "@ + p@,
            },
            _ => res.0 == 500 && res.1@ == "store_error"@ && res.2@ == "provider store operation failed"@,
        },
{
    match error {
        ProviderStoreError::ProviderNotFound(id) => (404, "provider_not_found", quoted("provider '", id.as_str(), "' was not found")),
        ProviderStoreError::RouteRuleAlreadyExists(w) => (409, "route_rule_exists", concat("workspace route already exists: ", w.as_str())),
        ProviderStoreError::RouteRuleNotFound(w) => (404, "route_rule_not_found", concat("workspace route was not found: ", w.as_str())),
        ProviderStoreError::InvalidWorkspace(e) => (400, "invalid_workspace", e.message()),
        _ => (500, "store_error", owned("provider store operation failed")),
    }
}


/// The provider that a route configured with `provider_id` serves by
/// default: that provider, or (with none configured) the current one that
/// comes first in the provider order.
pub open spec fn configured_spec(store: ProviderStore, provider_id: Option<Seq<char>>, res: Option<Provider>) -> bool {
    match provider_id {
        Some(id) => match res {
            Some(p) => p.id@ == id && exists|i: int|
                0 <= i < store.rows_spec().len() && #[trigger] store.rows_spec()[i].provider == p,
            None => !has_id(store.rows_spec(), id),
        },
        None => match res {
            Some(p) => exists|i: int| is_first_current(store.rows_spec(), i) && #[trigger] store.rows_spec()[i].provider == p,
            None => !any_current(store.rows_spec()),
        },
    }
}

pub fn configured_provider(store: &ProviderStore, provider_id: Option<&str>) -> (res: Option<Provider>)
    requires
        store.wf(),
    ensures
        configured_spec(*store, opt_str(provider_id), res),
{
    match provider_id {
        Some(id) => store.get(id),
        None => store.first_current(),
    }
}

/// The provider a request goes to: the configured one where the route was
/// started for one provider; else the provider of the rule for the
/// request's workspace, where there is such a rule and its provider exists;
/// else the current provider.  `workspace` is the normalized workspace that
/// the request's session resolved to, if any.
pub fn selected_provider(store: &ProviderStore, provider_id: Option<&str>, workspace: Option<&str>) -> (res: Result<Provider, RouteRequestError>)
    requires
        store.wf(),
    ensures
        provider_id is Some ==> match res {
            Ok(p) => configured_spec(*store, opt_str(provider_id), Some(p)),
            Err(e) => e == RouteRequestError::ProviderUnavailable && configured_spec(*store, opt_str(provider_id), None),
        },
        provider_id is None ==> {
            let rule = match workspace {
                Some(w) => rule_for(store.rules_spec(), w@),
                None => None,
            };
            if rule matches Some(r) && has_id(store.rows_spec(), r.provider_id@) {
                res matches Ok(p) && p.id@ == rule.unwrap().provider_id@ && exists|i: int|
                    0 <= i < store.rows_spec().len() && #[trigger] store.rows_spec()[i].provider == p
            } else {
                match res {
                    Ok(p) => configured_spec(*store, None, Some(p)),
                    Err(e) => e == RouteRequestError::ProviderUnavailable && configured_spec(*store, None, None),
                }
            }
        },
{
    if provider_id.is_some() {
        return match configured_provider(store, provider_id) {
            Some(p) => Ok(p),
            None => Err(RouteRequestError::ProviderUnavailable),
        };
    }
    match workspace {
        Some(w) => match store.rule_for_workspace(w) {
            Some(rule) => match store.get(rule.provider_id.as_str()) {
                Some(p) => {
                    return Ok(p);
                },
                None => {},
            },
            None => {},
        },
        None => {},
    }
    match configured_provider(store, None) {
        Some(p) => Ok(p),
        None => Err(RouteRequestError::ProviderUnavailable),
    }
}

/// The provider that the route starts with.
pub fn selected_provider_startup(store: &ProviderStore, provider_id: Option<&str>) -> (res: Result<Provider, RouteStartupError>)
    requires
        store.wf(),
    ensures
        match res {
            Ok(p) => configured_spec(*store, opt_str(provider_id), Some(p)),
            Err(e) => configured_spec(*store, opt_str(provider_id), None) && match provider_id {
                Some(id) => e matches RouteStartupError::ProviderNotFound(x) && x@ == id@,
                None => e matches RouteStartupError::NoCurrentProvider,
            },
        },
{
    match configured_provider(store, provider_id) {
        Some(p) => Ok(p),
        None => match provider_id {
            Some(id) => Err(RouteStartupError::ProviderNotFound(owned(id))),
            None => Err(RouteStartupError::NoCurrentProvider),
        },
    }
}

/// Checks, before the route starts, that its provider exists and can serve.
pub fn validate_selection(store: &ProviderStore, provider_id: Option<&str>) -> (res: Result<(), RouteStartupError>)
    requires
        store.wf(),
    ensures
        res is Ok <==> exists|p: Provider|
            #[trigger] configured_spec(*store, opt_str(provider_id), Some(p)) && provider_config_spec(p.settings_spec()) is Ok,
{
    let p = match selected_provider_startup(store, provider_id) {
        Ok(p) => p,
        Err(e) => {
            proof {
                lemma_configured_unique(*store, opt_str(provider_id));
            }
            return Err(e);
        },
    };
    proof {
        lemma_configured_unique(*store, opt_str(provider_id));
    }
    match provider_configuration_startup(&p) {
        Ok(_) => Ok(()),
        Err(e) => Err(e),
    }
}

/// The configured provider is determined: two answers that both meet the
/// specification are the same provider.
pub proof fn lemma_configured_unique(store: ProviderStore, provider_id: Option<Seq<char>>)
    requires
        store.wf(),
    ensures
        forall|a: Option<Provider>, b: Option<Provider>|
            #[trigger] configured_spec(store, provider_id, a) && #[trigger] configured_spec(store, provider_id, b) ==> a == b,
{
    let rows = store.rows_spec();
    assert forall|a: Option<Provider>, b: Option<Provider>|
        #[trigger] configured_spec(store, provider_id, a) && #[trigger] configured_spec(store, provider_id, b) implies a == b by {
        match (a, b) {
            (Some(p), Some(q)) => {
                match provider_id {
                    Some(id) => {
                        let i = choose|i: int| 0 <= i < rows.len() && #[trigger] rows[i].provider == p;
                        let j = choose|j: int| 0 <= j < rows.len() && #[trigger] rows[j].provider == q;
                        if i != j {
                            assert(rows[i].provider.id@ != rows[j].provider.id@);
                        }
                    },
                    None => {
                        let i = choose|i: int| is_first_current(rows, i) && #[trigger] rows[i].provider == p;
                        let j = choose|j: int| is_first_current(rows, j) && #[trigger] rows[j].provider == q;
                        if i != j {
                            crate::provider_store::lemma_provider_key_order(
                                crate::provider_store::provider_key(rows[i].provider),
                                crate::provider_store::provider_key(rows[j].provider),
                            );
                            assert(rows[i].provider.id@ != rows[j].provider.id@);
                            crate::text::lemma_lex_equal(rows[i].provider.id@, rows[j].provider.id@);
                        }
                    },
                }
            },
            (Some(p), None) => {
                match provider_id {
                    Some(id) => {
                        let i = choose|i: int| 0 <= i < rows.len() && #[trigger] rows[i].provider == p;
                    },
                    None => {
                        let i = choose|i: int| is_first_current(rows, i) && #[trigger] rows[i].provider == p;
                    },
                }
            },
            (None, Some(q)) => {
                match provider_id {
                    Some(id) => {
                        let j = choose|j: int| 0 <= j < rows.len() && #[trigger] rows[j].provider == q;
                    },
                    None => {
                        let j = choose|j: int| is_first_current(rows, j) && #[trigger] rows[j].provider == q;
                    },
                }
            },
            (None, None) => {},
        }
    }
}

/// The normalized workspace of a resolved session that requests are routed
/// by: none where the session's workspaces conflict or its workspace is
/// gone.  `canonical` is what canonicalizing the workspace on disk gave.
pub fn request_workspace(lookup: &Result<WorkspaceLookup, ResolveError>, canonical: Option<&str>) -> (res: Option<String>)
    ensures
        opt_view(res) == match lookup {
            Ok(l) => if l.conflicting_workspaces || !l.workspace_exists {
                None
            } else {
                normalized_spec(l.workspace@, opt_str(canonical))
            },
            Err(_) => None,
        },
{
    match lookup {
        Ok(l) => {
            if l.conflicting_workspaces || !l.workspace_exists {
                return None;
            }
            match normalize_workspace_path(l.workspace.as_str(), canonical) {
                Ok(w) => Some(w),
                Err(_) => None,
            }
        },
        Err(_) => None,
    }
}

/// What `/api/status` reports.
#[derive(Debug)]
pub struct RouteStatusReport {
    pub status: String,
    pub provider: Option<ProviderSummary>,
    pub valid: bool,
    pub error: Option<String>,
}

/// The status report of a route: healthy where its provider exists and can
/// serve, degraded otherwise, with the reason.
pub fn route_status(store: &ProviderStore, provider_id: Option<&str>) -> (res: RouteStatusReport)
    requires
        store.wf(),
    ensures
        exists|p: Option<Provider>|
            #[trigger] configured_spec(*store, opt_str(provider_id), p) && match p {
                Some(p) => {
                    &&& res.provider matches Some(s) && s.id == p.id && s.name == p.name && s.is_current == p.is_current
                    &&& res.valid == provider_config_spec(p.settings_spec()) is Ok
                    &&& match provider_config_spec(p.settings_spec()) {
                        Ok(_) => res.error is None,
                        Err(e) => res.error matches Some(c) && c@ == config_error_code(e),
                    }
                },
                None => {
                    &&& res.provider is None
                    &&& !res.valid
                    &&& res.error matches Some(c) && c@ == if provider_id is Some {
                        "provider_not_found"@
                    } else {
                        "no_current_provider"@
                    }
                },
            },
        res.status@ == if res.valid {
            "ok"@
        } else {
            "degraded"@
        },
{
    let provider = configured_provider(store, provider_id);
    let (valid, error) = match &provider {
        Some(p) => match provider_configuration_inner(p) {
            Ok(_) => (true, None),
            Err(e) => (false, Some(owned(provider_configuration_error_code(&e)))),
        },
        None => (false, Some(owned(if provider_id.is_some() { "provider_not_found" } else { "no_current_provider" }))),
    };
    let status = if valid {
        owned("ok")
    } else {
        owned("degraded")
    };
    let summary = match &provider {
        Some(p) => Some(ProviderSummary::from(p)),
        None => None,
    };
    RouteStatusReport { status, provider: summary, valid, error }
}

pub open spec fn config_error_code(e: ProviderConfigError) -> Seq<char> {
    match e {
        ProviderConfigError::Invalid => "invalid_configuration"@,
        ProviderConfigError::UnsupportedWireApi => "unsupported_wire_api"@,
        ProviderConfigError::MissingBaseUrl => "missing_base_url"@,
        ProviderConfigError::MissingCredential => "missing_credential"@,
        ProviderConfigError::InvalidBaseUrl => "invalid_base_url"@,
    }
}

} // verus!
