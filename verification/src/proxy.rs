//! The server-side LLM gateway (`/api/proxy`): which requests it forwards,
//! where to, with which headers and API keys, and what it answers around
//! the upstream's reply.
//!
//! The client names a configured provider (`x-jan-provider`) and the URL it
//! wants (`x-jan-target-url`); the URL must lie within the provider's stored
//! `base_url` (the same scheme, host and port, and below its path), so the
//! gateway cannot be turned into an open relay. The keys
//! never leave the server: each attempt carries the next key of the
//! provider's chain, and a 401, 403 or 429 moves on to the next one.

use vstd::prelude::*;

use crate::paths::spec_views;
use crate::providers::{
    copy_string, spec_headers, spec_merged_keys, ProviderConfigView, ProviderConfigs,
};
use crate::server::HttpMethod;
use crate::text::{
    ascii_lowercase, chars_eq, chars_of, owned, opt_view, push_str, spec_ascii_lowercase,
    spec_starts_with, starts_with, string_of, string_push,
};

verus! {

/// Header naming the configured provider whose `base_url` and keys are used.
pub const PROVIDER_HEADER: &'static str = "x-jan-provider";

/// Header carrying the absolute upstream URL the client wants.
pub const TARGET_HEADER: &'static str = "x-jan-target-url";

// ---------------------------------------------------------------------------
// Types
// ---------------------------------------------------------------------------

/// A request the gateway forwards.
#[derive(Debug)]
pub struct ProxyForward {
    /// The provider named by the client.
    pub provider: String,
    /// The upstream URL.
    pub target: String,
    /// The client's headers that are relayed, in order.
    pub client_headers: Vec<(String, String)>,
    /// The provider's configured custom headers.
    pub custom_headers: Vec<(String, String)>,
    /// The key of each attempt, in order (`None`: no key configured).
    pub attempts: Vec<Option<String>>,
}

/// What the gateway does with a request.
#[derive(Debug)]
pub enum ProxyPlan {
    /// `OPTIONS`: answer 204 with the CORS headers.
    Preflight,
    /// Refuse with this status and message.
    Reject(u16, String),
    /// Forward upstream.
    Forward(ProxyForward),
}

/// The mathematical value of a [`ProxyForward`].
pub struct ProxyForwardView {
    pub provider: Seq<char>,
    pub target: Seq<char>,
    pub client_headers: Seq<(Seq<char>, Seq<char>)>,
    pub custom_headers: Seq<(Seq<char>, Seq<char>)>,
    pub attempts: Seq<Option<Seq<char>>>,
}

/// The mathematical value of a [`ProxyPlan`].
pub enum ProxyPlanView {
    Preflight,
    Reject(u16, Seq<char>),
    Forward(ProxyForwardView),
}

/// Names and values of a list of header pairs.
pub open spec fn spec_pairs(v: Seq<(String, String)>) -> Seq<(Seq<char>, Seq<char>)> {
    v.map_values(|h: (String, String)| (h.0@, h.1@))
}

/// Names and values of a list of static header pairs.
pub open spec fn spec_static_pairs(v: Seq<(&str, &str)>) -> Seq<(Seq<char>, Seq<char>)> {
    v.map_values(|h: (&str, &str)| (h.0@, h.1@))
}

/// The views of optional strings.
pub open spec fn spec_opt_views(v: Seq<Option<String>>) -> Seq<Option<Seq<char>>> {
    v.map_values(|o: Option<String>| opt_view(o))
}

/// Names and (readable) values of the request's headers.
pub open spec fn spec_header_views(v: Seq<(String, Option<String>)>) -> Seq<(Seq<char>, Option<Seq<char>>)> {
    v.map_values(|h: (String, Option<String>)| (h.0@, opt_view(h.1)))
}

impl View for ProxyForward {
    type V = ProxyForwardView;

    open spec fn view(&self) -> ProxyForwardView {
        ProxyForwardView {
            provider: self.provider@,
            target: self.target@,
            client_headers: spec_pairs(self.client_headers@),
            custom_headers: spec_pairs(self.custom_headers@),
            attempts: spec_opt_views(self.attempts@),
        }
    }
}

impl View for ProxyPlan {
    type V = ProxyPlanView;

    open spec fn view(&self) -> ProxyPlanView {
        match self {
            ProxyPlan::Preflight => ProxyPlanView::Preflight,
            ProxyPlan::Reject(s, m) => ProxyPlanView::Reject(*s, m@),
            ProxyPlan::Forward(f) => ProxyPlanView::Forward(f@),
        }
    }
}

// ---------------------------------------------------------------------------
// Specifications
// ---------------------------------------------------------------------------

/// Request headers the gateway never relays, compared without regard to
/// ASCII case: its own control headers, the auth headers it owns, and the
/// hop-by-hop headers of the connection.
pub open spec fn spec_is_hop_or_control(name: Seq<char>) -> bool {
    let l = spec_ascii_lowercase(name);
    ||| l == "x-jan-provider"@
    ||| l == "x-jan-target-url"@
    ||| l == "authorization"@
    ||| l == "x-api-key"@
    ||| l == "host"@
    ||| l == "content-length"@
    ||| l == "connection"@
    ||| l == "transfer-encoding"@
    ||| l == "keep-alive"@
    ||| l == "te"@
    ||| l == "trailer"@
    ||| l == "upgrade"@
    ||| l == "proxy-authorization"@
    ||| l == "proxy-authenticate"@
}

/// The client headers that are relayed: those not dropped above whose value
/// is readable text, in order.
pub open spec fn spec_forwardable(hs: Seq<(Seq<char>, Option<Seq<char>>)>) -> Seq<(Seq<char>, Seq<char>)>
    decreases hs.len(),
{
    if hs.len() == 0 {
        seq![]
    } else {
        let h = hs.last();
        spec_forwardable(hs.drop_last()) + match h.1 {
            Some(v) => if spec_is_hop_or_control(h.0) {
                Seq::<(Seq<char>, Seq<char>)>::empty()
            } else {
                seq![(h.0, v)]
            },
            None => Seq::<(Seq<char>, Seq<char>)>::empty(),
        }
    }
}

/// `s` without its trailing `/` characters.
pub open spec fn spec_trim_end_slashes(s: Seq<char>) -> Seq<char>
    decreases s.len(),
{
    if s.len() > 0 && s.last() == '/' {
        spec_trim_end_slashes(s.drop_last())
    } else {
        s
    }
}

/// `b` names an origin: it holds `://` with something after it.
pub open spec fn spec_has_authority(b: Seq<char>) -> bool {
    exists|i: int| 0 <= i && i + 3 < b.len() && #[trigger] b[i] == ':' && b[i + 1] == '/' && b[i + 2] == '/'
}

/// A character that ends the authority or the last path segment of a URL.
pub open spec fn spec_is_url_boundary(c: char) -> bool {
    c == '/' || c == '?' || c == '#'
}

/// `t` lies within the base URL `b` (trailing slashes already removed): `b`
/// names a scheme and authority, `t` begins with `b`, and what follows is
/// nothing or starts a new path segment, a query or a fragment. So `t` has
/// the same scheme, host and port as `b`, and `b`'s path segments begin
/// `t`'s.
///
/// A base without `://` and a host after it names no origin, so no target
/// lies within it and such a provider is answered 403 for every target. A
/// plain prefix test would relay there instead: a base of `http:` is a
/// prefix of every `http://` URL, and a base of `localhost:8080` is one of
/// URLs that no client can send (the upstream call then fails).
pub open spec fn spec_within_base(t: Seq<char>, b: Seq<char>) -> bool {
    &&& spec_has_authority(b)
    &&& spec_starts_with(t, b)
    &&& (t.len() == b.len() || spec_is_url_boundary(t[b.len() as int]))
}

/// A present, non-empty text.
pub open spec fn spec_nonempty(o: Option<Seq<char>>) -> bool {
    match o {
        Some(x) => x.len() > 0,
        None => false,
    }
}

/// The key of each attempt: every key of the chain in order, or a single
/// attempt without a key when the chain is empty.
pub open spec fn spec_attempts(keys: Seq<Seq<char>>) -> Seq<Option<Seq<char>>> {
    if keys.len() == 0 {
        seq![None]
    } else {
        keys.map_values(|k: Seq<char>| Some(k))
    }
}

/// The refusal of a request that lacks a provider or a target.
pub open spec fn spec_missing_headers_message() -> Seq<char> {
    "Missing x-jan-provider or x-jan-target-url header"@
}

/// The refusal of an unknown provider.
pub open spec fn spec_unknown_provider_message(p: Seq<char>) -> Seq<char> {
    "No configured provider named '"@ + p + "'"@
}

/// The refusal of a provider without a base URL.
pub open spec fn spec_no_base_url_message(p: Seq<char>) -> Seq<char> {
    "Provider '"@ + p + "' has no base_url configured"@
}

/// The refusal of a target outside the provider's base URL.
pub open spec fn spec_outside_base_message() -> Seq<char> {
    "Target URL is outside the provider's configured base_url"@
}

/// The answer when every key was rejected.
pub open spec fn spec_keys_rejected_message(p: Seq<char>) -> Seq<char> {
    "All configured API keys for provider '"@ + p + "' were rejected"@
}

/// What the gateway does with a request of `method` whose provider and
/// target headers read `provider` and `target` (`None`: absent or not
/// text), whose headers are `headers`, against the configurations
/// `configs`.
pub open spec fn spec_proxy_plan(
    method: HttpMethod,
    provider: Option<Seq<char>>,
    target: Option<Seq<char>>,
    headers: Seq<(Seq<char>, Option<Seq<char>>)>,
    configs: Map<Seq<char>, ProviderConfigView>,
) -> ProxyPlanView {
    if method == HttpMethod::Options {
        ProxyPlanView::Preflight
    } else if !(spec_nonempty(provider) && spec_nonempty(target)) {
        ProxyPlanView::Reject(400, spec_missing_headers_message())
    } else {
        let p = provider->0;
        let t = target->0;
        if !configs.contains_key(p) {
            ProxyPlanView::Reject(404, spec_unknown_provider_message(p))
        } else {
            let c = configs[p];
            if !spec_nonempty(c.base_url) {
                ProxyPlanView::Reject(400, spec_no_base_url_message(p))
            } else if !spec_within_base(t, spec_trim_end_slashes(c.base_url->0)) {
                ProxyPlanView::Reject(403, spec_outside_base_message())
            } else {
                ProxyPlanView::Forward(
                    ProxyForwardView {
                        provider: p,
                        target: t,
                        client_headers: spec_forwardable(headers),
                        custom_headers: c.custom_headers,
                        attempts: spec_attempts(spec_merged_keys(c.api_key, c.api_keys)),
                    },
                )
            }
        }
    }
}

/// Whether the relayed client headers already hold a `content-type`.
pub open spec fn spec_has_content_type(hs: Seq<(Seq<char>, Seq<char>)>) -> bool {
    exists|i: int| 0 <= i < hs.len() && spec_ascii_lowercase(#[trigger] hs[i].0) == "content-type"@
}

/// The headers of attempt `idx`, in the order they are set: the relayed
/// client headers, `content-type: application/json` when the client sent
/// none, the provider's custom headers, then the attempt's key as a bearer
/// token.
pub open spec fn spec_attempt_headers(f: ProxyForwardView, idx: int) -> Seq<(Seq<char>, Seq<char>)> {
    f.client_headers + (if spec_has_content_type(f.client_headers) {
        Seq::<(Seq<char>, Seq<char>)>::empty()
    } else {
        seq![("content-type"@, "application/json"@)]
    }) + f.custom_headers + match f.attempts[idx] {
        Some(k) => seq![("authorization"@, "Bearer "@ + k)],
        None => Seq::<(Seq<char>, Seq<char>)>::empty(),
    }
}

/// Statuses that mean "try the next API key".
pub open spec fn spec_status_means_retry(status: u16) -> bool {
    status == 401 || status == 403 || status == 429
}

/// Whether attempt `idx` of `n` is followed by another after `status`.
pub open spec fn spec_should_retry(status: u16, idx: int, n: int) -> bool {
    spec_status_means_retry(status) && idx + 1 < n
}

/// The CORS headers of every gateway answer.
pub open spec fn spec_cors_headers() -> Seq<(Seq<char>, Seq<char>)> {
    seq![
        ("access-control-allow-origin"@, "sameorigin"@),
        ("access-control-allow-headers"@, "*"@),
        ("access-control-allow-methods"@, "GET, POST, OPTIONS"@),
    ]
}

/// The headers the gateway adds to a relayed answer of `status` (after the
/// upstream's `content-type`): no buffering for a success, then CORS.
pub open spec fn spec_response_headers(status: u16) -> Seq<(Seq<char>, Seq<char>)> {
    (if 200 <= status && status < 300 {
        seq![("cache-control"@, "no-cache"@), ("x-accel-buffering"@, "no"@)]
    } else {
        Seq::<(Seq<char>, Seq<char>)>::empty()
    }) + spec_cors_headers()
}

/// Pushing a pair pushes its names and values.
proof fn lemma_pairs_push(s: Seq<(String, String)>, x: (String, String))
    ensures
        spec_pairs(s.push(x)) == spec_pairs(s).push((x.0@, x.1@)),
{
    assert(spec_pairs(s.push(x)) =~= spec_pairs(s).push((x.0@, x.1@)));
}

/// Pushing a static pair pushes its names and values.
proof fn lemma_static_pairs_push(s: Seq<(&str, &str)>, x: (&str, &str))
    ensures
        spec_static_pairs(s.push(x)) == spec_static_pairs(s).push((x.0@, x.1@)),
{
    assert(spec_static_pairs(s.push(x)) =~= spec_static_pairs(s).push((x.0@, x.1@)));
}

// ---------------------------------------------------------------------------
// Header checks
// ---------------------------------------------------------------------------

/// Whether the request header `name` is one the gateway must not relay.
pub fn is_hop_or_control_header(name: &str) -> (res: bool)
    ensures
        res == spec_is_hop_or_control(name@),
{
    let l = ascii_lowercase(name);
    let n = l.len();
    let s = l.as_slice();
    assert(l@.subrange(0, n as int) =~= l@);
    chars_eq(s, 0, n, "x-jan-provider") || chars_eq(s, 0, n, "x-jan-target-url") || chars_eq(
        s,
        0,
        n,
        "authorization",
    ) || chars_eq(s, 0, n, "x-api-key") || chars_eq(s, 0, n, "host") || chars_eq(
        s,
        0,
        n,
        "content-length",
    ) || chars_eq(s, 0, n, "connection") || chars_eq(s, 0, n, "transfer-encoding") || chars_eq(
        s,
        0,
        n,
        "keep-alive",
    ) || chars_eq(s, 0, n, "te") || chars_eq(s, 0, n, "trailer") || chars_eq(s, 0, n, "upgrade")
        || chars_eq(s, 0, n, "proxy-authorization") || chars_eq(s, 0, n, "proxy-authenticate")
}

/// Whether an upstream `status` means "try the next API key".
pub fn http_status_indicates_api_key_retry(status: u16) -> (res: bool)
    ensures
        res == spec_status_means_retry(status),
{
    status == 401 || status == 403 || status == 429
}

/// Whether attempt `idx` of `attempts` is followed by another after the
/// upstream answered `status`.
pub fn should_retry_with_next_key(status: u16, idx: usize, attempts: usize) -> (res: bool)
    ensures
        res == spec_should_retry(status, idx as int, attempts as int),
{
    http_status_indicates_api_key_retry(status) && idx < attempts && attempts - idx > 1
}

/// `s` without its trailing `/` characters (`trim_end_matches('/')`).
pub fn trim_end_slashes(s: &str) -> (res: String)
    ensures
        res@ == spec_trim_end_slashes(s@),
{
    let v = chars_of(s);
    let mut k = v.len();
    assert(v@.subrange(0, k as int) =~= v@);
    while k > 0 && v[k - 1] == '/'
        invariant
            k <= v@.len(),
            v@ == s@,
            spec_trim_end_slashes(v@.subrange(0, k as int)) == spec_trim_end_slashes(s@),
        decreases k,
    {
        assert(v@.subrange(0, k as int).drop_last() =~= v@.subrange(0, k - 1));
        k = k - 1;
    }
    string_of(v.as_slice(), 0, k)
}

/// Whether `v` holds `://` with something after it.
fn has_authority(v: &Vec<char>) -> (res: bool)
    ensures
        res == spec_has_authority(v@),
{
    let n = v.len();
    let mut i: usize = 0;
    while i < n
        invariant
            n == v@.len(),
            i <= n,
            forall|j: int| 0 <= j < i && j + 3 < n ==> !(#[trigger] v@[j] == ':' && v@[j + 1] == '/' && v@[j + 2] == '/'),
        decreases n - i,
    {
        if n - i > 3 && v[i] == ':' && v[i + 1] == '/' && v[i + 2] == '/' {
            return true;
        }
        i = i + 1;
    }
    false
}

/// Whether `t` lies within the base URL `b`.
pub fn within_base(t: &str, b: &str) -> (res: bool)
    ensures
        res == spec_within_base(t@, b@),
{
    let bv = chars_of(b);
    let n = bv.len();
    if !has_authority(&bv) {
        return false;
    }
    if !starts_with(t, b) {
        return false;
    }
    let tv = chars_of(t);
    if tv.len() == n {
        return true;
    }
    let c = tv[n];
    c == '/' || c == '?' || c == '#'
}

/// The relayed client headers, in order.
fn forwardable_headers(headers: &Vec<(String, Option<String>)>) -> (res: Vec<(String, String)>)
    ensures
        spec_pairs(res@) == spec_forwardable(spec_header_views(headers@)),
{
    let ghost hv = spec_header_views(headers@);
    let mut out: Vec<(String, String)> = Vec::new();
    let mut i: usize = 0;
    assert(spec_pairs(out@) =~= spec_forwardable(hv.take(0)));
    while i < headers.len()
        invariant
            0 <= i <= headers@.len(),
            hv == spec_header_views(headers@),
            spec_pairs(out@) == spec_forwardable(hv.take(i as int)),
        decreases headers@.len() - i,
    {
        let ghost before = out@;
        let (name, value) = &headers[i];
        assert(hv.take(i + 1).drop_last() =~= hv.take(i as int));
        assert(hv.take(i + 1).last() == (name@, opt_view(*value)));
        if let Some(v) = value {
            if !is_hop_or_control_header(name.as_str()) {
                out.push((copy_string(name), copy_string(v)));
                assert(spec_pairs(out@) =~= spec_pairs(before) + seq![(name@, v@)]);
            } else {
                assert(spec_pairs(out@) =~= spec_pairs(before) + Seq::<(Seq<char>, Seq<char>)>::empty());
            }
        } else {
            assert(spec_pairs(out@) =~= spec_pairs(before) + Seq::<(Seq<char>, Seq<char>)>::empty());
        }
        i = i + 1;
    }
    assert(hv.take(headers@.len() as int) =~= hv);
    out
}

/// Whether the relayed client headers hold a `content-type`.
fn has_content_type(hs: &Vec<(String, String)>) -> (res: bool)
    ensures
        res == spec_has_content_type(spec_pairs(hs@)),
{
    let ghost p = spec_pairs(hs@);
    let mut i: usize = 0;
    while i < hs.len()
        invariant
            0 <= i <= hs@.len(),
            p == spec_pairs(hs@),
            forall|j: int| 0 <= j < i ==> spec_ascii_lowercase(#[trigger] p[j].0) != "content-type"@,
        decreases hs@.len() - i,
    {
        let l = ascii_lowercase(hs[i].0.as_str());
        assert(l@.subrange(0, l@.len() as int) =~= l@);
        assert(p[i as int].0 == hs@[i as int].0@);
        if chars_eq(l.as_slice(), 0, l.len(), "content-type") {
            return true;
        }
        i = i + 1;
    }
    false
}

// ---------------------------------------------------------------------------
// Planning
// ---------------------------------------------------------------------------

/// The refusal of an unknown provider.
fn unknown_provider_message(p: &str) -> (res: String)
    ensures
        res@ == spec_unknown_provider_message(p@),
{
    let mut m = owned("No configured provider named '");
    push_str(&mut m, p);
    push_str(&mut m, "'");
    m
}

/// The refusal of a provider without a base URL.
fn no_base_url_message(p: &str) -> (res: String)
    ensures
        res@ == spec_no_base_url_message(p@),
{
    let mut m = owned("Provider '");
    push_str(&mut m, p);
    push_str(&mut m, "' has no base_url configured");
    m
}

/// The answer when every key of `provider` was rejected.
pub fn keys_rejected_message(provider: &str) -> (res: String)
    ensures
        res@ == spec_keys_rejected_message(provider@),
{
    let mut m = owned("All configured API keys for provider '");
    push_str(&mut m, provider);
    push_str(&mut m, "' were rejected");
    m
}

/// The key of each attempt for a key chain.
fn attempts_of(keys: Vec<String>) -> (res: Vec<Option<String>>)
    ensures
        spec_opt_views(res@) == spec_attempts(spec_views(keys@)),
{
    let mut out: Vec<Option<String>> = Vec::new();
    if keys.len() == 0 {
        out.push(None);
        assert(spec_opt_views(out@) =~= seq![None]);
        return out;
    }
    let mut i: usize = 0;
    while i < keys.len()
        invariant
            0 <= i <= keys@.len(),
            out@.len() == i,
            forall|j: int| 0 <= j < i ==> opt_view(#[trigger] out@[j]) == Some(keys@[j]@),
        decreases keys@.len() - i,
    {
        out.push(Some(copy_string(&keys[i])));
        i = i + 1;
    }
    assert(spec_opt_views(out@) =~= spec_attempts(spec_views(keys@)));
    out
}

/// The provider's custom headers as pairs.
fn custom_header_pairs(c: &crate::providers::ProviderConfig) -> (res: Vec<(String, String)>)
    ensures
        spec_pairs(res@) == spec_headers(c.custom_headers@),
{
    let mut out: Vec<(String, String)> = Vec::new();
    let mut i: usize = 0;
    while i < c.custom_headers.len()
        invariant
            0 <= i <= c.custom_headers@.len(),
            out@.len() == i,
            forall|j: int| 0 <= j < i ==> spec_pairs(out@)[j] == spec_headers(c.custom_headers@)[j],
        decreases c.custom_headers@.len() - i,
    {
        let h = &c.custom_headers[i];
        let ghost before = out@;
        let pair = (copy_string(&h.header), copy_string(&h.value));
        out.push(pair);
        proof {
            lemma_pairs_push(before, pair);
        }
        i = i + 1;
    }
    assert(spec_pairs(out@) =~= spec_headers(c.custom_headers@));
    out
}

/// What the gateway does with a request of `method` whose provider and
/// target headers read `provider` and `target`, whose headers (name and
/// readable value) are `headers`, against the configurations `configs`.
pub fn plan_proxy(
    method: HttpMethod,
    provider: Option<&str>,
    target: Option<&str>,
    headers: &Vec<(String, Option<String>)>,
    configs: &ProviderConfigs,
) -> (res: ProxyPlan)
    requires
        configs.wf(),
    ensures
        res@ == spec_proxy_plan(
            method,
            opt_view(provider),
            opt_view(target),
            spec_header_views(headers@),
            configs@,
        ),
{
    if method == HttpMethod::Options {
        return ProxyPlan::Preflight;
    }
    let (p, t) = match (provider, target) {
        (Some(p), Some(t)) => (p, t),
        _ => return ProxyPlan::Reject(400, owned("Missing x-jan-provider or x-jan-target-url header")),
    };
    if p.is_empty() || t.is_empty() {
        return ProxyPlan::Reject(400, owned("Missing x-jan-provider or x-jan-target-url header"));
    }
    let c = match configs.get(p) {
        Some(c) => c,
        None => return ProxyPlan::Reject(404, unknown_provider_message(p)),
    };
    let b = match &c.base_url {
        Some(b) => b,
        None => return ProxyPlan::Reject(400, no_base_url_message(p)),
    };
    if b.as_str().is_empty() {
        return ProxyPlan::Reject(400, no_base_url_message(p));
    }
    let base = trim_end_slashes(b.as_str());
    if !within_base(t, base.as_str()) {
        return ProxyPlan::Reject(403, owned("Target URL is outside the provider's configured base_url"));
    }
    let fwd = ProxyForward {
        provider: owned(p),
        target: owned(t),
        client_headers: forwardable_headers(headers),
        custom_headers: custom_header_pairs(c),
        attempts: attempts_of(c.bearer_key_chain()),
    };
    ProxyPlan::Forward(fwd)
}

/// The headers of attempt `idx`, in the order they are set.
pub fn attempt_headers(f: &ProxyForward, idx: usize) -> (res: Vec<(String, String)>)
    requires
        idx < f.attempts@.len(),
    ensures
        spec_pairs(res@) == spec_attempt_headers(f@, idx as int),
{
    let mut out: Vec<(String, String)> = Vec::new();
    let mut i: usize = 0;
    while i < f.client_headers.len()
        invariant
            0 <= i <= f.client_headers@.len(),
            spec_pairs(out@) == spec_pairs(f.client_headers@).take(i as int),
        decreases f.client_headers@.len() - i,
    {
        let ghost before = out@;
        let h = &f.client_headers[i];
        let pair = (copy_string(&h.0), copy_string(&h.1));
        out.push(pair);
        proof {
            lemma_pairs_push(before, pair);
            assert(spec_pairs(f.client_headers@)[i as int] == (h.0@, h.1@));
        }
        assert(spec_pairs(out@) =~= spec_pairs(f.client_headers@).take(i + 1));
        i = i + 1;
    }
    assert(spec_pairs(f.client_headers@).take(f.client_headers@.len() as int) =~= spec_pairs(
        f.client_headers@,
    ));
    let ghost after_client = out@;
    if !has_content_type(&f.client_headers) {
        out.push((owned("content-type"), owned("application/json")));
    }
    let ghost after_default = out@;
    assert(spec_pairs(after_default) =~= spec_pairs(f.client_headers@) + (if spec_has_content_type(
        spec_pairs(f.client_headers@),
    ) {
        Seq::<(Seq<char>, Seq<char>)>::empty()
    } else {
        seq![("content-type"@, "application/json"@)]
    }));
    let mut j: usize = 0;
    while j < f.custom_headers.len()
        invariant
            0 <= j <= f.custom_headers@.len(),
            spec_pairs(out@) == spec_pairs(after_default) + spec_pairs(f.custom_headers@).take(j as int),
        decreases f.custom_headers@.len() - j,
    {
        let h = &f.custom_headers[j];
        let ghost before = out@;
        let pair = (copy_string(&h.0), copy_string(&h.1));
        out.push(pair);
        proof {
            lemma_pairs_push(before, pair);
            assert(spec_pairs(f.custom_headers@)[j as int] == (h.0@, h.1@));
        }
        assert(spec_pairs(out@) =~= spec_pairs(after_default) + spec_pairs(f.custom_headers@).take(j + 1));
        j = j + 1;
    }
    assert(spec_pairs(f.custom_headers@).take(f.custom_headers@.len() as int) =~= spec_pairs(
        f.custom_headers@,
    ));
    let ghost after_custom = out@;
    match &f.attempts[idx] {
        Some(k) => {
            let mut v = owned("Bearer ");
            push_str(&mut v, k.as_str());
            out.push((owned("authorization"), v));
            assert(spec_pairs(out@) =~= spec_pairs(after_custom) + seq![("authorization"@, "Bearer "@ + k@)]);
        },
        None => {
            assert(spec_pairs(out@) =~= spec_pairs(after_custom) + Seq::<(Seq<char>, Seq<char>)>::empty());
        },
    }
    out
}

/// The CORS headers of every gateway answer (the whole answer to a
/// preflight).
pub fn proxy_cors_headers() -> (res: Vec<(&'static str, &'static str)>)
    ensures
        spec_static_pairs(res@) == spec_cors_headers(),
{
    let mut out: Vec<(&'static str, &'static str)> = Vec::new();
    out.push(("access-control-allow-origin", "sameorigin"));
    out.push(("access-control-allow-headers", "*"));
    out.push(("access-control-allow-methods", "GET, POST, OPTIONS"));
    assert(spec_static_pairs(out@) =~= spec_cors_headers());
    out
}

/// The headers added to a relayed answer of `status`, after the upstream's
/// `content-type`.
pub fn proxy_response_headers(status: u16) -> (res: Vec<(&'static str, &'static str)>)
    ensures
        spec_static_pairs(res@) == spec_response_headers(status),
{
    let mut out: Vec<(&'static str, &'static str)> = Vec::new();
    if 200 <= status && status < 300 {
        out.push(("cache-control", "no-cache"));
        out.push(("x-accel-buffering", "no"));
    }
    let ghost head = out@;
    let cors = proxy_cors_headers();
    let mut i: usize = 0;
    while i < cors.len()
        invariant
            0 <= i <= cors@.len(),
            spec_static_pairs(out@) == spec_static_pairs(head) + spec_static_pairs(cors@).take(i as int),
        decreases cors@.len() - i,
    {
        let ghost before = out@;
        out.push(cors[i]);
        proof {
            lemma_static_pairs_push(before, cors@[i as int]);
        }
        assert(spec_static_pairs(out@) =~= spec_static_pairs(head) + spec_static_pairs(cors@).take(i + 1));
        i = i + 1;
    }
    assert(spec_static_pairs(cors@).take(cors@.len() as int) =~= spec_static_pairs(cors@));
    assert(spec_static_pairs(out@) =~= spec_response_headers(status));
    out
}

// ---------------------------------------------------------------------------
// Laws
// ---------------------------------------------------------------------------

/// No relayed client header is one of the control, auth or hop-by-hop
/// headers the gateway owns.
pub proof fn lemma_forwardable_never_control(hs: Seq<(Seq<char>, Option<Seq<char>>)>)
    ensures
        forall|i: int|
            0 <= i < spec_forwardable(hs).len() ==> !spec_is_hop_or_control(
                #[trigger] spec_forwardable(hs)[i].0,
            ),
    decreases hs.len(),
{
    if hs.len() > 0 {
        lemma_forwardable_never_control(hs.drop_last());
        let rest = spec_forwardable(hs.drop_last());
        assert forall|i: int| 0 <= i < spec_forwardable(hs).len() implies !spec_is_hop_or_control(
            #[trigger] spec_forwardable(hs)[i].0,
        ) by {
            if i < rest.len() {
                assert(spec_forwardable(hs)[i] == rest[i]);
            }
        }
    }
}

/// The gateway relays every client header it does not own whose value is
/// text, and only the client's own headers.
pub proof fn lemma_forwardable_keeps_client_headers(hs: Seq<(Seq<char>, Option<Seq<char>>)>)
    ensures
        forall|i: int|
            0 <= i < hs.len() && (#[trigger] hs[i]).1 is Some && !spec_is_hop_or_control(hs[i].0)
                ==> spec_forwardable(hs).contains((hs[i].0, hs[i].1->0)),
        forall|j: int|
            0 <= j < spec_forwardable(hs).len() ==> hs.contains(
                ((#[trigger] spec_forwardable(hs)[j]).0, Some(spec_forwardable(hs)[j].1)),
            ),
    decreases hs.len(),
{
    if hs.len() > 0 {
        let dl = hs.drop_last();
        lemma_forwardable_keeps_client_headers(dl);
        let rest = spec_forwardable(dl);
        let all = spec_forwardable(hs);
        let h = hs.last();
        assert forall|i: int|
            0 <= i < hs.len() && (#[trigger] hs[i]).1 is Some && !spec_is_hop_or_control(hs[i].0)
                implies all.contains((hs[i].0, hs[i].1->0)) by {
            if i < hs.len() - 1 {
                assert(dl[i] == hs[i]);
                let w = choose|w: int| 0 <= w < rest.len() && rest[w] == (dl[i].0, dl[i].1->0);
                assert(all[w] == rest[w]);
            } else {
                assert(all[rest.len() as int] == (h.0, h.1->0));
            }
        }
        assert forall|j: int| 0 <= j < all.len() implies hs.contains(
            ((#[trigger] all[j]).0, Some(all[j].1)),
        ) by {
            if j < rest.len() {
                assert(all[j] == rest[j]);
                let w = choose|w: int| 0 <= w < dl.len() && dl[w] == (rest[j].0, Some(rest[j].1));
                assert(hs[w] == dl[w]);
            } else {
                assert(all[j] == (h.0, h.1->0));
                assert(hs[hs.len() - 1] == h);
            }
        }
    }
}

/// A forwarded request goes to a URL that begins with the named provider's
/// configured `base_url` (trailing slashes aside), carries none of the
/// client's control, auth or hop-by-hop headers, and tries the provider's
/// key chain in order (a single keyless attempt when it is empty).
pub proof fn lemma_forward_stays_within_base(
    method: HttpMethod,
    provider: Option<Seq<char>>,
    target: Option<Seq<char>>,
    headers: Seq<(Seq<char>, Option<Seq<char>>)>,
    configs: Map<Seq<char>, ProviderConfigView>,
)
    ensures
        spec_proxy_plan(method, provider, target, headers, configs) matches ProxyPlanView::Forward(f) ==> {
            &&& provider == Some(f.provider)
            &&& target == Some(f.target)
            &&& configs.contains_key(f.provider)
            &&& spec_nonempty(configs[f.provider].base_url)
            &&& spec_within_base(f.target, spec_trim_end_slashes(configs[f.provider].base_url->0))
            &&& forall|i: int| 0 <= i < f.client_headers.len() ==> !spec_is_hop_or_control(#[trigger] f.client_headers[i].0)
            &&& f.attempts == spec_attempts(
                spec_merged_keys(configs[f.provider].api_key, configs[f.provider].api_keys),
            )
            &&& f.custom_headers == configs[f.provider].custom_headers
        },
{
    lemma_forwardable_never_control(headers);
}

/// Every attempt sends, in this order, all of the relayed client headers, a
/// JSON content type only when the client gave none, every one of the
/// provider's custom headers, and last the attempt's key as a bearer token
/// (nothing more when the attempt has no key).
pub proof fn lemma_attempt_carries_every_header(f: ProxyForwardView, idx: int)
    requires
        0 <= idx < f.attempts.len(),
    ensures
        ({
            let h = spec_attempt_headers(f, idx);
            let c = f.client_headers.len() as int;
            let d: int = if spec_has_content_type(f.client_headers) { 0 } else { 1 };
            let m = f.custom_headers.len() as int;
            let a: int = if f.attempts[idx] is Some { 1 } else { 0 };
            &&& h.len() == c + d + m + a
            &&& h.subrange(0, c) == f.client_headers
            &&& (d == 1 ==> h[c] == ("content-type"@, "application/json"@))
            &&& h.subrange(c + d, c + d + m) == f.custom_headers
            &&& forall|j: int| 0 <= j < m ==> h[c + d + j] == #[trigger] f.custom_headers[j]
            &&& (f.attempts[idx] matches Some(k) ==> h.last() == ("authorization"@, "Bearer "@ + k))
        }),
{
    let h = spec_attempt_headers(f, idx);
    let c = f.client_headers.len() as int;
    let d: int = if spec_has_content_type(f.client_headers) { 0 } else { 1 };
    let m = f.custom_headers.len() as int;
    assert(h.subrange(0, c) =~= f.client_headers);
    assert(h.subrange(c + d, c + d + m) =~= f.custom_headers);
    assert forall|j: int| 0 <= j < m implies h[c + d + j] == #[trigger] f.custom_headers[j] by {
        assert(h.subrange(c + d, c + d + m)[j] == h[c + d + j]);
    }
}

/// A target that continues the base URL past its host, port or last path
/// segment (as `https://api.example.com.evil.net` does for
/// `https://api.example.com`) is not within it.
pub proof fn lemma_continued_host_refused(t: Seq<char>, b: Seq<char>)
    requires
        t.len() > b.len(),
        !spec_is_url_boundary(t[b.len() as int]),
    ensures
        !spec_within_base(t, b),
{
}

/// The attempt whose answer the gateway relays, from attempt `i` on, when
/// attempt `j` of `n` would be answered `statuses[j]`: the gateway moves to
/// the next key while [`spec_should_retry`] says so.
pub open spec fn spec_relayed_attempt(statuses: Seq<u16>, n: int, i: int) -> int
    decreases n - i,
{
    if i >= n - 1 || !spec_should_retry(statuses[i], i, n) {
        i
    } else {
        spec_relayed_attempt(statuses, n, i + 1)
    }
}

/// Key rotation over a whole request: the keys are tried in order, each
/// earlier one was answered 401, 403 or 429, and the answer relayed is the
/// first that is none of these, or the last key's answer whatever it is.
pub proof fn lemma_key_rotation(statuses: Seq<u16>, n: int, i: int)
    requires
        0 <= i < n,
        statuses.len() >= n,
    ensures
        i <= spec_relayed_attempt(statuses, n, i) < n,
        forall|j: int|
            i <= j < spec_relayed_attempt(statuses, n, i) ==> spec_status_means_retry(#[trigger] statuses[j]),
        spec_relayed_attempt(statuses, n, i) < n - 1 ==> !spec_status_means_retry(
            statuses[spec_relayed_attempt(statuses, n, i)],
        ),
    decreases n - i,
{
    if i >= n - 1 || !spec_should_retry(statuses[i], i, n) {
    } else {
        lemma_key_rotation(statuses, n, i + 1);
    }
}

/// The last attempt is never followed by another: the gateway relays the
/// upstream's answer to it, whatever its status, so it never runs out of
/// keys without answering.
pub proof fn lemma_last_attempt_answers(status: u16, attempts: int)
    requires
        attempts > 0,
    ensures
        !spec_should_retry(status, attempts - 1, attempts),
{
}

/// Every plan makes at least one attempt.
pub proof fn lemma_attempts_not_empty(keys: Seq<Seq<char>>)
    ensures
        spec_attempts(keys).len() >= 1,
        keys.len() > 0 ==> spec_attempts(keys).len() == keys.len(),
{
}

} // verus!
