//! Remote provider configurations: the registration request, the stored
//! configuration, and the table of configurations by provider name that the
//! desktop app and the web UI share (persisted as `providers.json`).

use vstd::prelude::*;

use crate::keyed::{
    lemma_keyed_empty, lemma_keyed_index, lemma_keyed_push, lemma_keyed_remove, lemma_keyed_update,
    spec_keyed_map, spec_unique_keys,
};
use crate::paths::spec_views;
use crate::text::{lemma_trim_idempotent, opt_view, push_str, spec_is_whitespace, spec_trim, str_eq, trimmed};

verus! {

/// Name of the provider configuration file inside the data folder.
pub const PROVIDERS_FILE: &'static str = "providers.json";

/// Custom header for provider requests.
#[derive(Debug)]
pub struct ProviderCustomHeader {
    pub header: String,
    pub value: String,
}

/// Request to register or update a remote provider configuration.
#[derive(Debug)]
pub struct RegisterProviderRequest {
    pub provider: String,
    pub api_key: Option<String>,
    /// Additional keys (after `api_key`), tried in turn when the upstream
    /// answers 401, 403 or 429.
    pub api_keys: Vec<String>,
    pub base_url: Option<String>,
    pub custom_headers: Vec<ProviderCustomHeader>,
    pub models: Vec<String>,
    /// Upstream wire API (`"openai"` by default, or `"openai-responses"` /
    /// `"google"` / `"anthropic"`).
    pub api_type: Option<String>,
}

/// Per-model capabilities (vision, audio, ...) by model id.
#[derive(Debug)]
pub struct ModelCapabilities {
    ids: Vec<String>,
    caps: Vec<Vec<String>>,
}

/// A stored remote provider configuration.
#[derive(Debug)]
pub struct ProviderConfig {
    pub provider: String,
    pub api_key: Option<String>,
    pub api_keys: Vec<String>,
    pub base_url: Option<String>,
    pub custom_headers: Vec<ProviderCustomHeader>,
    pub models: Vec<String>,
    pub model_capabilities: ModelCapabilities,
    pub api_type: Option<String>,
}

/// The configurations by provider name.
#[derive(Debug)]
pub struct ProviderConfigs {
    configs: Vec<ProviderConfig>,
}

/// The mathematical value of a [`ProviderConfig`].
pub struct ProviderConfigView {
    pub provider: Seq<char>,
    pub api_key: Option<Seq<char>>,
    pub api_keys: Seq<Seq<char>>,
    pub base_url: Option<Seq<char>>,
    pub custom_headers: Seq<(Seq<char>, Seq<char>)>,
    pub models: Seq<Seq<char>>,
    pub model_capabilities: Map<Seq<char>, Seq<Seq<char>>>,
    pub api_type: Option<Seq<char>>,
}

// ---------------------------------------------------------------------------
// Views
// ---------------------------------------------------------------------------

/// Header and value of each custom header.
pub open spec fn spec_headers(h: Seq<ProviderCustomHeader>) -> Seq<(Seq<char>, Seq<char>)> {
    h.map_values(|x: ProviderCustomHeader| (x.header@, x.value@))
}

/// The views of a sequence of string vectors.
pub open spec fn spec_nested_views(s: Seq<Vec<String>>) -> Seq<Seq<Seq<char>>> {
    s.map_values(|x: Vec<String>| spec_views(x@))
}

impl ModelCapabilities {
    /// Ids distinct, one capability list per id.
    pub closed spec fn wf(&self) -> bool {
        &&& self.ids@.len() == self.caps@.len()
        &&& spec_unique_keys(spec_views(self.ids@))
    }
}

impl View for ModelCapabilities {
    type V = Map<Seq<char>, Seq<Seq<char>>>;

    closed spec fn view(&self) -> Map<Seq<char>, Seq<Seq<char>>> {
        spec_keyed_map(spec_views(self.ids@), spec_nested_views(self.caps@))
    }
}

impl View for ProviderConfig {
    type V = ProviderConfigView;

    open spec fn view(&self) -> ProviderConfigView {
        ProviderConfigView {
            provider: self.provider@,
            api_key: opt_view(self.api_key),
            api_keys: spec_views(self.api_keys@),
            base_url: opt_view(self.base_url),
            custom_headers: spec_headers(self.custom_headers@),
            models: spec_views(self.models@),
            model_capabilities: self.model_capabilities@,
            api_type: opt_view(self.api_type),
        }
    }
}

/// Provider names of a sequence of configurations.
pub open spec fn spec_provider_names(s: Seq<ProviderConfig>) -> Seq<Seq<char>> {
    s.map_values(|c: ProviderConfig| c.provider@)
}

/// Views of a sequence of configurations.
pub open spec fn spec_config_views(s: Seq<ProviderConfig>) -> Seq<ProviderConfigView> {
    s.map_values(|c: ProviderConfig| c@)
}

impl ProviderConfigs {
    /// Provider names distinct, and every capability table well formed.
    pub closed spec fn wf(&self) -> bool {
        &&& spec_unique_keys(spec_provider_names(self.configs@))
        &&& forall|i: int| 0 <= i < self.configs@.len() ==> (#[trigger] self.configs@[i]).model_capabilities.wf()
    }
}

impl View for ProviderConfigs {
    type V = Map<Seq<char>, ProviderConfigView>;

    closed spec fn view(&self) -> Map<Seq<char>, ProviderConfigView> {
        spec_keyed_map(spec_provider_names(self.configs@), spec_config_views(self.configs@))
    }
}

// ---------------------------------------------------------------------------
// Specifications
// ---------------------------------------------------------------------------

/// Adds the trimmed `k` to a key chain unless it is blank or already there.
pub open spec fn spec_add_key(acc: Seq<Seq<char>>, k: Seq<char>) -> Seq<Seq<char>> {
    let t = spec_trim(k);
    if t.len() == 0 || acc.contains(t) {
        acc
    } else {
        acc.push(t)
    }
}

/// Adds each of `keys` in turn.
pub open spec fn spec_add_keys(acc: Seq<Seq<char>>, keys: Seq<Seq<char>>) -> Seq<Seq<char>>
    decreases keys.len(),
{
    if keys.len() == 0 {
        acc
    } else {
        spec_add_keys(spec_add_key(acc, keys[0]), keys.drop_first())
    }
}

/// The keys of a registration in the order they are tried: `api_key`
/// first, then `api_keys`.
pub open spec fn spec_candidate_keys(api_key: Option<Seq<char>>, api_keys: Seq<Seq<char>>) -> Seq<Seq<char>> {
    match api_key {
        Some(k) => seq![k] + api_keys,
        None => api_keys,
    }
}

/// The key chain of a registration: the candidate keys trimmed, blank ones
/// dropped, each kept at its first occurrence.
pub open spec fn spec_merged_keys(api_key: Option<Seq<char>>, api_keys: Seq<Seq<char>>) -> Seq<Seq<char>> {
    spec_add_keys(seq![], spec_candidate_keys(api_key, api_keys))
}

/// The configuration a registration stores, keeping the capabilities `caps`.
pub open spec fn spec_registered(req: RegisterProviderRequest, caps: Map<Seq<char>, Seq<Seq<char>>>) -> ProviderConfigView {
    let chain = spec_merged_keys(opt_view(req.api_key), spec_views(req.api_keys@));
    ProviderConfigView {
        provider: req.provider@,
        api_key: if chain.len() > 0 {
            Some(chain[0])
        } else {
            None
        },
        api_keys: chain,
        base_url: opt_view(req.base_url),
        custom_headers: spec_headers(req.custom_headers@),
        models: spec_views(req.models@),
        model_capabilities: caps,
        api_type: opt_view(req.api_type),
    }
}

/// `c` with its keys removed.
pub open spec fn spec_redacted(c: ProviderConfigView) -> ProviderConfigView {
    ProviderConfigView { api_key: None, api_keys: seq![], ..c }
}

/// `c` with the capabilities of `model_id` set to `caps`, or removed when
/// `caps` is empty.
pub open spec fn spec_with_capabilities(c: ProviderConfigView, model_id: Seq<char>, caps: Seq<Seq<char>>) -> ProviderConfigView {
    ProviderConfigView {
        model_capabilities: if caps.len() == 0 {
            c.model_capabilities.remove(model_id)
        } else {
            c.model_capabilities.insert(model_id, caps)
        },
        ..c
    }
}

/// The message refusing a capability update for an unknown provider.
pub open spec fn spec_not_configured_message(provider: Seq<char>) -> Seq<char> {
    "Provider '"@ + provider + "' is not configured"@
}

/// The table that loading a list of configurations gives: each one under
/// its provider name, later ones replacing earlier ones.
pub open spec fn spec_table_of(list: Seq<ProviderConfig>) -> Map<Seq<char>, ProviderConfigView>
    decreases list.len(),
{
    if list.len() == 0 {
        Map::empty()
    } else {
        spec_table_of(list.drop_last()).insert(list.last().provider@, list.last()@)
    }
}

// ---------------------------------------------------------------------------
// String vectors
// ---------------------------------------------------------------------------

/// Position of `k` in `keys`.
pub fn index_of_key(keys: &Vec<String>, k: &str) -> (res: Option<usize>)
    ensures
        res is None <==> !spec_views(keys@).contains(k@),
        res matches Some(i) ==> i < keys@.len() && keys@[i as int]@ == k@,
{
    let mut i: usize = 0;
    while i < keys.len()
        invariant
            0 <= i <= keys@.len(),
            forall|j: int| 0 <= j < i ==> keys@[j]@ != k@,
        decreases keys@.len() - i,
    {
        if str_eq(keys[i].as_str(), k) {
            assert(spec_views(keys@)[i as int] == k@);
            return Some(i);
        }
        i = i + 1;
    }
    assert(!spec_views(keys@).contains(k@)) by {
        if spec_views(keys@).contains(k@) {
            let j = choose|j: int| 0 <= j < spec_views(keys@).len() && spec_views(keys@)[j] == k@;
            assert(keys@[j]@ == k@);
        }
    }
    None
}

/// A copy of a string.
pub fn copy_string(s: &String) -> (res: String)
    ensures
        res@ == s@,
{
    s.clone()
}

/// A copy of a vector of strings.
pub fn copy_strings(v: &Vec<String>) -> (res: Vec<String>)
    ensures
        spec_views(res@) == spec_views(v@),
{
    let mut out: Vec<String> = Vec::new();
    let mut i: usize = 0;
    while i < v.len()
        invariant
            0 <= i <= v@.len(),
            out@.len() == i,
            forall|j: int| 0 <= j < i ==> (#[trigger] out@[j])@ == v@[j]@,
        decreases v@.len() - i,
    {
        let c = copy_string(&v[i]);
        out.push(c);
        i = i + 1;
    }
    assert(spec_views(out@) =~= spec_views(v@));
    out
}

/// A copy of an optional string.
pub fn copy_opt_string(o: &Option<String>) -> (res: Option<String>)
    ensures
        opt_view(res) == opt_view(*o),
{
    match o {
        Some(s) => Some(copy_string(s)),
        None => None,
    }
}

/// A copy of a list of custom headers.
pub fn copy_headers(v: &Vec<ProviderCustomHeader>) -> (res: Vec<ProviderCustomHeader>)
    ensures
        spec_headers(res@) == spec_headers(v@),
{
    let mut out: Vec<ProviderCustomHeader> = Vec::new();
    let mut i: usize = 0;
    while i < v.len()
        invariant
            0 <= i <= v@.len(),
            out@.len() == i,
            forall|j: int|
                0 <= j < i ==> (#[trigger] out@[j]).header@ == v@[j].header@ && out@[j].value@
                    == v@[j].value@,
        decreases v@.len() - i,
    {
        let h = ProviderCustomHeader { header: copy_string(&v[i].header), value: copy_string(&v[i].value) };
        out.push(h);
        i = i + 1;
    }
    assert(spec_headers(out@) =~= spec_headers(v@));
    out
}

// ---------------------------------------------------------------------------
// Key chains
// ---------------------------------------------------------------------------

/// Adds the trimmed `k` to `out` unless it is blank or already there.
fn push_unique(out: &mut Vec<String>, k: &str)
    ensures
        spec_views(final(out)@) == spec_add_key(spec_views(old(out)@), k@),
{
    let t = trimmed(k);
    if t.as_str().is_empty() {
        return;
    }
    match index_of_key(out, t.as_str()) {
        Some(_) => {},
        None => {
            let ghost before = out@;
            out.push(t);
            assert(spec_views(out@) =~= spec_views(before).push(spec_trim(k@)));
        },
    }
}

/// The key chain of a registration: `api_key` then `api_keys`, trimmed,
/// blank ones dropped, each kept at its first occurrence.
pub fn merge_register_api_keys(api_key: Option<String>, api_keys: Vec<String>) -> (res: Vec<String>)
    ensures
        spec_views(res@) == spec_merged_keys(opt_view(api_key), spec_views(api_keys@)),
{
    let ghost all = spec_candidate_keys(opt_view(api_key), spec_views(api_keys@));
    let mut out: Vec<String> = Vec::new();
    assert(spec_views(out@) =~= Seq::<Seq<char>>::empty());
    match &api_key {
        Some(k) => {
            push_unique(&mut out, k.as_str());
            assert(all.drop_first() =~= spec_views(api_keys@));
            assert(all[0] == k@);
            assert(spec_add_keys(Seq::empty(), all) == spec_add_keys(
                spec_add_key(Seq::empty(), all[0]),
                all.drop_first(),
            ));
        },
        None => {},
    }
    assert(spec_views(api_keys@).subrange(0, api_keys@.len() as int) =~= spec_views(api_keys@));
    let mut i: usize = 0;
    while i < api_keys.len()
        invariant
            0 <= i <= api_keys@.len(),
            spec_add_keys(spec_views(out@), spec_views(api_keys@).subrange(i as int, api_keys@.len() as int))
                == spec_add_keys(Seq::empty(), all),
        decreases api_keys@.len() - i,
    {
        let ghost rest = spec_views(api_keys@).subrange(i as int, api_keys@.len() as int);
        assert(rest.drop_first() =~= spec_views(api_keys@).subrange(i + 1, api_keys@.len() as int));
        push_unique(&mut out, api_keys[i].as_str());
        i = i + 1;
    }
    assert(spec_views(api_keys@).subrange(i as int, api_keys@.len() as int) =~= Seq::<Seq<char>>::empty());
    out
}

/// Adding keys keeps the chain duplicate-free and every key trimmed and
/// non-blank, keeps what was there in front, and every non-blank added key
/// ends up in it.
proof fn lemma_add_keys(acc: Seq<Seq<char>>, keys: Seq<Seq<char>>)
    requires
        spec_unique_keys(acc),
        forall|i: int| 0 <= i < acc.len() ==> acc[i].len() > 0 && spec_trim(#[trigger] acc[i]) == acc[i],
    ensures
        spec_unique_keys(spec_add_keys(acc, keys)),
        forall|i: int|
            0 <= i < spec_add_keys(acc, keys).len() ==> spec_add_keys(acc, keys)[i].len() > 0 && spec_trim(
                #[trigger] spec_add_keys(acc, keys)[i],
            ) == spec_add_keys(acc, keys)[i],
        spec_add_keys(acc, keys).len() >= acc.len(),
        spec_add_keys(acc, keys).subrange(0, acc.len() as int) == acc,
        forall|i: int|
            0 <= i < keys.len() && spec_trim(#[trigger] keys[i]).len() > 0 ==> spec_add_keys(
                acc,
                keys,
            ).contains(spec_trim(keys[i])),
    decreases keys.len(),
{
    if keys.len() == 0 {
        assert(acc.subrange(0, acc.len() as int) =~= acc);
    } else {
        let next = spec_add_key(acc, keys[0]);
        let t = spec_trim(keys[0]);
        lemma_trim_idempotent(keys[0]);
        if !(t.len() == 0 || acc.contains(t)) {
            assert(spec_unique_keys(next)) by {
                assert forall|i: int, j: int| 0 <= i < next.len() && 0 <= j < next.len() && i != j implies next[i] != next[j] by {
                    if i == acc.len() {
                        assert(next[j] == acc[j]);
                        assert(acc.contains(acc[j]));
                    }
                    if j == acc.len() {
                        assert(next[i] == acc[i]);
                        assert(acc.contains(acc[i]));
                    }
                }
            }
        }
        lemma_add_keys(next, keys.drop_first());
        let res = spec_add_keys(acc, keys);
        assert(res == spec_add_keys(next, keys.drop_first()));
        assert(res.subrange(0, next.len() as int) == next);
        assert(res.subrange(0, acc.len() as int) =~= next.subrange(0, acc.len() as int));
        assert(next.subrange(0, acc.len() as int) =~= acc);
        assert forall|i: int| 0 <= i < keys.len() && spec_trim(#[trigger] keys[i]).len() > 0 implies res.contains(
            spec_trim(keys[i]),
        ) by {
            if i == 0 {
                if acc.contains(t) {
                    let j = choose|j: int| 0 <= j < acc.len() && acc[j] == t;
                    assert(res.subrange(0, acc.len() as int)[j] == acc[j]);
                } else {
                    assert(next[acc.len() as int] == t);
                    assert(res.subrange(0, next.len() as int)[acc.len() as int] == next[acc.len() as int]);
                }
            } else {
                assert(keys.drop_first()[i - 1] == keys[i]);
            }
        }
    }
}

/// A registration's key chain holds no key twice, only trimmed non-blank
/// keys, and every non-blank candidate key (trimmed).
pub proof fn lemma_merged_keys_distinct_and_complete(api_key: Option<Seq<char>>, api_keys: Seq<Seq<char>>)
    ensures
        spec_unique_keys(spec_merged_keys(api_key, api_keys)),
        forall|i: int|
            0 <= i < spec_merged_keys(api_key, api_keys).len() ==> spec_merged_keys(api_key, api_keys)[i].len()
                > 0 && !spec_is_whitespace(#[trigger] spec_merged_keys(api_key, api_keys)[i][0])
                && spec_trim(spec_merged_keys(api_key, api_keys)[i]) == spec_merged_keys(api_key, api_keys)[i],
        forall|i: int|
            0 <= i < spec_candidate_keys(api_key, api_keys).len() && spec_trim(
                #[trigger] spec_candidate_keys(api_key, api_keys)[i],
            ).len() > 0 ==> spec_merged_keys(api_key, api_keys).contains(
                spec_trim(spec_candidate_keys(api_key, api_keys)[i]),
            ),
{
    let all = spec_candidate_keys(api_key, api_keys);
    lemma_add_keys(Seq::empty(), all);
    let m = spec_merged_keys(api_key, api_keys);
    assert forall|i: int| 0 <= i < m.len() implies !spec_is_whitespace(#[trigger] m[i][0]) by {
        lemma_trim_idempotent(m[i]);
    }
}

// ---------------------------------------------------------------------------
// Capability tables
// ---------------------------------------------------------------------------

impl ModelCapabilities {
    /// An empty table.
    pub fn new() -> (res: Self)
        ensures
            res.wf(),
            res@ == Map::<Seq<char>, Seq<Seq<char>>>::empty(),
    {
        let res = ModelCapabilities { ids: Vec::new(), caps: Vec::new() };
        proof {
            lemma_keyed_empty(spec_views(res.ids@), spec_nested_views(res.caps@));
        }
        res
    }

    /// Sets the capabilities of `model_id`.
    pub fn insert(&mut self, model_id: String, capabilities: Vec<String>)
        requires
            old(self).wf(),
        ensures
            final(self).wf(),
            final(self)@ == old(self)@.insert(model_id@, spec_views(capabilities@)),
    {
        let ghost keys = spec_views(self.ids@);
        let ghost vals = spec_nested_views(self.caps@);
        match index_of_key(&self.ids, model_id.as_str()) {
            Some(i) => {
                self.caps.set(i, capabilities);
                proof {
                    assert(spec_nested_views(self.caps@) =~= vals.update(i as int, spec_views(capabilities@)));
                    lemma_keyed_update(keys, vals, i as int, spec_views(capabilities@));
                }
            },
            None => {
                let ghost k = model_id@;
                self.ids.push(model_id);
                self.caps.push(capabilities);
                proof {
                    assert(spec_views(self.ids@) =~= keys.push(k));
                    assert(spec_nested_views(self.caps@) =~= vals.push(spec_views(capabilities@)));
                    lemma_keyed_push(keys, vals, k, spec_views(capabilities@));
                }
            },
        }
    }

    /// Drops the capabilities of `model_id`.
    pub fn remove(&mut self, model_id: &str)
        requires
            old(self).wf(),
        ensures
            final(self).wf(),
            final(self)@ == old(self)@.remove(model_id@),
    {
        let ghost keys = spec_views(self.ids@);
        let ghost vals = spec_nested_views(self.caps@);
        match index_of_key(&self.ids, model_id) {
            Some(i) => {
                self.ids.remove(i);
                self.caps.remove(i);
                proof {
                    assert(spec_views(self.ids@) =~= keys.remove(i as int));
                    assert(spec_nested_views(self.caps@) =~= vals.remove(i as int));
                    lemma_keyed_remove(keys, vals, i as int);
                }
            },
            None => {
                assert(self@ =~= self@.remove(model_id@));
            },
        }
    }

    /// The model ids and, at the same positions, their capability lists.
    pub fn entries(&self) -> (res: (&Vec<String>, &Vec<Vec<String>>))
        requires
            self.wf(),
        ensures
            res.0@.len() == res.1@.len(),
            spec_unique_keys(spec_views(res.0@)),
            spec_keyed_map(spec_views(res.0@), spec_nested_views(res.1@)) == self@,
    {
        (&self.ids, &self.caps)
    }

    /// A copy of the table.
    pub fn copy(&self) -> (res: Self)
        requires
            self.wf(),
        ensures
            res.wf(),
            res@ == self@,
    {
        let ids = copy_strings(&self.ids);
        let mut caps: Vec<Vec<String>> = Vec::new();
        let mut i: usize = 0;
        while i < self.caps.len()
            invariant
                0 <= i <= self.caps@.len(),
                caps@.len() == i,
                forall|j: int| 0 <= j < i ==> spec_views((#[trigger] caps@[j])@) == spec_views(self.caps@[j]@),
            decreases self.caps@.len() - i,
        {
            caps.push(copy_strings(&self.caps[i]));
            i = i + 1;
        }
        assert(spec_nested_views(caps@) =~= spec_nested_views(self.caps@));
        assert(ids@.len() == spec_views(ids@).len());
        assert(self.ids@.len() == spec_views(self.ids@).len());
        ModelCapabilities { ids, caps }
    }
}

// ---------------------------------------------------------------------------
// Configurations
// ---------------------------------------------------------------------------

impl ProviderConfig {
    /// A copy of the configuration.
    pub fn copy(&self) -> (res: Self)
        requires
            self.model_capabilities.wf(),
        ensures
            res@ == self@,
            res.model_capabilities.wf(),
    {
        ProviderConfig {
            provider: copy_string(&self.provider),
            api_key: copy_opt_string(&self.api_key),
            api_keys: copy_strings(&self.api_keys),
            base_url: copy_opt_string(&self.base_url),
            custom_headers: copy_headers(&self.custom_headers),
            models: copy_strings(&self.models),
            model_capabilities: self.model_capabilities.copy(),
            api_type: copy_opt_string(&self.api_type),
        }
    }

    /// The keys tried against the upstream, in order: `api_key`, then
    /// `api_keys`, trimmed, blank and repeated ones dropped.
    pub fn bearer_key_chain(&self) -> (res: Vec<String>)
        ensures
            spec_views(res@) == spec_merged_keys(opt_view(self.api_key), spec_views(self.api_keys@)),
    {
        merge_register_api_keys(copy_opt_string(&self.api_key), copy_strings(&self.api_keys))
    }
}

/// The configuration with its keys removed, for replies that leave the
/// server.
pub fn redact_provider_config(c: ProviderConfig) -> (res: ProviderConfig)
    ensures
        res@ == spec_redacted(c@),
        res.model_capabilities == c.model_capabilities,
{
    let mut c = c;
    c.api_key = None;
    c.api_keys = Vec::new();
    assert(spec_views(c.api_keys@) =~= Seq::<Seq<char>>::empty());
    c
}

impl ProviderConfigs {
    /// An empty table.
    pub fn new() -> (res: Self)
        ensures
            res.wf(),
            res@ == Map::<Seq<char>, ProviderConfigView>::empty(),
    {
        let res = ProviderConfigs { configs: Vec::new() };
        proof {
            lemma_keyed_empty(spec_provider_names(res.configs@), spec_config_views(res.configs@));
        }
        res
    }

    /// Position of `provider` in the table.
    fn index_of(&self, provider: &str) -> (res: Option<usize>)
        requires
            self.wf(),
        ensures
            res is None <==> !self@.contains_key(provider@),
            res matches Some(i) ==> i < self.configs@.len() && self.configs@[i as int].provider@ == provider@
                && self@[provider@] == self.configs@[i as int]@,
    {
        let ghost names = spec_provider_names(self.configs@);
        let mut i: usize = 0;
        while i < self.configs.len()
            invariant
                self.wf(),
                0 <= i <= self.configs@.len(),
                names == spec_provider_names(self.configs@),
                forall|j: int| 0 <= j < i ==> self.configs@[j].provider@ != provider@,
            decreases self.configs@.len() - i,
        {
            if str_eq(self.configs[i].provider.as_str(), provider) {
                proof {
                    assert(names[i as int] == provider@);
                    lemma_keyed_index(names, spec_config_views(self.configs@), i as int);
                }
                return Some(i);
            }
            i = i + 1;
        }
        assert(!names.contains(provider@)) by {
            if names.contains(provider@) {
                let j = choose|j: int| 0 <= j < names.len() && names[j] == provider@;
                assert(self.configs@[j].provider@ == provider@);
            }
        }
        None
    }

    /// The configuration of `provider`, if any.
    pub fn get(&self, provider: &str) -> (res: Option<&ProviderConfig>)
        requires
            self.wf(),
        ensures
            res is Some <==> self@.contains_key(provider@),
            res matches Some(c) ==> c@ == self@[provider@] && c.model_capabilities.wf(),
    {
        match self.index_of(provider) {
            Some(i) => Some(&self.configs[i]),
            None => None,
        }
    }

    /// Stores `config` under its provider name, replacing any previous one.
    pub fn insert(&mut self, config: ProviderConfig)
        requires
            old(self).wf(),
            config.model_capabilities.wf(),
        ensures
            final(self).wf(),
            final(self)@ == old(self)@.insert(config.provider@, config@),
    {
        let ghost names = spec_provider_names(self.configs@);
        let ghost views = spec_config_views(self.configs@);
        let ghost k = config.provider@;
        let ghost v = config@;
        match self.index_of(config.provider.as_str()) {
            Some(i) => {
                self.configs.set(i, config);
                proof {
                    assert(spec_provider_names(self.configs@) =~= names);
                    assert(spec_config_views(self.configs@) =~= views.update(i as int, v));
                    lemma_keyed_update(names, views, i as int, v);
                }
            },
            None => {
                self.configs.push(config);
                proof {
                    assert(spec_provider_names(self.configs@) =~= names.push(k));
                    assert(spec_config_views(self.configs@) =~= views.push(v));
                    lemma_keyed_push(names, views, k, v);
                }
            },
        }
    }

    /// Drops the configuration of `provider`; whether there was one.
    pub fn remove(&mut self, provider: &str) -> (removed: bool)
        requires
            old(self).wf(),
        ensures
            final(self).wf(),
            removed == old(self)@.contains_key(provider@),
            final(self)@ == old(self)@.remove(provider@),
    {
        let ghost names = spec_provider_names(self.configs@);
        let ghost views = spec_config_views(self.configs@);
        match self.index_of(provider) {
            Some(i) => {
                self.configs.remove(i);
                proof {
                    assert(spec_provider_names(self.configs@) =~= names.remove(i as int));
                    assert(spec_config_views(self.configs@) =~= views.remove(i as int));
                    lemma_keyed_remove(names, views, i as int);
                }
                true
            },
            None => {
                assert(self@ =~= self@.remove(provider@));
                false
            },
        }
    }

    /// The configurations, one per provider, in the order they are kept.
    pub closed spec fn list(&self) -> Seq<ProviderConfig> {
        self.configs@
    }

    /// The configurations, one per provider (for saving).
    pub fn configs(&self) -> (res: &Vec<ProviderConfig>)
        requires
            self.wf(),
        ensures
            res@ == self.list(),
            spec_unique_keys(spec_provider_names(res@)),
            spec_keyed_map(spec_provider_names(res@), spec_config_views(res@)) == self@,
    {
        &self.configs
    }

    /// The configuration of `provider` with its keys removed, if any.
    pub fn redacted_get(&self, provider: &str) -> (res: Option<ProviderConfig>)
        requires
            self.wf(),
        ensures
            res is Some <==> self@.contains_key(provider@),
            res matches Some(c) ==> c@ == spec_redacted(self@[provider@]) && c.api_key is None
                && c.api_keys@.len() == 0,
    {
        match self.get(provider) {
            Some(c) => {
                let r = redact_provider_config(c.copy());
                assert(spec_views(r.api_keys@).len() == 0);
                Some(r)
            },
            None => None,
        }
    }

    /// Every configuration with its keys removed, one per provider.
    pub fn redacted_list(&self) -> (res: Vec<ProviderConfig>)
        requires
            self.wf(),
        ensures
            spec_unique_keys(spec_provider_names(res@)),
            spec_keyed_map(spec_provider_names(res@), spec_config_views(res@)) == self@.map_values(
                |c: ProviderConfigView| spec_redacted(c),
            ),
            forall|i: int| 0 <= i < res@.len() ==> (#[trigger] res@[i]).api_key is None && res@[i].api_keys@.len() == 0,
    {
        let ghost names = spec_provider_names(self.configs@);
        let mut out: Vec<ProviderConfig> = Vec::new();
        let mut i: usize = 0;
        while i < self.configs.len()
            invariant
                self.wf(),
                names == spec_provider_names(self.configs@),
                0 <= i <= self.configs@.len(),
                out@.len() == i,
                forall|j: int|
                    0 <= j < i ==> (#[trigger] out@[j])@ == spec_redacted(self.configs@[j]@),
            decreases self.configs@.len() - i,
        {
            let c = self.configs[i].copy();
            out.push(redact_provider_config(c));
            i = i + 1;
        }
        assert(spec_provider_names(out@) =~= names);
        assert forall|i: int| 0 <= i < out@.len() implies (#[trigger] out@[i]).api_key is None && out@[i].api_keys@.len() == 0 by {
            assert(out@[i]@ == spec_redacted(self.configs@[i]@));
            assert(spec_views(out@[i].api_keys@).len() == 0);
        }
        let ghost views = spec_config_views(self.configs@);
        assert(spec_config_views(out@) =~= views.map_values(|c: ProviderConfigView| spec_redacted(c)));
        proof {
            let m1 = spec_keyed_map(names, spec_config_views(out@));
            let m2 = self@.map_values(|c: ProviderConfigView| spec_redacted(c));
            assert forall|x: Seq<char>| #[trigger] m1.contains_key(x) implies m1[x] == m2[x] by {
                let j = choose|j: int| 0 <= j < names.len() && names[j] == x;
                lemma_keyed_index(names, spec_config_views(out@), j);
                lemma_keyed_index(names, views, j);
            }
            assert(m1 =~= m2);
        }
        out
    }
}

/// The table of a list of configurations, later entries replacing earlier
/// ones with the same provider name.
pub fn configs_from_list(list: Vec<ProviderConfig>) -> (res: ProviderConfigs)
    requires
        forall|i: int| 0 <= i < list@.len() ==> (#[trigger] list@[i]).model_capabilities.wf(),
    ensures
        res.wf(),
        res@ == spec_table_of(list@),
{
    let ghost all = list@;
    let n = list.len();
    let mut rest: Vec<ProviderConfig> = Vec::new();
    let mut input = list;
    while input.len() > 0
        invariant
            rest@ + input@.reverse() == all.reverse(),
            forall|i: int| 0 <= i < input@.len() ==> (#[trigger] input@[i]).model_capabilities.wf(),
            forall|i: int| 0 <= i < rest@.len() ==> (#[trigger] rest@[i]).model_capabilities.wf(),
        decreases input@.len(),
    {
        let ghost before = input@;
        let x = input.pop().unwrap();
        assert(before.reverse() =~= seq![x] + input@.reverse());
        rest.push(x);
        assert(rest@ + input@.reverse() =~= all.reverse());
    }
    assert(rest@ =~= all.reverse());
    let mut table = ProviderConfigs::new();
    let mut k: usize = 0;
    assert(all.subrange(0, 0) =~= Seq::<ProviderConfig>::empty());
    while rest.len() > 0
        invariant
            table.wf(),
            k + rest@.len() == all.len(),
            all.len() == n,
            rest@ == all.reverse().subrange(0, rest@.len() as int),
            table@ == spec_table_of(all.subrange(0, k as int)),
            forall|i: int| 0 <= i < rest@.len() ==> (#[trigger] rest@[i]).model_capabilities.wf(),
        decreases rest@.len(),
    {
        let ghost before = rest@;
        let c = rest.pop().unwrap();
        assert(c == all[k as int]);
        assert(rest@ =~= all.reverse().subrange(0, rest@.len() as int));
        assert(all.subrange(0, k + 1).drop_last() =~= all.subrange(0, k as int));
        table.insert(c);
        k = k + 1;
    }
    assert(all.subrange(0, all.len() as int) =~= all);
    table
}

// ---------------------------------------------------------------------------
// Operations
// ---------------------------------------------------------------------------

/// Registers (or re-registers) a provider in `configs`, keeping the
/// per-model capabilities already stored for it. Returns the key chain,
/// which the caller persists when it is not empty.
pub fn upsert_provider_config(configs: &mut ProviderConfigs, request: RegisterProviderRequest) -> (key_chain: Vec<String>)
    requires
        old(configs).wf(),
    ensures
        final(configs).wf(),
        final(configs)@ == old(configs)@.insert(
            request.provider@,
            spec_registered(
                request,
                if old(configs)@.contains_key(request.provider@) {
                    old(configs)@[request.provider@].model_capabilities
                } else {
                    Map::empty()
                },
            ),
        ),
        spec_views(key_chain@) == spec_merged_keys(opt_view(request.api_key), spec_views(request.api_keys@)),
{
    let ghost req = request;
    let RegisterProviderRequest { provider, api_key, api_keys, base_url, custom_headers, models, api_type } =
        request;
    let key_chain = merge_register_api_keys(api_key, api_keys);
    let first = if key_chain.len() > 0 {
        Some(copy_string(&key_chain[0]))
    } else {
        None
    };
    let caps = match configs.get(provider.as_str()) {
        Some(existing) => existing.model_capabilities.copy(),
        None => ModelCapabilities::new(),
    };
    let config = ProviderConfig {
        provider,
        api_key: first,
        api_keys: copy_strings(&key_chain),
        base_url,
        custom_headers,
        models,
        model_capabilities: caps,
        api_type,
    };
    assert(config@ == spec_registered(
        req,
        if old(configs)@.contains_key(req.provider@) {
            old(configs)@[req.provider@].model_capabilities
        } else {
            Map::empty()
        },
    ));
    configs.insert(config);
    key_chain
}

/// Unregisters `provider`. `disk` is the table read from `providers.json`,
/// which is authoritative: when it holds the provider, the cache becomes
/// `disk` without it; otherwise the provider is only dropped from the cache.
/// Returns whether the cache must then be saved.
pub fn remove_provider_config(disk: ProviderConfigs, cache: &mut ProviderConfigs, provider: &str) -> (save: bool)
    requires
        disk.wf(),
        old(cache).wf(),
    ensures
        final(cache).wf(),
        disk@.contains_key(provider@) ==> save && final(cache)@ == disk@.remove(provider@),
        !disk@.contains_key(provider@) ==> save == old(cache)@.contains_key(provider@) && final(cache)@
            == old(cache)@.remove(provider@),
{
    let mut map = disk;
    if map.remove(provider) {
        *cache = map;
        true
    } else {
        cache.remove(provider)
    }
}

/// Sets (or, with an empty list, clears) the capabilities of `model_id` for
/// `provider`, leaving everything else of its configuration as it was; an
/// error when the provider is not configured.
pub fn upsert_provider_model_capabilities(
    configs: &mut ProviderConfigs,
    provider: &str,
    model_id: &str,
    capabilities: Vec<String>,
) -> (res: Result<(), String>)
    requires
        old(configs).wf(),
    ensures
        final(configs).wf(),
        !old(configs)@.contains_key(provider@) ==> (res matches Err(m) && m@ == spec_not_configured_message(provider@))
            && final(configs)@ == old(configs)@,
        old(configs)@.contains_key(provider@) ==> res is Ok && final(configs)@ == old(configs)@.insert(
            provider@,
            spec_with_capabilities(old(configs)@[provider@], model_id@, spec_views(capabilities@)),
        ),
{
    let ghost names = spec_provider_names(configs.configs@);
    let ghost views = spec_config_views(configs.configs@);
    match configs.index_of(provider) {
        None => {
            let mut m = String::new();
            push_str(&mut m, "Provider '");
            push_str(&mut m, provider);
            push_str(&mut m, "' is not configured");
            Err(m)
        },
        Some(i) => {
            let mut c = configs.configs.remove(i);
            assert(c.model_capabilities.wf());
            if capabilities.len() == 0 {
                c.model_capabilities.remove(model_id);
            } else {
                c.model_capabilities.insert(crate::text::owned(model_id), capabilities);
            }
            let ghost nv = c@;
            configs.configs.insert(i, c);
            proof {
                assert(spec_provider_names(configs.configs@) =~= names);
                assert(spec_config_views(configs.configs@) =~= views.update(i as int, nv));
                lemma_keyed_update(names, views, i as int, nv);
                assert forall|j: int| 0 <= j < configs.configs@.len() implies (#[trigger] configs.configs@[j]).model_capabilities.wf() by {
                    if j != i {
                        assert(configs.configs@[j] == old(configs).configs@[j]);
                    }
                }
            }
            Ok(())
        },
    }
}

// ---------------------------------------------------------------------------
// Laws of the table
// ---------------------------------------------------------------------------

/// Loading a list of configurations keeps, for each provider name, the last
/// configuration in the list with that name.
pub proof fn lemma_table_of_last_wins(list: Seq<ProviderConfig>, k: Seq<char>, i: int)
    requires
        0 <= i < list.len(),
        list[i].provider@ == k,
        forall|j: int| i < j < list.len() ==> (#[trigger] list[j]).provider@ != k,
    ensures
        spec_table_of(list).contains_key(k),
        spec_table_of(list)[k] == list[i]@,
    decreases list.len(),
{
    if i < list.len() - 1 {
        assert forall|j: int| i < j < list.drop_last().len() implies (#[trigger] list.drop_last()[j]).provider@ != k by {
            assert(list.drop_last()[j] == list[j]);
        }
        lemma_table_of_last_wins(list.drop_last(), k, i);
        assert(list.last() == list[list.len() - 1]);
    }
}

/// Loading a list of configurations names exactly the providers in it.
pub proof fn lemma_table_of_names(list: Seq<ProviderConfig>, k: Seq<char>)
    ensures
        spec_table_of(list).contains_key(k) <==> spec_provider_names(list).contains(k),
    decreases list.len(),
{
    if list.len() > 0 {
        lemma_table_of_names(list.drop_last(), k);
        let names = spec_provider_names(list);
        let dl = spec_provider_names(list.drop_last());
        let last = list.last().provider@;
        assert(names =~= dl.push(last));
        assert(spec_table_of(list) == spec_table_of(list.drop_last()).insert(last, list.last()@));
        if k == last {
            assert(names[names.len() - 1] == k);
        } else {
            if dl.contains(k) {
                let j = choose|j: int| 0 <= j < dl.len() && dl[j] == k;
                assert(names[j] == k);
            }
            if names.contains(k) {
                let j = choose|j: int| 0 <= j < names.len() && names[j] == k;
                assert(j < dl.len());
                assert(dl[j] == k);
            }
        }
    }
}

/// A list in which no provider name occurs twice loads as the table those
/// names and configurations make.
pub proof fn lemma_table_of_unique(list: Seq<ProviderConfig>)
    requires
        spec_unique_keys(spec_provider_names(list)),
    ensures
        spec_table_of(list) == spec_keyed_map(spec_provider_names(list), spec_config_views(list)),
    decreases list.len(),
{
    let names = spec_provider_names(list);
    let views = spec_config_views(list);
    if list.len() == 0 {
        lemma_keyed_empty(names, views);
        assert(spec_table_of(list) =~= Map::<Seq<char>, ProviderConfigView>::empty());
    } else {
        let dl = list.drop_last();
        let dn = spec_provider_names(dl);
        let dv = spec_config_views(dl);
        let k = list.last().provider@;
        assert(names =~= dn.push(k));
        assert(views =~= dv.push(list.last()@));
        assert(spec_unique_keys(dn)) by {
            assert forall|i: int, j: int| 0 <= i < dn.len() && 0 <= j < dn.len() && i != j implies dn[i] != dn[j] by {
                assert(dn[i] == names[i] && dn[j] == names[j]);
            }
        }
        assert(!dn.contains(k)) by {
            if dn.contains(k) {
                let j = choose|j: int| 0 <= j < dn.len() && dn[j] == k;
                assert(names[j] == names[names.len() - 1]);
            }
        }
        lemma_table_of_unique(dl);
        lemma_keyed_push(dn, dv, k, list.last()@);
    }
}

/// Saving a table as its list and loading that list gives the table back.
pub proof fn lemma_table_round_trip(t: ProviderConfigs)
    requires
        t.wf(),
    ensures
        spec_table_of(t.list()) == t@,
{
    lemma_table_of_unique(t.configs@);
}


/// A registration stores what it was given: the provider's entry after
/// [`upsert_provider_config`] has the request's base URL, custom headers (in
/// order), models and wire API, its first key is the first of its key chain,
/// the capabilities already stored for the provider are kept, and every
/// other provider is left as it was.
pub proof fn lemma_registration_stores_request(
    table: Map<Seq<char>, ProviderConfigView>,
    req: RegisterProviderRequest,
)
    ensures
        ({
            let p = req.provider@;
            let caps = if table.contains_key(p) {
                table[p].model_capabilities
            } else {
                Map::<Seq<char>, Seq<Seq<char>>>::empty()
            };
            let t = table.insert(p, spec_registered(req, caps));
            &&& t.contains_key(p)
            &&& t[p].provider == p
            &&& t[p].base_url == opt_view(req.base_url)
            &&& t[p].api_type == opt_view(req.api_type)
            &&& t[p].custom_headers.len() == req.custom_headers@.len()
            &&& forall|i: int|
                0 <= i < req.custom_headers@.len() ==> t[p].custom_headers[i] == (
                    (#[trigger] req.custom_headers@[i]).header@,
                    req.custom_headers@[i].value@,
                )
            &&& t[p].models.len() == req.models@.len()
            &&& forall|i: int| 0 <= i < req.models@.len() ==> t[p].models[i] == (#[trigger] req.models@[i])@
            &&& t[p].model_capabilities == caps
            &&& (t[p].api_key is Some <==> t[p].api_keys.len() > 0)
            &&& (t[p].api_key matches Some(k) ==> k == t[p].api_keys[0])
            &&& forall|q: Seq<char>|
                q != p ==> (#[trigger] t.contains_key(q) == table.contains_key(q) && (table.contains_key(q) ==> t[q]
                    == table[q]))
        }),
{
}

/// Setting one model's capabilities changes only that model's entry of the
/// provider's table: a non-empty list is stored as given, an empty one
/// removes the model, every other model and every other field of the
/// configuration are kept.
pub proof fn lemma_capabilities_update_one_model(c: ProviderConfigView, model_id: Seq<char>, caps: Seq<Seq<char>>)
    ensures
        ({
            let u = spec_with_capabilities(c, model_id, caps);
            &&& (caps.len() > 0 ==> u.model_capabilities.contains_key(model_id) && u.model_capabilities[model_id]
                == caps)
            &&& (caps.len() == 0 ==> !u.model_capabilities.contains_key(model_id))
            &&& forall|m: Seq<char>|
                m != model_id ==> (#[trigger] u.model_capabilities.contains_key(m) == c.model_capabilities.contains_key(
                    m,
                ) && (c.model_capabilities.contains_key(m) ==> u.model_capabilities[m] == c.model_capabilities[m]))
            &&& u.provider == c.provider && u.api_key == c.api_key && u.api_keys == c.api_keys
            &&& u.base_url == c.base_url && u.custom_headers == c.custom_headers && u.models == c.models
            &&& u.api_type == c.api_type
        }),
{
}

} // verus!
