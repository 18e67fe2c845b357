//! The model service: the merged model catalogue, which account offers which model, and a
//! cached reverse index from model to accounts.

use std::time::Duration;
use std::time::SystemTime;
use vstd::prelude::*;
use crate::metadata::{lookup_last, FetchedMetadata, MetadataMap};
use crate::model::{
    clone_strings, enriched_views, vec_contains_text, input_modalities_for, metadata_views, strs_view, any_image_input_type, EnrichedModel,
    EnrichedModelView, ModelInfo, ModelInfoView, ModelMetadata, ModelMetadataView,
    StaticMetadataCollection,
};
use crate::text::{decimal_text, text_eq, u64_to_decimal};

verus! {

#[verifier::external_type_specification]
#[verifier::external_body]
pub struct ExSystemTime(SystemTime);

/// Calls `SystemTime::now`. Nothing is stated of the reading: it is the clock's.
#[verifier::external_body]
fn system_now() -> SystemTime {
    SystemTime::now()
}

/// The time from `earlier` to `now`, or zero when `earlier` is later, as
/// `SystemTime::duration_since` followed by `unwrap_or_default` gives it.
pub uninterp spec fn time_span(now: SystemTime, earlier: SystemTime) -> Duration;

/// The whole seconds of a duration, as `Duration::as_secs` gives them.
pub uninterp spec fn span_secs(d: Duration) -> u64;

/// Calls `SystemTime::duration_since`, taking a zero duration when `earlier` is in fact later
/// than `now`; the result is named `time_span` of the two times.
#[verifier::external_body]
fn duration_between(now: &SystemTime, earlier: &SystemTime) -> (r: Duration)
    ensures
        r == time_span(*now, *earlier),
{
    now.duration_since(*earlier).unwrap_or_default()
}

/// Calls `Duration::as_secs`; the result is named `span_secs` of the duration.
#[verifier::external_body]
fn whole_seconds(d: &Duration) -> (r: u64)
    ensures
        r == span_secs(*d),
{
    d.as_secs()
}

/// The age, in whole seconds, at time `now` of a cache entry written at time `at`.
pub open spec fn cache_age_secs(now: SystemTime, at: SystemTime) -> u64 {
    span_secs(time_span(now, at))
}

/// Whether a cached answer of the given age may still be served under the given TTL:
/// exactly when it is younger than the TTL.
pub fn cache_is_fresh(age_secs: u64, ttl_secs: u64) -> (r: bool)
    ensures
        r == (age_secs < ttl_secs),
{
    age_secs < ttl_secs
}

/// A lookup of `model` at time `now` with the given TTL, which answered `answer` and turned
/// the cache `before` into `after`: a cached answer younger than the TTL is served and the
/// cache kept; otherwise the answer is the accounts in recorded order and is cached with
/// time `now`.
pub open spec fn cache_lookup_at(
    before: Seq<(Seq<char>, (Seq<Seq<char>>, SystemTime))>,
    after: Seq<(Seq<char>, (Seq<Seq<char>>, SystemTime))>,
    am: Seq<(Seq<char>, Seq<Seq<char>>)>,
    ttl: u64,
    model: Seq<char>,
    answer: Seq<Seq<char>>,
    now: SystemTime,
) -> bool {
    if serves_cached(before, model, now, ttl) {
        &&& after == before
        &&& exists|j: int| is_first_key(before, model, j) && answer == before[j].1.0
    } else {
        &&& answer == accounts_in_order(am, model)
        &&& after == assoc_insert(before, model, (answer, now))
    }
}

/// At time `now`, the cache holds an answer for `model` that is younger than `ttl` seconds.
pub open spec fn serves_cached(
    cache: Seq<(Seq<char>, (Seq<Seq<char>>, SystemTime))>,
    model: Seq<char>,
    now: SystemTime,
    ttl: u64,
) -> bool {
    exists|j: int| is_first_key(cache, model, j) && cache_age_secs(now, cache[j].1.1) < ttl
}

/// The TLS implementation the HTTP client uses.
#[derive(Clone, Copy, Debug, PartialEq, Eq)]
pub enum TlsBackend {
    Rustls,
    NativeTls,
}

/// Settings of the model refresh.
#[derive(Clone, Copy, Debug, PartialEq, Eq)]
pub struct ModelRefreshConfig {
    /// Whether the catalogue is refreshed periodically.
    pub enabled: bool,
    /// Seconds between periodic refreshes.
    pub interval_seconds: u64,
    /// Seconds a cached model-to-accounts answer stays valid.
    pub account_filter_cache_ttl_seconds: u64,
    /// The TLS implementation for the ListAvailableModels calls.
    pub tls_backend: TlsBackend,
}

/// The accounts found to offer a model, and when they were found.
pub struct CachedAccountList {
    pub account_ids: Vec<String>,
    pub cached_at: SystemTime,
}

/// An association list keyed by text has each key at most once.
pub open spec fn keys_distinct<V>(s: Seq<(Seq<char>, V)>) -> bool {
    forall|i: int, j: int| 0 <= i < j < s.len() ==> s[i].0 != s[j].0
}

/// `i` is the first position of `s` with key `k`.
pub open spec fn is_first_key<V>(s: Seq<(Seq<char>, V)>, k: Seq<char>, i: int) -> bool {
    &&& 0 <= i < s.len()
    &&& s[i].0 == k
    &&& forall|j: int| 0 <= j < i ==> s[j].0 != k
}

/// Inserting into an association list: the entry for `k` gets value `v` in place, or a new
/// entry goes at the end (as a map's insert).
pub open spec fn assoc_insert<V>(s: Seq<(Seq<char>, V)>, k: Seq<char>, v: V) -> Seq<(Seq<char>, V)> {
    if exists|i: int| is_first_key(s, k, i) {
        s.update(choose|i: int| is_first_key(s, k, i), (k, v))
    } else {
        s.push((k, v))
    }
}

/// The accounts whose recorded model list contains `model`.
pub open spec fn supporting_accounts(am: Seq<(Seq<char>, Seq<Seq<char>>)>, model: Seq<char>) -> Set<Seq<char>> {
    Set::new(|a: Seq<char>| exists|i: int| 0 <= i < am.len() && am[i].0 == a && am[i].1.contains(model))
}

/// The accounts whose recorded model list contains `model`, in the order they were recorded.
pub open spec fn accounts_in_order(am: Seq<(Seq<char>, Seq<Seq<char>>)>, model: Seq<char>) -> Seq<Seq<char>>
    decreases am.len(),
{
    if am.len() == 0 {
        Seq::empty()
    } else {
        let rest = accounts_in_order(am.drop_last(), model);
        if am.last().1.contains(model) {
            rest.push(am.last().0)
        } else {
            rest
        }
    }
}

/// `i` is the first position of the catalogue with model id `id`.
pub open spec fn is_first_with_id(g: Seq<EnrichedModelView>, id: Seq<char>, i: int) -> bool {
    &&& 0 <= i < g.len()
    &&& g[i].id == id
    &&& forall|j: int| 0 <= j < i ==> g[j].id != id
}

/// The static metadata for a model id: the last entry with that id, as a map built from the
/// collection keeps it.
pub open spec fn metadata_for(meta: Seq<ModelMetadataView>, id: Seq<char>) -> Option<ModelMetadataView>
    decreases meta.len(),
{
    if meta.len() == 0 {
        None
    } else if meta.last().model_id == id {
        Some(meta.last())
    } else {
        metadata_for(meta.drop_last(), id)
    }
}

/// The record the gateway publishes for an API model first seen on `account`.
pub open spec fn enriched_from(meta: Option<ModelMetadataView>, api: ModelInfoView, account: Seq<char>) -> EnrichedModelView {
    let image = any_image_input_type(api.input_types);
    EnrichedModelView {
        id: api.model_id,
        object: "model"@,
        created: match meta {
            Some(m) => m.created,
            None => 0,
        },
        owned_by: "anthropic"@,
        display_name: match meta {
            Some(m) => m.display_name,
            None => api.model_name,
        },
        model_type: match meta {
            Some(m) => m.model_type,
            None => "chat"@,
        },
        max_tokens: match api.token_limits {
            Some(t) => t.max_output_tokens,
            None => match meta {
                Some(m) => m.max_output_tokens,
                None => 16384,
            },
        },
        context_window: match meta {
            Some(m) => m.context_window,
            None => 200000,
        },
        supports_image: image,
        input_modalities: input_modalities_for(image),
        pricing: match meta {
            Some(m) => m.pricing,
            None => None,
        },
        available_accounts: seq![account],
    }
}

/// The static metadata for an id is that of the last entry with the id, and there is none
/// exactly when no entry has the id.
pub proof fn lemma_metadata_for(meta: Seq<ModelMetadataView>, id: Seq<char>, i: int)
    ensures
        (forall|k: int| 0 <= k < meta.len() ==> meta[k].model_id != id) ==> metadata_for(meta, id) is None,
        (exists|k: int| 0 <= k < meta.len() && #[trigger] meta[k].model_id == id) ==> {
            &&& metadata_for(meta, id) is Some
            &&& metadata_for(meta, id)->0.model_id == id
        },
        ({
            &&& 0 <= i < meta.len()
            &&& meta[i].model_id == id
            &&& forall|k: int| i < k < meta.len() ==> meta[k].model_id != id
        }) ==> metadata_for(meta, id) == Some(meta[i]),
    decreases meta.len(),
{
    if meta.len() > 0 {
        let rest = meta.drop_last();
        assert(meta.last() == meta[meta.len() - 1]);
        assert forall|k: int| 0 <= k < rest.len() implies rest[k] == meta[k] by {}
        if i < meta.len() - 1 {
            lemma_metadata_for(rest, id, i);
        } else {
            lemma_metadata_for(rest, id, 0);
        }
    }
}

/// What the published record of a model first seen on `account` holds: the API's id; the
/// context window, name, type and creation time of the static metadata when there is any for
/// the id, else 200000, the API's name, `chat` and 0; the API's output limit when it reports
/// one, else the metadata's, else 16384; image support when the API lists an image input; and
/// `account` as its only account.
pub proof fn lemma_enriched_fields(meta: Option<ModelMetadataView>, api: ModelInfoView, account: Seq<char>)
    ensures
        enriched_from(meta, api, account).id == api.model_id,
        meta is Some ==> {
            &&& enriched_from(meta, api, account).context_window == meta->0.context_window
            &&& enriched_from(meta, api, account).display_name == meta->0.display_name
            &&& enriched_from(meta, api, account).model_type == meta->0.model_type
            &&& enriched_from(meta, api, account).created == meta->0.created
            &&& enriched_from(meta, api, account).pricing == meta->0.pricing
        },
        meta is None ==> {
            &&& enriched_from(meta, api, account).context_window == 200000
            &&& enriched_from(meta, api, account).display_name == api.model_name
            &&& enriched_from(meta, api, account).model_type == "chat"@
            &&& enriched_from(meta, api, account).created == 0
            &&& enriched_from(meta, api, account).pricing is None
        },
        api.token_limits is Some ==> enriched_from(meta, api, account).max_tokens == api.token_limits->0.max_output_tokens,
        api.token_limits is None && meta is Some ==> enriched_from(meta, api, account).max_tokens == meta->0.max_output_tokens,
        api.token_limits is None && meta is None ==> enriched_from(meta, api, account).max_tokens == 16384,
        enriched_from(meta, api, account).supports_image == any_image_input_type(api.input_types),
        enriched_from(meta, api, account).available_accounts == seq![account],
{
}

/// `m` with `account` added to its available accounts.
pub open spec fn with_account(m: EnrichedModelView, account: Seq<char>) -> EnrichedModelView {
    EnrichedModelView { available_accounts: m.available_accounts.push(account), ..m }
}

/// Merging one API model seen on `account` into the catalogue: a model already listed gets
/// the account added (once); a new one is appended, enriched with static metadata.
pub open spec fn merge_one(
    g: Seq<EnrichedModelView>,
    api: ModelInfoView,
    account: Seq<char>,
    meta: Seq<ModelMetadataView>,
) -> Seq<EnrichedModelView> {
    if exists|i: int| is_first_with_id(g, api.model_id, i) {
        let i = choose|i: int| is_first_with_id(g, api.model_id, i);
        if g[i].available_accounts.contains(account) {
            g
        } else {
            g.update(i, with_account(g[i], account))
        }
    } else {
        g.push(enriched_from(metadata_for(meta, api.model_id), api, account))
    }
}

/// Merging a list of API models seen on `account`, in order.
pub open spec fn merge_all(
    g: Seq<EnrichedModelView>,
    ms: Seq<ModelInfoView>,
    account: Seq<char>,
    meta: Seq<ModelMetadataView>,
) -> Seq<EnrichedModelView>
    decreases ms.len(),
{
    if ms.len() == 0 {
        g
    } else {
        merge_one(merge_all(g, ms.drop_last(), account, meta), ms.last(), account, meta)
    }
}

/// A catalogue lists each model id once, and each model lists each account once.
pub open spec fn catalogue_wf(g: Seq<EnrichedModelView>) -> bool {
    &&& forall|i: int, j: int| 0 <= i < j < g.len() ==> g[i].id != g[j].id
    &&& forall|i: int| 0 <= i < g.len() ==> (#[trigger] g[i]).available_accounts.no_duplicates()
}

/// The views of a list of API models.
pub open spec fn infos_view(v: Seq<ModelInfo>) -> Seq<ModelInfoView> {
    v.map_values(|m: ModelInfo| m@)
}

/// The model ids of a list of API models.
pub open spec fn model_ids(v: Seq<ModelInfoView>) -> Seq<Seq<char>> {
    v.map_values(|m: ModelInfoView| m.model_id)
}

/// The models recorded for key `k` in an association list, or none.
pub open spec fn recorded_models(s: Seq<(Seq<char>, Seq<ModelInfoView>)>, k: Seq<char>) -> Seq<ModelInfoView> {
    if exists|i: int| is_first_key(s, k, i) {
        s[choose|i: int| is_first_key(s, k, i)].1
    } else {
        Seq::empty()
    }
}

/// An association list that has key `k` somewhere has a first position for it.
proof fn lemma_first_key_exists<V>(s: Seq<(Seq<char>, V)>, k: Seq<char>, i: int)
    requires
        0 <= i < s.len(),
        s[i].0 == k,
    ensures
        exists|f: int| is_first_key(s, k, f),
    decreases i,
{
    if exists|j: int| 0 <= j < i && s[j].0 == k {
        let j = choose|j: int| 0 <= j < i && s[j].0 == k;
        lemma_first_key_exists(s, k, j);
    } else {
        assert(is_first_key(s, k, i));
    }
}

/// After inserting `v` for `k`, the value recorded for `k` is `v`.
pub proof fn lemma_recorded_after_insert<V>(s: Seq<(Seq<char>, V)>, k: Seq<char>, v: V)
    ensures
        exists|i: int| is_first_key(assoc_insert(s, k, v), k, i),
        assoc_insert(s, k, v)[choose|i: int| is_first_key(assoc_insert(s, k, v), k, i)].1 == v,
{
    let s2 = assoc_insert(s, k, v);
    if exists|i: int| is_first_key(s, k, i) {
        let j = choose|i: int| is_first_key(s, k, i);
        assert(is_first_key(s2, k, j));
        let c = choose|i: int| is_first_key(s2, k, i);
        assert(c == j);
    } else {
        let n = s.len() as int;
        assert forall|j: int| 0 <= j < n implies s[j].0 != k by {
            if s[j].0 == k {
                lemma_first_key_exists(s, k, j);
            }
        }
        assert(is_first_key(s2, k, n));
        let c = choose|i: int| is_first_key(s2, k, i);
        assert(c == n);
    }
}

/// After an account's models are recorded, the models listed for it are exactly those.
pub proof fn lemma_recorded_models_after_insert(
    s: Seq<(Seq<char>, Seq<ModelInfoView>)>,
    account: Seq<char>,
    models: Seq<ModelInfoView>,
)
    ensures
        recorded_models(assoc_insert(s, account, models), account) == models,
{
    lemma_recorded_after_insert(s, account, models);
}

/// Whether some model of `v` has id `id`.
fn infos_contain_id(v: &Vec<ModelInfo>, id: &str) -> (r: bool)
    ensures
        r == model_ids(infos_view(v@)).contains(id@),
{
    let n = v.len();
    let mut i: usize = 0;
    while i < n
        invariant
            n == v@.len(),
            i <= n,
            forall|k: int| 0 <= k < i ==> v@[k].model_id@ != id@,
        decreases n - i,
    {
        if text_eq(v[i].model_id.as_str(), id) {
            assert(model_ids(infos_view(v@))[i as int] == id@);
            return true;
        }
        i = i + 1;
    }
    assert forall|k: int| 0 <= k < model_ids(infos_view(v@)).len() implies model_ids(infos_view(v@))[k] != id@ by {
        assert(model_ids(infos_view(v@))[k] == v@[k].model_id@);
    }
    false
}

/// A copy of a list of model records.
fn clone_infos(v: &Vec<ModelInfo>) -> (r: Vec<ModelInfo>)
    ensures
        infos_view(r@) == infos_view(v@),
{
    let mut out: Vec<ModelInfo> = Vec::new();
    let n = v.len();
    let mut i: usize = 0;
    while i < n
        invariant
            n == v@.len(),
            i <= n,
            infos_view(out@) == infos_view(v@).subrange(0, i as int),
        decreases n - i,
    {
        let ghost prev = infos_view(out@);
        let d = v[i].duplicate();
        out.push(d);
        assert(infos_view(out@) =~= prev.push(v@[i as int]@));
        assert(infos_view(v@).subrange(0, i as int + 1) =~= infos_view(v@).subrange(0, i as int).push(v@[i as int]@));
        i = i + 1;
    }
    assert(infos_view(v@).subrange(0, n as int) =~= infos_view(v@));
    out
}

/// The elements of `s.push(x)` are those of `s` and `x`.
pub proof fn lemma_push_to_set<A>(s: Seq<A>, x: A)
    ensures
        s.push(x).to_set() == s.to_set().insert(x),
{
    Seq::lemma_to_set_insert_commutes(s, x);
    assert(s + seq![x] =~= s.push(x));
}

/// With each account recorded once, the accounts found in order are each listed once and
/// are exactly the supporting accounts.
pub proof fn lemma_accounts_in_order(am: Seq<(Seq<char>, Seq<Seq<char>>)>, model: Seq<char>)
    requires
        keys_distinct(am),
    ensures
        accounts_in_order(am, model).no_duplicates(),
        accounts_in_order(am, model).to_set() == supporting_accounts(am, model),
    decreases am.len(),
{
    if am.len() == 0 {
        assert(accounts_in_order(am, model).to_set() =~= supporting_accounts(am, model));
    } else {
        let p = am.drop_last();
        let last = am.last();
        assert(keys_distinct(p));
        lemma_accounts_in_order(p, model);
        let rest = accounts_in_order(p, model);
        assert forall|a: Seq<char>| supporting_accounts(am, model).contains(a) <==> (supporting_accounts(p, model).contains(a) || (a == last.0 && last.1.contains(model))) by {
            if supporting_accounts(am, model).contains(a) {
                let i = choose|i: int| 0 <= i < am.len() && am[i].0 == a && am[i].1.contains(model);
                if i < am.len() - 1 {
                    assert(p[i] == am[i]);
                }
            }
            if supporting_accounts(p, model).contains(a) {
                let i = choose|i: int| 0 <= i < p.len() && p[i].0 == a && p[i].1.contains(model);
                assert(am[i] == p[i]);
            }
            if a == last.0 && last.1.contains(model) {
                assert(am[am.len() - 1] == last);
            }
        }
        if last.1.contains(model) {
            assert(!rest.contains(last.0)) by {
                if rest.contains(last.0) {
                    assert(rest.to_set().contains(last.0));
                    let i = choose|i: int| 0 <= i < p.len() && p[i].0 == last.0 && p[i].1.contains(model);
                    assert(am[i].0 == am[am.len() - 1].0);
                }
            }
            lemma_push_to_set(rest, last.0);
            assert(rest.push(last.0).to_set() =~= supporting_accounts(am, model));
        } else {
            assert(rest.to_set() =~= supporting_accounts(am, model));
        }
    }
}

/// Position of the first entry of `s` whose key is `k`.
fn find_key<V>(s: &Vec<(String, V)>, k: &str) -> (r: Option<usize>)
    ensures
        match r {
            Some(i) => i < s@.len() && s@[i as int].0@ == k@ && forall|j: int| 0 <= j < i ==> s@[j].0@ != k@,
            None => forall|j: int| 0 <= j < s@.len() ==> s@[j].0@ != k@,
        },
{
    let n = s.len();
    let mut i: usize = 0;
    while i < n
        invariant
            n == s@.len(),
            i <= n,
            forall|j: int| 0 <= j < i ==> s@[j].0@ != k@,
        decreases n - i,
    {
        if text_eq(s[i].0.as_str(), k) {
            return Some(i);
        }
        i = i + 1;
    }
    None
}

/// The catalogue lists model `id` (at its first position) with `account` among its accounts.
pub open spec fn lists_account(g: Seq<EnrichedModelView>, id: Seq<char>, account: Seq<char>) -> bool {
    exists|i: int| is_first_with_id(g, id, i) && g[i].available_accounts.contains(account)
}

/// A catalogue that has model `id` somewhere has a first position for it.
proof fn lemma_first_with_id_exists(g: Seq<EnrichedModelView>, id: Seq<char>, i: int)
    requires
        0 <= i < g.len(),
        g[i].id == id,
    ensures
        exists|f: int| is_first_with_id(g, id, f),
    decreases i,
{
    if exists|j: int| 0 <= j < i && g[j].id == id {
        let j = choose|j: int| 0 <= j < i && g[j].id == id;
        lemma_first_with_id_exists(g, id, j);
    } else {
        assert(is_first_with_id(g, id, i));
    }
}

/// Merging a model never takes an account away from a listed model.
proof fn lemma_merge_one_keeps_listed(
    g: Seq<EnrichedModelView>,
    api: ModelInfoView,
    account: Seq<char>,
    meta: Seq<ModelMetadataView>,
    id: Seq<char>,
    a: Seq<char>,
)
    requires
        lists_account(g, id, a),
    ensures
        lists_account(merge_one(g, api, account, meta), id, a),
{
    let i = choose|i: int| is_first_with_id(g, id, i) && g[i].available_accounts.contains(a);
    let g2 = merge_one(g, api, account, meta);
    if exists|j: int| is_first_with_id(g, api.model_id, j) {
        let j = choose|j: int| is_first_with_id(g, api.model_id, j);
        if !g[j].available_accounts.contains(account) {
            assert(g2 == g.update(j, with_account(g[j], account)));
            assert(is_first_with_id(g2, id, i));
            if i == j {
                assert(g2[i].available_accounts == g[i].available_accounts.push(account));
                assert(g2[i].available_accounts[g[i].available_accounts.index_of(a)] == a);
            }
            assert(g2[i].available_accounts.contains(a));
        }
    } else {
        assert(is_first_with_id(g2, id, i));
        assert(g2[i] == g[i]);
    }
}

/// After merging a model seen on `account`, the catalogue lists that model with `account`.
proof fn lemma_merge_one_lists(
    g: Seq<EnrichedModelView>,
    api: ModelInfoView,
    account: Seq<char>,
    meta: Seq<ModelMetadataView>,
)
    ensures
        lists_account(merge_one(g, api, account, meta), api.model_id, account),
{
    let g2 = merge_one(g, api, account, meta);
    if exists|j: int| is_first_with_id(g, api.model_id, j) {
        let j = choose|j: int| is_first_with_id(g, api.model_id, j);
        if !g[j].available_accounts.contains(account) {
            assert(is_first_with_id(g2, api.model_id, j));
            let accs = g2[j].available_accounts;
            assert(accs[accs.len() - 1] == account);
        }
    } else {
        assert forall|k: int| 0 <= k < g.len() implies g[k].id != api.model_id by {
            if g[k].id == api.model_id {
                lemma_first_with_id_exists(g, api.model_id, k);
            }
        }
        let n = g.len() as int;
        assert(is_first_with_id(g2, api.model_id, n));
        assert(g2[n].available_accounts[0] == account);
    }
}

/// Merging a model that the catalogue already lists with `account` changes nothing.
proof fn lemma_merge_one_noop(
    g: Seq<EnrichedModelView>,
    api: ModelInfoView,
    account: Seq<char>,
    meta: Seq<ModelMetadataView>,
)
    requires
        lists_account(g, api.model_id, account),
    ensures
        merge_one(g, api, account, meta) == g,
{
    let i = choose|i: int| is_first_with_id(g, api.model_id, i) && g[i].available_accounts.contains(account);
    let j = choose|j: int| is_first_with_id(g, api.model_id, j);
    assert(i == j);
}

/// After merging a list of models seen on `account`, every one of them is listed with it.
pub proof fn lemma_merge_lists_account(
    g: Seq<EnrichedModelView>,
    ms: Seq<ModelInfoView>,
    account: Seq<char>,
    meta: Seq<ModelMetadataView>,
)
    ensures
        forall|k: int| 0 <= k < ms.len() ==> lists_account(merge_all(g, ms, account, meta), (#[trigger] ms[k]).model_id, account),
    decreases ms.len(),
{
    if ms.len() > 0 {
        let p = ms.drop_last();
        lemma_merge_lists_account(g, p, account, meta);
        let h = merge_all(g, p, account, meta);
        assert forall|k: int| 0 <= k < ms.len() implies lists_account(merge_all(g, ms, account, meta), (#[trigger] ms[k]).model_id, account) by {
            if k < ms.len() - 1 {
                assert(ms[k] == p[k]);
                lemma_merge_one_keeps_listed(h, ms.last(), account, meta, ms[k].model_id, account);
            } else {
                lemma_merge_one_lists(h, ms.last(), account, meta);
            }
        }
    }
}

/// Merging models that are all listed with `account` already changes nothing.
proof fn lemma_merge_all_noop(
    h: Seq<EnrichedModelView>,
    ms: Seq<ModelInfoView>,
    account: Seq<char>,
    meta: Seq<ModelMetadataView>,
)
    requires
        forall|k: int| 0 <= k < ms.len() ==> lists_account(h, (#[trigger] ms[k]).model_id, account),
    ensures
        merge_all(h, ms, account, meta) == h,
    decreases ms.len(),
{
    if ms.len() > 0 {
        let p = ms.drop_last();
        assert forall|k: int| 0 <= k < p.len() implies lists_account(h, (#[trigger] p[k]).model_id, account) by {
            assert(p[k] == ms[k]);
        }
        lemma_merge_all_noop(h, p, account, meta);
        assert(ms.last() == ms[ms.len() - 1]);
        lemma_merge_one_noop(h, ms.last(), account, meta);
    }
}

/// Recording the same model list for an account twice gives the catalogue that recording it
/// once gives.
pub proof fn lemma_merge_idempotent(
    g: Seq<EnrichedModelView>,
    ms: Seq<ModelInfoView>,
    account: Seq<char>,
    meta: Seq<ModelMetadataView>,
)
    ensures
        merge_all(merge_all(g, ms, account, meta), ms, account, meta) == merge_all(g, ms, account, meta),
{
    lemma_merge_lists_account(g, ms, account, meta);
    lemma_merge_all_noop(merge_all(g, ms, account, meta), ms, account, meta);
}

/// After an account's model list is recorded, the account is offered for exactly the models
/// in that list.
pub proof fn lemma_recorded_account_offers(
    am: Seq<(Seq<char>, Seq<Seq<char>>)>,
    account: Seq<char>,
    ids: Seq<Seq<char>>,
    model: Seq<char>,
)
    requires
        keys_distinct(am),
    ensures
        supporting_accounts(assoc_insert(am, account, ids), model).contains(account) <==> ids.contains(model),
{
    let am2 = assoc_insert(am, account, ids);
    if exists|i: int| is_first_key(am, account, i) {
        let j = choose|i: int| is_first_key(am, account, i);
        assert(am2[j] == (account, ids));
        if supporting_accounts(am2, model).contains(account) {
            let i = choose|i: int| 0 <= i < am2.len() && am2[i].0 == account && am2[i].1.contains(model);
            if i != j {
                assert(am[i].0 == am2[i].0);
            }
        }
    } else {
        let n = am.len() as int;
        assert(am2[n] == (account, ids));
        if supporting_accounts(am2, model).contains(account) {
            let i = choose|i: int| 0 <= i < am2.len() && am2[i].0 == account && am2[i].1.contains(model);
            if i != n {
                assert(am2[i] == am[i]);
                assert(is_first_key(am, account, i));
            }
        }
    }
}

/// Whether metadata `f` changes model `m`: a missing (zero) context window or output limit
/// that `f` has, or vision support that `m` lacks.
pub open spec fn is_refreshed_by(m: EnrichedModelView, f: FetchedMetadata) -> bool {
    ||| (m.context_window == 0 && f.context_window is Some)
    ||| (m.max_tokens == 0 && f.max_output_tokens is Some)
    ||| (f.supports_vision && !m.supports_image)
}

/// Model `m` completed with metadata `f`: a zero context window or output limit takes the
/// value `f` has, and vision support in `f` makes the model accept images.
pub open spec fn refreshed_with(m: EnrichedModelView, f: FetchedMetadata) -> EnrichedModelView {
    let m1 = if m.context_window == 0 && f.context_window is Some {
        EnrichedModelView { context_window: f.context_window->0, ..m }
    } else {
        m
    };
    let m2 = if m1.max_tokens == 0 && f.max_output_tokens is Some {
        EnrichedModelView { max_tokens: f.max_output_tokens->0, ..m1 }
    } else {
        m1
    };
    if f.supports_vision && !m2.supports_image {
        EnrichedModelView { supports_image: true, input_modalities: input_modalities_for(true), ..m2 }
    } else {
        m2
    }
}

/// Model `m` after a metadata update with the fetched entries.
pub open spec fn updated_model(m: EnrichedModelView, entries: Seq<(Seq<char>, FetchedMetadata)>) -> EnrichedModelView {
    match lookup_last(entries, m.id) {
        Some(f) => refreshed_with(m, f),
        None => m,
    }
}

/// The catalogue after a metadata update with the fetched entries.
pub open spec fn updated_catalogue(ms: Seq<EnrichedModelView>, entries: Seq<(Seq<char>, FetchedMetadata)>) -> Seq<EnrichedModelView> {
    Seq::new(ms.len(), |i: int| updated_model(ms[i], entries))
}

/// Whether the fetched entries change model `m`.
pub open spec fn is_updated(m: EnrichedModelView, entries: Seq<(Seq<char>, FetchedMetadata)>) -> bool {
    match lookup_last(entries, m.id) {
        Some(f) => is_refreshed_by(m, f),
        None => false,
    }
}

/// How many models of the catalogue the fetched entries change.
pub open spec fn count_updated(ms: Seq<EnrichedModelView>, entries: Seq<(Seq<char>, FetchedMetadata)>) -> nat
    decreases ms.len(),
{
    if ms.len() == 0 {
        0
    } else {
        count_updated(ms.drop_last(), entries) + if is_updated(ms.last(), entries) {
            1nat
        } else {
            0nat
        }
    }
}

/// What a metadata update does to one model of the catalogue. Without metadata for its id
/// the model stays as it was. With metadata `f`: a zero context window takes `f`'s when `f`
/// has one, a zero output limit likewise, and other limits stay; when `f` reports vision the
/// model accepts images afterwards, whatever its limits, and one that did not before now
/// lists the text and image modalities and counts as updated; nothing else changes.
pub proof fn lemma_metadata_update_model(ms: Seq<EnrichedModelView>, entries: Seq<(Seq<char>, FetchedMetadata)>, i: int)
    requires
        0 <= i < ms.len(),
    ensures
        updated_catalogue(ms, entries).len() == ms.len(),
        lookup_last(entries, ms[i].id) is None ==> updated_catalogue(ms, entries)[i] == ms[i],
        lookup_last(entries, ms[i].id) is Some ==> ({
            let m = ms[i];
            let f = lookup_last(entries, m.id)->0;
            let u = updated_catalogue(ms, entries)[i];
            &&& u.context_window == if m.context_window == 0 && f.context_window is Some {
                f.context_window->0
            } else {
                m.context_window
            }
            &&& u.max_tokens == if m.max_tokens == 0 && f.max_output_tokens is Some {
                f.max_output_tokens->0
            } else {
                m.max_tokens
            }
            &&& u.supports_image == (m.supports_image || f.supports_vision)
            &&& u.input_modalities == if f.supports_vision && !m.supports_image {
                seq!["text"@, "image"@]
            } else {
                m.input_modalities
            }
            &&& f.supports_vision && !m.supports_image ==> is_updated(m, entries)
            &&& u.id == m.id
            &&& u.object == m.object
            &&& u.created == m.created
            &&& u.owned_by == m.owned_by
            &&& u.display_name == m.display_name
            &&& u.model_type == m.model_type
            &&& u.pricing == m.pricing
            &&& u.available_accounts == m.available_accounts
        }),
{
}

/// How many positions two catalogues of the same length differ in.
pub open spec fn count_differences(a: Seq<EnrichedModelView>, b: Seq<EnrichedModelView>) -> nat
    decreases a.len(),
{
    if a.len() == 0 || b.len() == 0 {
        0
    } else {
        count_differences(a.drop_last(), b.drop_last()) + if a.last() != b.last() {
            1nat
        } else {
            0nat
        }
    }
}

/// The count a metadata update returns is the number of models it changes, provided no
/// fetched limit is zero (a zero fetched limit for a model whose limit is zero is counted
/// although the model stays the same).
pub proof fn lemma_metadata_update_count(ms: Seq<EnrichedModelView>, entries: Seq<(Seq<char>, FetchedMetadata)>)
    requires
        no_zero_limits(entries),
    ensures
        count_updated(ms, entries) == count_differences(ms, updated_catalogue(ms, entries)),
    decreases ms.len(),
{
    if ms.len() > 0 {
        let rest = ms.drop_last();
        let u = updated_catalogue(ms, entries);
        assert(updated_catalogue(rest, entries) =~= u.drop_last());
        lemma_metadata_update_count(rest, entries);
        let m = ms.last();
        assert(m == ms[ms.len() - 1]);
        assert(u.last() == updated_model(m, entries));
        assert(lookup_last(entries, m.id) matches Some(f) ==> f.context_window != Some(0i32) && f.max_output_tokens != Some(0i32));
        if is_updated(m, entries) {
            let f = lookup_last(entries, m.id)->0;
            if m.context_window == 0 && f.context_window is Some {
                assert(updated_model(m, entries).context_window != m.context_window);
            } else if m.max_tokens == 0 && f.max_output_tokens is Some {
                assert(updated_model(m, entries).max_tokens != m.max_tokens);
            } else {
                assert(updated_model(m, entries).supports_image != m.supports_image);
            }
        }
    }
}

/// Fetched entries in which no metadata a lookup answers with has a zero limit.
pub open spec fn no_zero_limits(entries: Seq<(Seq<char>, FetchedMetadata)>) -> bool {
    forall|k: Seq<char>| #[trigger] lookup_last(entries, k) matches Some(f) ==> {
        &&& f.context_window != Some(0i32)
        &&& f.max_output_tokens != Some(0i32)
    }
}

/// Updating the catalogue a second time with the same metadata changes nothing and counts
/// no model, provided no fetched limit is zero.
pub proof fn lemma_metadata_update_idempotent(ms: Seq<EnrichedModelView>, entries: Seq<(Seq<char>, FetchedMetadata)>)
    requires
        no_zero_limits(entries),
    ensures
        updated_catalogue(updated_catalogue(ms, entries), entries) == updated_catalogue(ms, entries),
        count_updated(updated_catalogue(ms, entries), entries) == 0,
    decreases ms.len(),
{
    let once = updated_catalogue(ms, entries);
    assert forall|i: int| 0 <= i < once.len() implies !is_updated(#[trigger] once[i], entries)
        && updated_model(once[i], entries) == once[i] by {
        assert(once[i].id == ms[i].id);
        assert(lookup_last(entries, ms[i].id) matches Some(f) ==> f.context_window != Some(0i32) && f.max_output_tokens != Some(0i32));
    }
    assert(updated_catalogue(once, entries) =~= once);
    lemma_count_zero(once, entries);
}

/// A catalogue none of whose models the entries change counts zero updates.
proof fn lemma_count_zero(ms: Seq<EnrichedModelView>, entries: Seq<(Seq<char>, FetchedMetadata)>)
    requires
        forall|i: int| 0 <= i < ms.len() ==> !is_updated(#[trigger] ms[i], entries),
    ensures
        count_updated(ms, entries) == 0,
    decreases ms.len(),
{
    if ms.len() > 0 {
        assert forall|i: int| 0 <= i < ms.drop_last().len() implies !is_updated(#[trigger] ms.drop_last()[i], entries) by {
            assert(ms.drop_last()[i] == ms[i]);
        }
        lemma_count_zero(ms.drop_last(), entries);
        assert(ms.last() == ms[ms.len() - 1]);
    }
}

/// The update count never exceeds the catalogue's size.
proof fn lemma_count_updated_bound(ms: Seq<EnrichedModelView>, entries: Seq<(Seq<char>, FetchedMetadata)>)
    ensures
        count_updated(ms, entries) <= ms.len(),
    decreases ms.len(),
{
    if ms.len() > 0 {
        lemma_count_updated_bound(ms.drop_last(), entries);
    }
}

/// The catalogue as it was before a full refresh, kept to be restored if the refresh
/// rebuilds nothing.
pub struct SavedCatalogue {
    models: Vec<EnrichedModel>,
}

impl SavedCatalogue {
    /// The saved catalogue, as views.
    pub closed spec fn catalogue_view(&self) -> Seq<EnrichedModelView> {
        enriched_views(self.models@)
    }

    /// A saved catalogue is well formed.
    #[verifier::type_invariant]
    closed spec fn saved_wf(&self) -> bool {
        catalogue_wf(enriched_views(self.models@))
    }
}

/// Serves the model catalogue and answers which accounts offer a model.
pub struct ModelService {
    models: Vec<EnrichedModel>,
    account_models: Vec<(String, Vec<ModelInfo>)>,
    model_accounts_cache: Vec<(String, CachedAccountList)>,
    last_refresh: Option<SystemTime>,
    static_metadata: Vec<ModelMetadata>,
    config: ModelRefreshConfig,
}

impl ModelService {
    /// The catalogue, as views.
    pub closed spec fn models_view(&self) -> Seq<EnrichedModelView> {
        enriched_views(self.models@)
    }

    /// Account id to the ids of the models it offers, as recorded by the last refresh of
    /// each account, in the order accounts were first recorded.
    pub closed spec fn account_models_view(&self) -> Seq<(Seq<char>, Seq<Seq<char>>)> {
        self.account_models@.map_values(|e: (String, Vec<ModelInfo>)| (e.0@, model_ids(infos_view(e.1@))))
    }

    /// Account id to the models it offers, as recorded by the last refresh of each account.
    pub closed spec fn account_infos_view(&self) -> Seq<(Seq<char>, Seq<ModelInfoView>)> {
        self.account_models@.map_values(|e: (String, Vec<ModelInfo>)| (e.0@, infos_view(e.1@)))
    }

    /// Model id to the accounts cached for it.
    pub closed spec fn cache_view(&self) -> Seq<(Seq<char>, Seq<Seq<char>>)> {
        self.model_accounts_cache@.map_values(|e: (String, CachedAccountList)| (e.0@, strs_view(e.1.account_ids@)))
    }

    /// Model id to the accounts cached for it and the time they were cached.
    pub closed spec fn timed_cache_view(&self) -> Seq<(Seq<char>, (Seq<Seq<char>>, SystemTime))> {
        self.model_accounts_cache@.map_values(|e: (String, CachedAccountList)| (e.0@, (strs_view(e.1.account_ids@), e.1.cached_at)))
    }

    /// The static metadata, in the order of the collection it was made from.
    pub closed spec fn static_metadata_view(&self) -> Seq<ModelMetadataView> {
        metadata_views(self.static_metadata@)
    }

    /// The refresh settings.
    pub closed spec fn config_view(&self) -> ModelRefreshConfig {
        self.config
    }

    /// Whether a refresh of all accounts has completed.
    pub closed spec fn has_refreshed(&self) -> bool {
        self.last_refresh is Some
    }

    /// The service's invariant: account and model ids are keys at most once, the catalogue
    /// is well formed, and every cached answer agrees with the recorded account models.
    pub open spec fn wf(&self) -> bool {
        &&& keys_distinct(self.account_models_view())
        &&& keys_distinct(self.cache_view())
        &&& forall|i: int| 0 <= i < self.cache_view().len() ==> {
            &&& (#[trigger] self.cache_view()[i]).1.no_duplicates()
            &&& self.cache_view()[i].1.to_set() == supporting_accounts(self.account_models_view(), self.cache_view()[i].0)
        }
        &&& catalogue_wf(self.models_view())
    }

    /// A service with an empty catalogue over the given static metadata.
    pub fn new(collection: StaticMetadataCollection, config: ModelRefreshConfig) -> (r: ModelService)
        ensures
            r.wf(),
            r.models_view() == Seq::<EnrichedModelView>::empty(),
            r.account_models_view() == Seq::<(Seq<char>, Seq<Seq<char>>)>::empty(),
            r.cache_view() == Seq::<(Seq<char>, Seq<Seq<char>>)>::empty(),
            r.static_metadata_view() == metadata_views(collection.models@),
            r.config_view() == config,
            !r.has_refreshed(),
    {
        let r = ModelService {
            models: Vec::new(),
            account_models: Vec::new(),
            model_accounts_cache: Vec::new(),
            last_refresh: None,
            static_metadata: collection.models,
            config,
        };
        assert(r.models_view() =~= Seq::<EnrichedModelView>::empty());
        assert(r.account_models_view() =~= Seq::<(Seq<char>, Seq<Seq<char>>)>::empty());
        assert(r.cache_view() =~= Seq::<(Seq<char>, Seq<Seq<char>>)>::empty());
        r
    }

    /// A copy of the catalogue.
    pub fn get_models(&self) -> (r: Vec<EnrichedModel>)
        ensures
            enriched_views(r@) == self.models_view(),
    {
        let mut out: Vec<EnrichedModel> = Vec::new();
        let n = self.models.len();
        let mut i: usize = 0;
        while i < n
            invariant
                n == self.models@.len(),
                i <= n,
                enriched_views(out@) == self.models_view().subrange(0, i as int),
            decreases n - i,
        {
            let ghost prev = enriched_views(out@);
            let d = self.models[i].duplicate();
            out.push(d);
            assert(enriched_views(out@) =~= prev.push(self.models@[i as int]@));
            assert(self.models_view()[i as int] == self.models@[i as int]@);
            assert(self.models_view().subrange(0, i as int + 1) =~= self.models_view().subrange(0, i as int).push(self.models@[i as int]@));
            i = i + 1;
        }
        assert(self.models_view().subrange(0, n as int) =~= self.models_view());
        out
    }

    /// The models account `account_id` offers, as recorded by its last refresh; none for an
    /// account that has not been recorded.
    pub fn get_account_models(&self, account_id: &str) -> (r: Vec<ModelInfo>)
        ensures
            infos_view(r@) == recorded_models(self.account_infos_view(), account_id@),
    {
        let ghost s = self.account_infos_view();
        match find_key(&self.account_models, account_id) {
            Some(j) => {
                assert(s[j as int] == (self.account_models@[j as int].0@, infos_view(self.account_models@[j as int].1@)));
                assert(is_first_key(s, account_id@, j as int));
                assert(forall|c: int| is_first_key(s, account_id@, c) ==> c == j);
                clone_infos(&self.account_models[j].1)
            },
            None => {
                assert forall|c: int| !is_first_key(s, account_id@, c) by {
                    if 0 <= c < s.len() {
                        assert(s[c].0 == self.account_models@[c].0@);
                    }
                }
                let r: Vec<ModelInfo> = Vec::new();
                assert(infos_view(r@) =~= Seq::<ModelInfoView>::empty());
                r
            },
        }
    }

    /// Forgets every cached model-to-accounts answer.
    pub fn clear_account_cache(&mut self)
        requires
            old(self).wf(),
        ensures
            final(self).wf(),
            final(self).cache_view() == Seq::<(Seq<char>, Seq<Seq<char>>)>::empty(),
            final(self).models_view() == old(self).models_view(),
            final(self).account_models_view() == old(self).account_models_view(),
            final(self).account_infos_view() == old(self).account_infos_view(),
            final(self).static_metadata_view() == old(self).static_metadata_view(),
            final(self).config_view() == old(self).config_view(),
            final(self).has_refreshed() == old(self).has_refreshed(),
    {
        self.model_accounts_cache = Vec::new();
        assert(self.cache_view() =~= Seq::<(Seq<char>, Seq<Seq<char>>)>::empty());
    }

    /// The static metadata for `model_id`, if the collection has it.
    fn lookup_metadata(&self, model_id: &str) -> (r: Option<&ModelMetadata>)
        ensures
            match r {
                Some(m) => metadata_for(self.static_metadata_view(), model_id@) == Some(m@),
                None => metadata_for(self.static_metadata_view(), model_id@) is None,
            },
    {
        let mut i: usize = self.static_metadata.len();
        assert(self.static_metadata_view().subrange(0, i as int) =~= self.static_metadata_view());
        while i > 0
            invariant
                i <= self.static_metadata@.len(),
                metadata_for(self.static_metadata_view(), model_id@) == metadata_for(self.static_metadata_view().subrange(0, i as int), model_id@),
            decreases i,
        {
            let ghost pre = self.static_metadata_view().subrange(0, i as int);
            assert(pre.drop_last() =~= self.static_metadata_view().subrange(0, i as int - 1));
            if text_eq(self.static_metadata[i - 1].model_id.as_str(), model_id) {
                return Some(&self.static_metadata[i - 1]);
            }
            i = i - 1;
        }
        None
    }

    /// Position of the first catalogue entry with model id `id`.
    fn find_model(&self, id: &str) -> (r: Option<usize>)
        ensures
            match r {
                Some(i) => is_first_with_id(self.models_view(), id@, i as int),
                None => forall|j: int| 0 <= j < self.models_view().len() ==> self.models_view()[j].id != id@,
            },
    {
        let n = self.models.len();
        let mut i: usize = 0;
        while i < n
            invariant
                n == self.models@.len(),
                i <= n,
                forall|j: int| 0 <= j < i ==> self.models_view()[j].id != id@,
            decreases n - i,
        {
            assert(self.models_view()[i as int] == self.models@[i as int]@);
            if text_eq(self.models[i].id.as_str(), id) {
                return Some(i);
            }
            i = i + 1;
        }
        None
    }

    /// Merges the models seen on `account_id` into the catalogue, in order: a model already
    /// listed gets the account added unless it has it; a new one is appended, enriched. The
    /// catalogue stays well formed even when `models` repeats an id, and merging the same
    /// models again changes nothing (`lemma_merge_idempotent`).
    pub fn merge_models_to_global(&mut self, models: &Vec<ModelInfo>, account_id: &str)
        requires
            old(self).wf(),
        ensures
            final(self).wf(),
            catalogue_wf(final(self).models_view()),
            final(self).models_view() == merge_all(old(self).models_view(), infos_view(models@), account_id@, old(self).static_metadata_view()),
            final(self).account_models_view() == old(self).account_models_view(),
            final(self).account_infos_view() == old(self).account_infos_view(),
            final(self).cache_view() == old(self).cache_view(),
            final(self).timed_cache_view() == old(self).timed_cache_view(),
            final(self).static_metadata_view() == old(self).static_metadata_view(),
            final(self).config_view() == old(self).config_view(),
            final(self).has_refreshed() == old(self).has_refreshed(),
    {
        let ghost g0 = self.models_view();
        let ghost ms = infos_view(models@);
        let ghost meta = self.static_metadata_view();
        let n = models.len();
        let mut i: usize = 0;
        assert(ms.subrange(0, 0) =~= Seq::<ModelInfoView>::empty());
        while i < n
            invariant
                n == models@.len(),
                ms == infos_view(models@),
                i <= n,
                meta == self.static_metadata_view(),
                catalogue_wf(self.models_view()),
                self.models_view() == merge_all(g0, ms.subrange(0, i as int), account_id@, meta),
                self.account_models == old(self).account_models,
                self.model_accounts_cache == old(self).model_accounts_cache,
                self.static_metadata == old(self).static_metadata,
                self.config == old(self).config,
                self.last_refresh == old(self).last_refresh,
            decreases n - i,
        {
            let ghost cur = self.models_view();
            let ghost api = ms[i as int];
            assert(ms.subrange(0, i as int + 1).drop_last() =~= ms.subrange(0, i as int));
            assert(ms.subrange(0, i as int + 1).last() == api);
            assert(api == models@[i as int]@);
            let m = &models[i];
            match self.find_model(m.model_id.as_str()) {
                Some(j) => {
                    assert(forall|c: int| is_first_with_id(cur, api.model_id, c) ==> c == j);
                    assert(cur[j as int] == self.models@[j as int]@);
                    if !vec_contains_text(&self.models[j].available_accounts, account_id) {
                        let mut e = self.models[j].duplicate();
                        let ghost before = e@;
                        e.available_accounts.push(account_id.to_owned());
                        assert(e@.available_accounts =~= before.available_accounts.push(account_id@));
                        assert(e@ == with_account(cur[j as int], account_id@));
                        self.models.set(j, e);
                        assert(self.models_view() =~= cur.update(j as int, with_account(cur[j as int], account_id@)));
                        assert forall|x: int| 0 <= x < self.models_view().len() implies (#[trigger] self.models_view()[x]).available_accounts.no_duplicates() by {
                            if x == j as int {
                                assert(cur[x].available_accounts.no_duplicates());
                                assert(!cur[x].available_accounts.contains(account_id@));
                            }
                        }
                    }
                },
                None => {
                    let e = self.enrich_model(m, account_id);
                    self.models.push(e);
                    assert(self.models_view() =~= cur.push(e@));
                    assert(e@.available_accounts =~= seq![account_id@]);
                    assert(e@.available_accounts.no_duplicates());
                },
            }
            i = i + 1;
        }
        assert(ms.subrange(0, n as int) =~= ms);
    }

    /// Records the models the ListAvailableModels API returned for account `account_id`:
    /// the account's model list is replaced, the models are merged into the catalogue, and
    /// every cached model-to-accounts answer is dropped. Returns how many models there were.
    pub fn record_account_models(&mut self, account_id: u64, models: &Vec<ModelInfo>) -> (r: usize)
        requires
            old(self).wf(),
        ensures
            final(self).wf(),
            r == models@.len(),
            final(self).account_models_view() == assoc_insert(old(self).account_models_view(), decimal_text(account_id as nat), model_ids(infos_view(models@))),
            final(self).account_infos_view() == assoc_insert(old(self).account_infos_view(), decimal_text(account_id as nat), infos_view(models@)),
            final(self).models_view() == merge_all(old(self).models_view(), infos_view(models@), decimal_text(account_id as nat), old(self).static_metadata_view()),
            final(self).cache_view() == Seq::<(Seq<char>, Seq<Seq<char>>)>::empty(),
            final(self).static_metadata_view() == old(self).static_metadata_view(),
            final(self).config_view() == old(self).config_view(),
            final(self).has_refreshed() == old(self).has_refreshed(),
    {
        self.model_accounts_cache = Vec::new();
        assert(self.cache_view() =~= Seq::<(Seq<char>, Seq<Seq<char>>)>::empty());
        let key = u64_to_decimal(account_id);
        let infos = clone_infos(models);
        let ghost am0 = self.account_models_view();
        let ghost ai0 = self.account_infos_view();
        let ghost kv = key@;
        let ghost iv = infos_view(infos@);
        let ghost idv = model_ids(iv);
        match find_key(&self.account_models, key.as_str()) {
            Some(j) => {
                assert(am0[j as int].0 == self.account_models@[j as int].0@);
                assert(ai0[j as int].0 == self.account_models@[j as int].0@);
                assert(is_first_key(am0, kv, j as int));
                assert(is_first_key(ai0, kv, j as int));
                assert(forall|c: int| is_first_key(am0, kv, c) ==> c == j);
                assert(forall|c: int| is_first_key(ai0, kv, c) ==> c == j);
                let entry_key = key.clone();
                self.account_models.set(j, (entry_key, infos));
                assert(self.account_models_view() =~= am0.update(j as int, (kv, idv)));
                assert(self.account_infos_view() =~= ai0.update(j as int, (kv, iv)));
            },
            None => {
                assert forall|c: int| !is_first_key(am0, kv, c) by {
                    if 0 <= c < am0.len() {
                        assert(am0[c].0 == self.account_models@[c].0@);
                    }
                }
                assert forall|c: int| !is_first_key(ai0, kv, c) by {
                    if 0 <= c < ai0.len() {
                        assert(ai0[c].0 == self.account_models@[c].0@);
                    }
                }
                assert forall|c: int| 0 <= c < am0.len() implies am0[c].0 != kv by {
                    if am0[c].0 == kv {
                        lemma_first_key_exists(am0, kv, c);
                    }
                }
                let entry_key = key.clone();
                self.account_models.push((entry_key, infos));
                assert(self.account_models_view() =~= am0.push((kv, idv)));
                assert(self.account_infos_view() =~= ai0.push((kv, iv)));
            },
        }
        assert(keys_distinct(self.account_models_view()));
        self.merge_models_to_global(models, key.as_str());
        models.len()
    }

    /// Starts a full refresh: the catalogue is emptied, to be rebuilt from the accounts
    /// that refresh, and the catalogue as it was is handed back to be restored should none
    /// of them refresh.
    pub fn begin_full_refresh(&mut self) -> (saved: SavedCatalogue)
        requires
            old(self).wf(),
        ensures
            final(self).wf(),
            saved.catalogue_view() == old(self).models_view(),
            final(self).models_view() == Seq::<EnrichedModelView>::empty(),
            final(self).account_models_view() == old(self).account_models_view(),
            final(self).account_infos_view() == old(self).account_infos_view(),
            final(self).cache_view() == old(self).cache_view(),
            final(self).static_metadata_view() == old(self).static_metadata_view(),
            final(self).config_view() == old(self).config_view(),
            final(self).has_refreshed() == old(self).has_refreshed(),
    {
        let mut models: Vec<EnrichedModel> = Vec::new();
        std::mem::swap(&mut models, &mut self.models);
        assert(self.models_view() =~= Seq::<EnrichedModelView>::empty());
        SavedCatalogue { models }
    }

    /// Ends a full refresh that tried `attempted_accounts` accounts, of which
    /// `refreshed_accounts` refreshed: when some were tried and none refreshed, the catalogue
    /// from before the refresh is restored; otherwise (also when no account was tried) the
    /// rebuilt one stays. Either way the refresh is noted as completed.
    pub fn finish_full_refresh(&mut self, saved: SavedCatalogue, attempted_accounts: usize, refreshed_accounts: usize)
        requires
            old(self).wf(),
        ensures
            final(self).wf(),
            final(self).has_refreshed(),
            final(self).models_view() == if attempted_accounts > 0 && refreshed_accounts == 0 {
                saved.catalogue_view()
            } else {
                old(self).models_view()
            },
            final(self).account_models_view() == old(self).account_models_view(),
            final(self).account_infos_view() == old(self).account_infos_view(),
            final(self).cache_view() == old(self).cache_view(),
            final(self).static_metadata_view() == old(self).static_metadata_view(),
            final(self).config_view() == old(self).config_view(),
    {
        proof {
            use_type_invariant(&saved);
        }
        if attempted_accounts > 0 && refreshed_accounts == 0 {
            self.models = saved.models;
        }
        self.last_refresh = Some(system_now());
    }

    /// The refresh settings.
    pub fn config(&self) -> (r: ModelRefreshConfig)
        ensures
            r == self.config_view(),
    {
        self.config
    }

    /// The accounts whose recorded models include `model_id`, in the order recorded.
    fn compute_accounts(&self, model_id: &str) -> (r: Vec<String>)
        ensures
            strs_view(r@) == accounts_in_order(self.account_models_view(), model_id@),
    {
        let mut out: Vec<String> = Vec::new();
        let n = self.account_models.len();
        let mut i: usize = 0;
        while i < n
            invariant
                n == self.account_models@.len(),
                i <= n,
                strs_view(out@) == accounts_in_order(self.account_models_view().subrange(0, i as int), model_id@),
            decreases n - i,
        {
            let ghost pre = self.account_models_view().subrange(0, i as int + 1);
            assert(pre.drop_last() =~= self.account_models_view().subrange(0, i as int));
            assert(pre.last() == (self.account_models@[i as int].0@, model_ids(infos_view(self.account_models@[i as int].1@))));
            let ghost prev = strs_view(out@);
            if infos_contain_id(&self.account_models[i].1, model_id) {
                let k = self.account_models[i].0.clone();
                out.push(k);
                assert(strs_view(out@) =~= prev.push(self.account_models@[i as int].0@));
            }
            i = i + 1;
        }
        assert(self.account_models_view().subrange(0, n as int) =~= self.account_models_view());
        out
    }

    /// The accounts that offer `model_id`, each once.
    ///
    /// A cached answer younger than the configured TTL is served as is; otherwise the answer
    /// is computed from the recorded account models and cached with the current time. Either
    /// way it is the set of accounts whose recorded models include `model_id`: a cached
    /// answer never disagrees with a fresh one.
    pub fn get_accounts_for_model(&mut self, model_id: &str) -> (r: Vec<String>)
        requires
            old(self).wf(),
        ensures
            final(self).wf(),
            strs_view(r@).no_duplicates(),
            strs_view(r@).to_set() == supporting_accounts(old(self).account_models_view(), model_id@),
            final(self).cache_view() == old(self).cache_view()
                || final(self).cache_view() == assoc_insert(old(self).cache_view(), model_id@, accounts_in_order(old(self).account_models_view(), model_id@)),
            (forall|j: int| !is_first_key(old(self).cache_view(), model_id@, j)) ==> {
                &&& strs_view(r@) == accounts_in_order(old(self).account_models_view(), model_id@)
                &&& final(self).cache_view() == assoc_insert(old(self).cache_view(), model_id@, strs_view(r@))
            },
            final(self).cache_view() == old(self).cache_view() ==> exists|j: int| {
                &&& is_first_key(old(self).cache_view(), model_id@, j)
                &&& strs_view(r@) == old(self).cache_view()[j].1
            },
            final(self).models_view() == old(self).models_view(),
            final(self).account_models_view() == old(self).account_models_view(),
            final(self).static_metadata_view() == old(self).static_metadata_view(),
            final(self).config_view() == old(self).config_view(),
            final(self).has_refreshed() == old(self).has_refreshed(),
            final(self).account_infos_view() == old(self).account_infos_view(),
            exists|now: SystemTime| cache_lookup_at(old(self).timed_cache_view(), final(self).timed_cache_view(),
                old(self).account_models_view(), old(self).config_view().account_filter_cache_ttl_seconds, model_id@,
                strs_view(r@), now),
    {
        let now = system_now();
        let r = self.get_accounts_for_model_at(model_id, now);
        assert(cache_lookup_at(old(self).timed_cache_view(), self.timed_cache_view(),
            old(self).account_models_view(), old(self).config_view().account_filter_cache_ttl_seconds, model_id@,
            strs_view(r@), now));
        r
    }

    /// The accounts that offer `model_id` at time `now`, each once: the cached answer when
    /// it is younger than the TTL, otherwise a fresh answer, which is cached with time `now`.
    pub fn get_accounts_for_model_at(&mut self, model_id: &str, now: SystemTime) -> (r: Vec<String>)
        requires
            old(self).wf(),
        ensures
            final(self).wf(),
            strs_view(r@).no_duplicates(),
            strs_view(r@).to_set() == supporting_accounts(old(self).account_models_view(), model_id@),
            final(self).cache_view() == old(self).cache_view()
                || final(self).cache_view() == assoc_insert(old(self).cache_view(), model_id@, accounts_in_order(old(self).account_models_view(), model_id@)),
            (forall|j: int| !is_first_key(old(self).cache_view(), model_id@, j)) ==> {
                &&& strs_view(r@) == accounts_in_order(old(self).account_models_view(), model_id@)
                &&& final(self).cache_view() == assoc_insert(old(self).cache_view(), model_id@, strs_view(r@))
            },
            final(self).cache_view() == old(self).cache_view() ==> exists|j: int| {
                &&& is_first_key(old(self).cache_view(), model_id@, j)
                &&& strs_view(r@) == old(self).cache_view()[j].1
            },
            final(self).models_view() == old(self).models_view(),
            final(self).account_models_view() == old(self).account_models_view(),
            final(self).static_metadata_view() == old(self).static_metadata_view(),
            final(self).config_view() == old(self).config_view(),
            final(self).has_refreshed() == old(self).has_refreshed(),
            cache_lookup_at(old(self).timed_cache_view(), final(self).timed_cache_view(), old(self).account_models_view(),
                old(self).config_view().account_filter_cache_ttl_seconds, model_id@, strs_view(r@), now),
            final(self).account_infos_view() == old(self).account_infos_view(),
    {
        let ghost c0 = self.cache_view();
        let ghost t0 = self.timed_cache_view();
        let ghost ttl = self.config.account_filter_cache_ttl_seconds;
        let found = find_key(&self.model_accounts_cache, model_id);
        match found {
            Some(j) => {
                assert(c0[j as int].0 == self.model_accounts_cache@[j as int].0@);
                assert(t0[j as int] == (self.model_accounts_cache@[j as int].0@, (strs_view(self.model_accounts_cache@[j as int].1.account_ids@), self.model_accounts_cache@[j as int].1.cached_at)));
                assert(is_first_key(t0, model_id@, j as int));
                assert(forall|c: int| is_first_key(t0, model_id@, c) ==> c == j);
                let elapsed = duration_between(&now, &self.model_accounts_cache[j].1.cached_at);
                let age = whole_seconds(&elapsed);
                if cache_is_fresh(age, self.config.account_filter_cache_ttl_seconds) {
                    let ids = clone_strings(&self.model_accounts_cache[j].1.account_ids);
                    assert(c0[j as int].1 == strs_view(self.model_accounts_cache@[j as int].1.account_ids@));
                    assert(is_first_key(c0, model_id@, j as int));
                    assert(serves_cached(t0, model_id@, now, ttl));
                    return ids;
                }
                assert(!serves_cached(t0, model_id@, now, ttl));
            },
            None => {
                assert forall|c: int| !is_first_key(t0, model_id@, c) by {
                    if 0 <= c < t0.len() {
                        assert(t0[c].0 == self.model_accounts_cache@[c].0@);
                    }
                }
            },
        }
        let fresh = self.compute_accounts(model_id);
        proof {
            lemma_accounts_in_order(self.account_models_view(), model_id@);
        }
        let entry = CachedAccountList { account_ids: clone_strings(&fresh), cached_at: now };
        let key = model_id.to_owned();
        let ghost fv = strs_view(fresh@);
        match found {
            Some(j) => {
                assert(is_first_key(c0, model_id@, j as int));
                assert(forall|c: int| is_first_key(c0, model_id@, c) ==> c == j);
                self.model_accounts_cache.set(j, (key, entry));
                assert(self.cache_view() =~= c0.update(j as int, (model_id@, fv)));
                assert(self.timed_cache_view() =~= t0.update(j as int, (model_id@, (fv, now))));
                assert(self.cache_view() == c0 ==> c0[j as int] == self.cache_view()[j as int]);
            },
            None => {
                assert forall|c: int| !is_first_key(c0, model_id@, c) by {
                    if 0 <= c < c0.len() {
                        assert(c0[c].0 == self.model_accounts_cache@[c].0@);
                    }
                }
                self.model_accounts_cache.push((key, entry));
                assert(self.cache_view() =~= c0.push((model_id@, fv)));
                assert(self.timed_cache_view() =~= t0.push((model_id@, (fv, now))));
                assert(self.cache_view().len() != c0.len());
            },
        }
        fresh
    }

    /// Completes the catalogue with metadata from public sources: for each model the map
    /// has, a zero context window or output limit takes the fetched value, and fetched
    /// vision support makes the model accept images. Returns how many models changed.
    pub fn apply_fetched_metadata(&mut self, metadata: &MetadataMap) -> (r: usize)
        requires
            old(self).wf(),
        ensures
            final(self).wf(),
            final(self).models_view() == updated_catalogue(old(self).models_view(), metadata.entries_view()),
            r == count_updated(old(self).models_view(), metadata.entries_view()),
            no_zero_limits(metadata.entries_view()) ==> r == count_differences(old(self).models_view(), final(self).models_view()),
            forall|i: int| 0 <= i < old(self).models_view().len()
                && metadata.lookup(#[trigger] old(self).models_view()[i].id) is Some
                && metadata.lookup(old(self).models_view()[i].id)->0.supports_vision
                ==> final(self).models_view()[i].supports_image,
            final(self).account_models_view() == old(self).account_models_view(),
            final(self).account_infos_view() == old(self).account_infos_view(),
            final(self).cache_view() == old(self).cache_view(),
            final(self).static_metadata_view() == old(self).static_metadata_view(),
            final(self).config_view() == old(self).config_view(),
            final(self).has_refreshed() == old(self).has_refreshed(),
    {
        let ghost g0 = self.models_view();
        let ghost entries = metadata.entries_view();
        let n = self.models.len();
        let mut count: usize = 0;
        let mut i: usize = 0;
        while i < n
            invariant
                n == self.models@.len(),
                g0.len() == n,
                entries == metadata.entries_view(),
                i <= n,
                count == count_updated(g0.subrange(0, i as int), entries),
                forall|k: int| 0 <= k < i ==> self.models_view()[k] == updated_model(g0[k], entries),
                forall|k: int| i <= k < n ==> self.models_view()[k] == g0[k],
                self.account_models == old(self).account_models,
                self.model_accounts_cache == old(self).model_accounts_cache,
                self.static_metadata == old(self).static_metadata,
                self.config == old(self).config,
                self.last_refresh == old(self).last_refresh,
            decreases n - i,
        {
            proof {
                lemma_count_updated_bound(g0.subrange(0, i as int), entries);
                assert(g0.subrange(0, i as int + 1).drop_last() =~= g0.subrange(0, i as int));
                assert(g0.subrange(0, i as int + 1).last() == g0[i as int]);
            }
            let ghost m0 = g0[i as int];
            assert(self.models_view()[i as int] == self.models@[i as int]@);
            let fetched = metadata.get(self.models[i].id.as_str());
            match fetched {
                Some(f) => {
                    let mut e = self.models[i].duplicate();
                    let mut updated = false;
                    if e.context_window == 0 {
                        match f.context_window {
                            Some(cw) => {
                                e.context_window = cw;
                                updated = true;
                            },
                            None => {},
                        }
                    }
                    if e.max_tokens == 0 {
                        match f.max_output_tokens {
                            Some(mo) => {
                                e.max_tokens = mo;
                                updated = true;
                            },
                            None => {},
                        }
                    }
                    if f.supports_vision && !e.supports_image {
                        e.supports_image = true;
                        e.input_modalities = EnrichedModel::build_input_modalities(true);
                        updated = true;
                    }
                    if updated {
                        count = count + 1;
                    }
                    assert(e@ == refreshed_with(m0, f));
                    assert(updated == is_refreshed_by(m0, f));
                    let ghost before = self.models_view();
                    self.models.set(i, e);
                    assert(self.models_view() =~= before.update(i as int, e@));
                },
                None => {},
            }
            i = i + 1;
        }
        assert(g0.subrange(0, n as int) =~= g0);
        assert(self.models_view() =~= updated_catalogue(g0, entries));
        proof {
            if no_zero_limits(entries) {
                lemma_metadata_update_count(g0, entries);
            }
            assert forall|k: int| 0 <= k < g0.len() && metadata.lookup(#[trigger] g0[k].id) is Some
                && metadata.lookup(g0[k].id)->0.supports_vision implies self.models_view()[k].supports_image by {
                lemma_metadata_update_model(g0, entries, k);
            }
        }
        count
    }

    /// The record to publish for an API model first seen on `account_id`: the API's id and
    /// limits, completed with the static metadata for the id (or defaults without it).
    pub fn enrich_model(&self, api_model: &ModelInfo, account_id: &str) -> (r: EnrichedModel)
        ensures
            r@ == enriched_from(metadata_for(self.static_metadata_view(), api_model.model_id@), api_model@, account_id@),
            (exists|i: int| 0 <= i < self.static_metadata_view().len()
                && #[trigger] self.static_metadata_view()[i].model_id == api_model.model_id@)
                ==> r@.context_window == metadata_for(self.static_metadata_view(), api_model.model_id@)->0.context_window,
            (forall|i: int| 0 <= i < self.static_metadata_view().len()
                ==> #[trigger] self.static_metadata_view()[i].model_id != api_model.model_id@)
                ==> r@.context_window == 200000,
    {
        let metadata = self.lookup_metadata(api_model.model_id.as_str());
        let supports_image = api_model.supports_image();
        let input_modalities = EnrichedModel::build_input_modalities(supports_image);
        let mut accounts: Vec<String> = Vec::new();
        accounts.push(account_id.to_owned());
        let r = EnrichedModel {
            id: api_model.model_id.clone(),
            object: String::from_str("model"),
            created: match metadata {
                Some(m) => m.created,
                None => 0,
            },
            owned_by: String::from_str("anthropic"),
            display_name: match metadata {
                Some(m) => m.display_name.clone(),
                None => api_model.model_name.clone(),
            },
            model_type: match metadata {
                Some(m) => m.model_type.clone(),
                None => String::from_str("chat"),
            },
            max_tokens: match api_model.token_limits {
                Some(t) => t.max_output_tokens,
                None => match metadata {
                    Some(m) => m.max_output_tokens,
                    None => 16384,
                },
            },
            context_window: match metadata {
                Some(m) => m.context_window,
                None => 200000,
            },
            supports_image,
            input_modalities,
            pricing: match metadata {
                Some(m) => m.pricing,
                None => None,
            },
            available_accounts: accounts,
        };
        assert(r@.available_accounts =~= seq![account_id@]);
        proof {
            lemma_metadata_for(self.static_metadata_view(), api_model.model_id@, 0);
        }
        r
    }
}

} // verus!
