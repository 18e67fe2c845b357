//! Model metadata from public sources (the LiteLLM model table): what an entry of the
//! table contributes, the map the updater builds, and the order in which it tries sources.

use vstd::prelude::*;
use crate::model::strs_view;
use crate::text::text_eq;

verus! {

/// One entry of the LiteLLM model table, as far as the updater reads it.
#[derive(Clone, Copy, Debug, PartialEq, Eq)]
pub struct LiteLLMModelData {
    pub max_tokens: Option<i32>,
    pub max_input_tokens: Option<i32>,
    pub max_output_tokens: Option<i32>,
    pub supports_vision: Option<bool>,
    pub supports_function_calling: Option<bool>,
}

/// Metadata for one model, as taken from a public source.
#[derive(Clone, Copy, Debug, PartialEq, Eq)]
pub struct FetchedMetadata {
    pub context_window: Option<i32>,
    pub max_output_tokens: Option<i32>,
    pub supports_vision: bool,
}

/// `a`, or `b` when `a` is absent (`Option::or`).
pub open spec fn or_else(a: Option<i32>, b: Option<i32>) -> Option<i32> {
    match a {
        Some(x) => Some(x),
        None => b,
    }
}

/// What one table entry contributes: the context window is the input limit, else the
/// overall limit; the output limit likewise; entries with neither are dropped.
pub open spec fn fetched_from_entry(d: LiteLLMModelData) -> Option<FetchedMetadata> {
    let context_window = or_else(d.max_input_tokens, d.max_tokens);
    let max_output = or_else(d.max_output_tokens, d.max_tokens);
    if context_window is Some || max_output is Some {
        Some(FetchedMetadata {
            context_window,
            max_output_tokens: max_output,
            supports_vision: match d.supports_vision {
                Some(v) => v,
                None => false,
            },
        })
    } else {
        None
    }
}

/// Converts one table entry into the metadata it contributes, if any.
pub fn fetched_from_litellm(d: LiteLLMModelData) -> (r: Option<FetchedMetadata>)
    ensures
        r == fetched_from_entry(d),
{
    let context_window = match d.max_input_tokens {
        Some(x) => Some(x),
        None => d.max_tokens,
    };
    let max_output = match d.max_output_tokens {
        Some(x) => Some(x),
        None => d.max_tokens,
    };
    if context_window.is_some() || max_output.is_some() {
        Some(FetchedMetadata {
            context_window,
            max_output_tokens: max_output,
            supports_vision: match d.supports_vision {
                Some(v) => v,
                None => false,
            },
        })
    } else {
        None
    }
}

/// The value last recorded for `key` in an insertion log, if any.
pub open spec fn lookup_last<V>(entries: Seq<(Seq<char>, V)>, key: Seq<char>) -> Option<V>
    decreases entries.len(),
{
    if entries.len() == 0 {
        None
    } else if entries.last().0 == key {
        Some(entries.last().1)
    } else {
        lookup_last(entries.drop_last(), key)
    }
}

/// Model id to fetched metadata. Entries are kept in insertion order and a lookup answers
/// with the value inserted last for the id, as a map whose inserts overwrite.
pub struct MetadataMap {
    entries: Vec<(String, FetchedMetadata)>,
}

/// The views of an insertion log of (id, metadata) pairs.
pub open spec fn metadata_entries_view(v: Seq<(String, FetchedMetadata)>) -> Seq<(Seq<char>, FetchedMetadata)> {
    v.map_values(|e: (String, FetchedMetadata)| (e.0@, e.1))
}

impl MetadataMap {
    /// The insertion log, as views.
    pub closed spec fn entries_view(&self) -> Seq<(Seq<char>, FetchedMetadata)> {
        metadata_entries_view(self.entries@)
    }

    /// The metadata recorded for `key`.
    pub open spec fn lookup(&self, key: Seq<char>) -> Option<FetchedMetadata> {
        lookup_last(self.entries_view(), key)
    }

    /// An empty map.
    pub fn new() -> (r: MetadataMap)
        ensures
            r.entries_view() == Seq::<(Seq<char>, FetchedMetadata)>::empty(),
    {
        let r = MetadataMap { entries: Vec::new() };
        assert(r.entries_view() =~= Seq::<(Seq<char>, FetchedMetadata)>::empty());
        r
    }

    /// Records `value` for `key`, replacing what an earlier insert recorded for it.
    pub fn insert(&mut self, key: String, value: FetchedMetadata)
        ensures
            final(self).entries_view() == old(self).entries_view().push((key@, value)),
    {
        let ghost k = key@;
        self.entries.push((key, value));
        assert(self.entries_view() =~= old(self).entries_view().push((k, value)));
    }

    /// The metadata recorded for `key`, if any.
    pub fn get(&self, key: &str) -> (r: Option<FetchedMetadata>)
        ensures
            r == self.lookup(key@),
    {
        let mut i: usize = self.entries.len();
        assert(self.entries_view().subrange(0, i as int) =~= self.entries_view());
        while i > 0
            invariant
                i <= self.entries@.len(),
                lookup_last(self.entries_view(), key@) == lookup_last(self.entries_view().subrange(0, i as int), key@),
            decreases i,
        {
            let ghost pre = self.entries_view().subrange(0, i as int);
            assert(pre.drop_last() =~= self.entries_view().subrange(0, i as int - 1));
            assert(pre.last() == (self.entries@[i as int - 1].0@, self.entries@[i as int - 1].1));
            if text_eq(self.entries[i - 1].0.as_str(), key) {
                return Some(self.entries[i - 1].1);
            }
            i = i - 1;
        }
        None
    }
}

/// The metadata entries a table yields, in table order: each entry that has a limit.
pub open spec fn litellm_entries(raw: Seq<(Seq<char>, LiteLLMModelData)>) -> Seq<(Seq<char>, FetchedMetadata)>
    decreases raw.len(),
{
    if raw.len() == 0 {
        Seq::empty()
    } else {
        let rest = litellm_entries(raw.drop_last());
        match fetched_from_entry(raw.last().1) {
            Some(m) => rest.push((raw.last().0, m)),
            None => rest,
        }
    }
}

/// The views of a table given as (model id, entry) pairs.
pub open spec fn litellm_view(v: Seq<(String, LiteLLMModelData)>) -> Seq<(Seq<char>, LiteLLMModelData)> {
    v.map_values(|e: (String, LiteLLMModelData)| (e.0@, e.1))
}

/// No model id occurs twice in the table.
pub open spec fn table_ids_distinct(raw: Seq<(Seq<char>, LiteLLMModelData)>) -> bool {
    forall|i: int, j: int| 0 <= i < j < raw.len() ==> raw[i].0 != raw[j].0
}

/// An id the table does not have is not in the map built from it.
pub proof fn lemma_litellm_lookup_absent(raw: Seq<(Seq<char>, LiteLLMModelData)>, id: Seq<char>)
    requires
        forall|i: int| 0 <= i < raw.len() ==> raw[i].0 != id,
    ensures
        lookup_last(litellm_entries(raw), id) is None,
    decreases raw.len(),
{
    if raw.len() > 0 {
        let rest = raw.drop_last();
        assert forall|i: int| 0 <= i < rest.len() implies rest[i].0 != id by {
            assert(rest[i] == raw[i]);
        }
        lemma_litellm_lookup_absent(rest, id);
        assert(raw.last() == raw[raw.len() - 1]);
        lemma_litellm_entries_step(raw);
    }
}

/// The map built from a non-empty table is that of the table without its last entry, with
/// the last entry's metadata appended when it has a limit.
proof fn lemma_litellm_entries_step(raw: Seq<(Seq<char>, LiteLLMModelData)>)
    requires
        raw.len() > 0,
    ensures
        forall|id: Seq<char>| #[trigger] lookup_last(litellm_entries(raw), id) == if id == raw.last().0 && fetched_from_entry(raw.last().1) is Some {
            fetched_from_entry(raw.last().1)
        } else {
            lookup_last(litellm_entries(raw.drop_last()), id)
        },
{
    let rest = litellm_entries(raw.drop_last());
    match fetched_from_entry(raw.last().1) {
        Some(m) => {
            let e = rest.push((raw.last().0, m));
            assert(litellm_entries(raw) == e);
            assert(e.drop_last() =~= rest);
            assert(e.last() == (raw.last().0, m));
        },
        None => {
            assert(litellm_entries(raw) == rest);
        },
    }
}

/// In the map built from a table whose ids are distinct, looking up an id of the table gives
/// exactly what that id's own entry contributes, whatever the other entries hold: its
/// metadata when it has a limit, nothing when it has none.
pub proof fn lemma_litellm_lookup(raw: Seq<(Seq<char>, LiteLLMModelData)>, i: int)
    requires
        table_ids_distinct(raw),
        0 <= i < raw.len(),
    ensures
        lookup_last(litellm_entries(raw), raw[i].0) == fetched_from_entry(raw[i].1),
    decreases raw.len(),
{
    let rest = raw.drop_last();
    let last = raw.len() - 1;
    assert(raw.last() == raw[last]);
    assert(table_ids_distinct(rest)) by {
        assert forall|a: int, b: int| 0 <= a < b < rest.len() implies rest[a].0 != rest[b].0 by {
            assert(rest[a] == raw[a]);
            assert(rest[b] == raw[b]);
        }
    }
    lemma_litellm_entries_step(raw);
    if i == last {
        assert forall|k: int| 0 <= k < rest.len() implies rest[k].0 != raw[i].0 by {
            assert(rest[k] == raw[k]);
        }
        lemma_litellm_lookup_absent(rest, raw[i].0);
    } else {
        assert(rest[i] == raw[i]);
        lemma_litellm_lookup(rest, i);
        assert(raw[i].0 != raw[last].0);
    }
}

/// Builds the metadata map from a LiteLLM table, keeping the entries that have a limit.
pub fn metadata_from_litellm(raw: Vec<(String, LiteLLMModelData)>) -> (r: MetadataMap)
    ensures
        r.entries_view() == litellm_entries(litellm_view(raw@)),
        table_ids_distinct(litellm_view(raw@)) ==> forall|i: int| 0 <= i < raw@.len()
            ==> #[trigger] r.lookup(raw@[i].0@) == fetched_from_entry(raw@[i].1),
        forall|id: Seq<char>| (forall|i: int| 0 <= i < raw@.len() ==> raw@[i].0@ != id)
            ==> #[trigger] r.lookup(id) is None,
{
    let mut map = MetadataMap::new();
    let n = raw.len();
    let mut i: usize = 0;
    while i < n
        invariant
            n == raw@.len(),
            i <= n,
            map.entries_view() == litellm_entries(litellm_view(raw@.subrange(0, i as int))),
        decreases n - i,
    {
        let ghost pre = litellm_view(raw@.subrange(0, i as int + 1));
        assert(pre.drop_last() =~= litellm_view(raw@.subrange(0, i as int)));
        assert(pre.last() == (raw@[i as int].0@, raw@[i as int].1));
        let id = raw[i].0.clone();
        match fetched_from_litellm(raw[i].1) {
            Some(m) => map.insert(id, m),
            None => {},
        }
        i = i + 1;
    }
    assert(raw@.subrange(0, n as int) =~= raw@);
    proof {
        let table = litellm_view(raw@);
        if table_ids_distinct(table) {
            assert forall|i: int| 0 <= i < raw@.len() implies #[trigger] map.lookup(raw@[i].0@) == fetched_from_entry(raw@[i].1) by {
                assert(table[i] == (raw@[i].0@, raw@[i].1));
                lemma_litellm_lookup(table, i);
            }
        }
        assert forall|id: Seq<char>| (forall|i: int| 0 <= i < raw@.len() ==> raw@[i].0@ != id) implies #[trigger] map.lookup(id) is None by {
            assert forall|i: int| 0 <= i < table.len() implies table[i].0 != id by {
                assert(table[i] == (raw@[i].0@, raw@[i].1));
            }
            lemma_litellm_lookup_absent(table, id);
        }
    }
    map
}

/// The public model tables the updater reads, in order of preference.
pub open spec fn metadata_sources() -> Seq<Seq<char>> {
    seq![
        "https://raw.githubusercontent.com/BerriAI/litellm/main/model_prices_and_context_window.json"@,
        "https://cdn.jsdelivr.net/gh/BerriAI/litellm@main/model_prices_and_context_window.json"@,
    ]
}

/// Why fetching metadata from the public sources gave nothing.
#[derive(Clone, Copy, Debug, PartialEq, Eq)]
pub enum MetadataFetchError {
    /// Every source was tried and each failed.
    AllSourcesFailed,
    /// There is no source to try.
    NoSourcesAvailable,
}

/// What the updater does next while it works through its sources.
#[derive(Clone, Copy, Debug, PartialEq, Eq)]
pub enum FetchStep {
    /// Fetch from the source at this index.
    TrySource(usize),
    /// A source answered; its metadata is the result.
    Finished,
    /// No source answered.
    Failed(MetadataFetchError),
}

/// The first step for `n` sources.
pub open spec fn first_fetch_step_for(n: nat) -> FetchStep {
    if n > 0 {
        FetchStep::TrySource(0)
    } else {
        FetchStep::Failed(MetadataFetchError::NoSourcesAvailable)
    }
}

/// The step after source `tried` (of `n`) answered or failed.
pub open spec fn fetch_step_after(n: nat, tried: nat, succeeded: bool) -> FetchStep {
    if succeeded {
        FetchStep::Finished
    } else if tried + 1 == n {
        FetchStep::Failed(MetadataFetchError::AllSourcesFailed)
    } else {
        FetchStep::TrySource((tried + 1) as usize)
    }
}

/// Where the plan for `n` sources ends from `step`, when source `i` succeeds exactly when
/// `outcomes[i]`, taking at most `fuel` more steps.
pub open spec fn fetch_plan_end(n: nat, outcomes: Seq<bool>, step: FetchStep, fuel: nat) -> FetchStep
    decreases fuel,
{
    match step {
        FetchStep::TrySource(i) => if fuel == 0 || i >= n {
            step
        } else {
            fetch_plan_end(n, outcomes, fetch_step_after(n, i as nat, outcomes[i as int]), (fuel - 1) as nat)
        },
        _ => step,
    }
}

/// How many sources the plan fetches from before it ends, from `step` with `fuel` steps.
pub open spec fn fetch_plan_attempts(n: nat, outcomes: Seq<bool>, step: FetchStep, fuel: nat) -> nat
    decreases fuel,
{
    match step {
        FetchStep::TrySource(i) => if fuel == 0 || i >= n {
            0
        } else {
            1 + fetch_plan_attempts(n, outcomes, fetch_step_after(n, i as nat, outcomes[i as int]), (fuel - 1) as nat)
        },
        _ => 0,
    }
}

/// Fetches metadata from public sources, trying them in order.
pub struct MetadataUpdater {
    /// The source URLs, in order of preference.
    pub sources: Vec<String>,
}

impl MetadataUpdater {
    /// An updater over the LiteLLM table on GitHub, with the jsDelivr mirror as fallback.
    pub fn new() -> (r: MetadataUpdater)
        ensures
            strs_view(r.sources@) == metadata_sources(),
    {
        let mut sources: Vec<String> = Vec::new();
        sources.push(String::from_str("https://raw.githubusercontent.com/BerriAI/litellm/main/model_prices_and_context_window.json"));
        sources.push(String::from_str("https://cdn.jsdelivr.net/gh/BerriAI/litellm@main/model_prices_and_context_window.json"));
        assert(strs_view(sources@) =~= metadata_sources());
        MetadataUpdater { sources }
    }

    /// The first step of a fetch: the first source, or failure when there is none.
    pub fn first_fetch_step(&self) -> (r: FetchStep)
        ensures
            r == first_fetch_step_for(self.sources@.len()),
    {
        if self.sources.len() > 0 {
            FetchStep::TrySource(0)
        } else {
            FetchStep::Failed(MetadataFetchError::NoSourcesAvailable)
        }
    }

    /// The step after the source at index `tried` succeeded or failed: stop on success,
    /// give up after the last source, otherwise go on with the next one.
    pub fn next_fetch_step(&self, tried: usize, succeeded: bool) -> (r: FetchStep)
        requires
            tried < self.sources@.len(),
        ensures
            r == fetch_step_after(self.sources@.len(), tried as nat, succeeded),
    {
        if succeeded {
            FetchStep::Finished
        } else if tried == self.sources.len() - 1 {
            FetchStep::Failed(MetadataFetchError::AllSourcesFailed)
        } else {
            FetchStep::TrySource(tried + 1)
        }
    }
}

impl Default for MetadataUpdater {
    /// The same updater as `MetadataUpdater::new`.
    fn default() -> (r: MetadataUpdater)
        ensures
            strs_view(r.sources@) == metadata_sources(),
    {
        MetadataUpdater::new()
    }
}

/// Index of the first source that succeeds, searching from `from`.
pub open spec fn first_success_from(outcomes: Seq<bool>, from: nat) -> Option<nat>
    decreases outcomes.len() - from,
{
    if from >= outcomes.len() {
        None
    } else if outcomes[from as int] {
        Some(from)
    } else {
        first_success_from(outcomes, from + 1)
    }
}

/// The first success found from `from` on is at or after `from`.
proof fn lemma_first_success_bound(outcomes: Seq<bool>, from: nat)
    ensures
        first_success_from(outcomes, from) matches Some(k) ==> from <= k < outcomes.len(),
    decreases outcomes.len() - from,
{
    if from < outcomes.len() && !outcomes[from as int] {
        lemma_first_success_bound(outcomes, from + 1);
    }
}

/// Fetching works through the sources in order: it ends as soon as one succeeds, after
/// fetching from exactly the sources up to and including that one; when none succeeds it
/// has fetched from every source and fails, with `NoSourcesAvailable` when there are none.
pub proof fn lemma_fetch_plan(n: nat, outcomes: Seq<bool>)
    requires
        outcomes.len() == n,
        n <= usize::MAX,
    ensures
        fetch_plan_end(n, outcomes, first_fetch_step_for(n), n) == match first_success_from(outcomes, 0) {
            Some(_) => FetchStep::Finished,
            None => if n == 0 {
                FetchStep::Failed(MetadataFetchError::NoSourcesAvailable)
            } else {
                FetchStep::Failed(MetadataFetchError::AllSourcesFailed)
            },
        },
        fetch_plan_attempts(n, outcomes, first_fetch_step_for(n), n) == match first_success_from(outcomes, 0) {
            Some(k) => k + 1,
            None => n,
        },
{
    if n > 0 {
        lemma_fetch_plan_from(n, outcomes, 0);
    }
}

/// From source `i` on, with `n - i` steps of fuel, the plan ends as `lemma_fetch_plan` says.
proof fn lemma_fetch_plan_from(n: nat, outcomes: Seq<bool>, i: nat)
    requires
        outcomes.len() == n,
        n <= usize::MAX,
        i < n,
    ensures
        fetch_plan_end(n, outcomes, FetchStep::TrySource(i as usize), (n - i) as nat) == match first_success_from(outcomes, i) {
            Some(_) => FetchStep::Finished,
            None => FetchStep::Failed(MetadataFetchError::AllSourcesFailed),
        },
        fetch_plan_attempts(n, outcomes, FetchStep::TrySource(i as usize), (n - i) as nat) == match first_success_from(outcomes, i) {
            Some(k) => (k + 1 - i) as nat,
            None => (n - i) as nat,
        },
    decreases n - i,
{
    let step = FetchStep::TrySource(i as usize);
    assert((i as usize) as nat == i);
    let next = fetch_step_after(n, i, outcomes[i as int]);
    assert(fetch_plan_end(n, outcomes, step, (n - i) as nat) == fetch_plan_end(n, outcomes, next, (n - i - 1) as nat));
    assert(fetch_plan_attempts(n, outcomes, step, (n - i) as nat) == 1 + fetch_plan_attempts(n, outcomes, next, (n - i - 1) as nat));
    if outcomes[i as int] {
        assert(first_success_from(outcomes, i) == Some(i));
    } else {
        assert(first_success_from(outcomes, i) == first_success_from(outcomes, i + 1));
        if i + 1 < n {
            assert(((i + 1) as usize) as nat == i + 1);
            lemma_fetch_plan_from(n, outcomes, i + 1);
            lemma_first_success_bound(outcomes, i + 1);
        } else {
            assert(first_success_from(outcomes, i + 1) == None::<nat>);
        }
    }
}

} // verus!
