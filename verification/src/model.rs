//! The model records: what the ListAvailableModels API returns, the static metadata that
//! completes it, and the enriched record the gateway publishes.

use vstd::prelude::*;
use crate::text::{contains_text, lowercase, text_contains, text_eq, to_lowercase};

verus! {

/// The views of a sequence of owned texts.
pub open spec fn strs_view(v: Seq<String>) -> Seq<Seq<char>> {
    v.map_values(|s: String| s@)
}

/// Token limits the API reports for a model.
#[derive(Clone, Copy, Debug, PartialEq, Eq)]
pub struct TokenLimits {
    pub max_input_tokens: i32,
    pub max_output_tokens: i32,
}

/// A model as the ListAvailableModels API reports it.
///
/// `rate_multiplier_bits` holds the IEEE-754 bit pattern of the API's floating-point
/// rate multiplier; the catalogue only carries it.
pub struct ModelInfo {
    pub model_id: String,
    pub model_name: String,
    pub description: String,
    pub input_types: Vec<String>,
    pub rate_multiplier_bits: u64,
    pub token_limits: Option<TokenLimits>,
}

/// The mathematical content of a `ModelInfo`.
pub struct ModelInfoView {
    pub model_id: Seq<char>,
    pub model_name: Seq<char>,
    pub description: Seq<char>,
    pub input_types: Seq<Seq<char>>,
    pub rate_multiplier_bits: u64,
    pub token_limits: Option<TokenLimits>,
}

impl View for ModelInfo {
    type V = ModelInfoView;

    open spec fn view(&self) -> ModelInfoView {
        ModelInfoView {
            model_id: self.model_id@,
            model_name: self.model_name@,
            description: self.description@,
            input_types: strs_view(self.input_types@),
            rate_multiplier_bits: self.rate_multiplier_bits,
            token_limits: self.token_limits,
        }
    }
}

/// An input type that names image input: its lower-case form mentions "image" or "vision".
pub open spec fn is_image_input_type(t: Seq<char>) -> bool {
    contains_text(lowercase(t), "image"@) || contains_text(lowercase(t), "vision"@)
}

/// Some input type of the list names image input.
pub open spec fn any_image_input_type(types: Seq<Seq<char>>) -> bool {
    exists|i: int| 0 <= i < types.len() && is_image_input_type(#[trigger] types[i])
}

impl ModelInfo {
    /// A copy of this record.
    pub fn duplicate(&self) -> (r: ModelInfo)
        ensures
            r@ == self@,
    {
        ModelInfo {
            model_id: self.model_id.clone(),
            model_name: self.model_name.clone(),
            description: self.description.clone(),
            input_types: clone_strings(&self.input_types),
            rate_multiplier_bits: self.rate_multiplier_bits,
            token_limits: self.token_limits,
        }
    }

    /// Whether the model accepts images: some input type, lower-cased, mentions
    /// "image" or "vision".
    pub fn supports_image(&self) -> (r: bool)
        ensures
            r == any_image_input_type(self@.input_types),
    {
        let n = self.input_types.len();
        let mut i: usize = 0;
        while i < n
            invariant
                n == self.input_types@.len(),
                i <= n,
                forall|k: int| 0 <= k < i ==> !is_image_input_type(#[trigger] self@.input_types[k]),
            decreases n - i,
        {
            let lower = to_lowercase(self.input_types[i].as_str());
            assert(self@.input_types[i as int] == self.input_types@[i as int]@);
            if text_contains(lower.as_str(), "image") || text_contains(lower.as_str(), "vision") {
                assert(is_image_input_type(self@.input_types[i as int]));
                return true;
            }
            i = i + 1;
        }
        false
    }
}

/// Prices per million tokens, each held as the IEEE-754 bit pattern of the configured
/// floating-point value; the catalogue only carries them.
#[derive(Clone, Copy, Debug, PartialEq, Eq)]
pub struct PricingInfo {
    pub input_per_1m_bits: u64,
    pub output_per_1m_bits: u64,
    pub cache_write_per_1m_bits: Option<u64>,
    pub cache_read_per_1m_bits: Option<u64>,
}

/// Static metadata that completes what the API reports for a model.
pub struct ModelMetadata {
    pub model_id: String,
    pub display_name: String,
    pub context_window: i32,
    pub max_output_tokens: i32,
    pub pricing: Option<PricingInfo>,
    pub model_type: String,
    pub created: i64,
}

/// The mathematical content of a `ModelMetadata`.
pub struct ModelMetadataView {
    pub model_id: Seq<char>,
    pub display_name: Seq<char>,
    pub context_window: i32,
    pub max_output_tokens: i32,
    pub pricing: Option<PricingInfo>,
    pub model_type: Seq<char>,
    pub created: i64,
}

impl View for ModelMetadata {
    type V = ModelMetadataView;

    open spec fn view(&self) -> ModelMetadataView {
        ModelMetadataView {
            model_id: self.model_id@,
            display_name: self.display_name@,
            context_window: self.context_window,
            max_output_tokens: self.max_output_tokens,
            pricing: self.pricing,
            model_type: self.model_type@,
            created: self.created,
        }
    }
}

/// The static metadata set the gateway ships with.
pub struct StaticMetadataCollection {
    pub models: Vec<ModelMetadata>,
}

/// A model as the gateway publishes it: the API's record completed with static metadata.
pub struct EnrichedModel {
    pub id: String,
    pub object: String,
    pub created: i64,
    pub owned_by: String,
    pub display_name: String,
    pub model_type: String,
    pub max_tokens: i32,
    pub context_window: i32,
    pub supports_image: bool,
    pub input_modalities: Vec<String>,
    pub pricing: Option<PricingInfo>,
    pub available_accounts: Vec<String>,
}

/// The mathematical content of an `EnrichedModel`.
pub struct EnrichedModelView {
    pub id: Seq<char>,
    pub object: Seq<char>,
    pub created: i64,
    pub owned_by: Seq<char>,
    pub display_name: Seq<char>,
    pub model_type: Seq<char>,
    pub max_tokens: i32,
    pub context_window: i32,
    pub supports_image: bool,
    pub input_modalities: Seq<Seq<char>>,
    pub pricing: Option<PricingInfo>,
    pub available_accounts: Seq<Seq<char>>,
}

impl View for EnrichedModel {
    type V = EnrichedModelView;

    open spec fn view(&self) -> EnrichedModelView {
        EnrichedModelView {
            id: self.id@,
            object: self.object@,
            created: self.created,
            owned_by: self.owned_by@,
            display_name: self.display_name@,
            model_type: self.model_type@,
            max_tokens: self.max_tokens,
            context_window: self.context_window,
            supports_image: self.supports_image,
            input_modalities: strs_view(self.input_modalities@),
            pricing: self.pricing,
            available_accounts: strs_view(self.available_accounts@),
        }
    }
}

/// The views of a list of published records.
pub open spec fn enriched_views(v: Seq<EnrichedModel>) -> Seq<EnrichedModelView> {
    v.map_values(|m: EnrichedModel| m@)
}

/// The views of a list of static metadata entries.
pub open spec fn metadata_views(v: Seq<ModelMetadata>) -> Seq<ModelMetadataView> {
    v.map_values(|m: ModelMetadata| m@)
}

/// The input modalities of a model: always text, and image when it accepts images.
pub open spec fn input_modalities_for(supports_image: bool) -> Seq<Seq<char>> {
    if supports_image {
        seq!["text"@, "image"@]
    } else {
        seq!["text"@]
    }
}

/// A copy of a list of texts.
pub fn clone_strings(v: &Vec<String>) -> (r: Vec<String>)
    ensures
        strs_view(r@) == strs_view(v@),
{
    let mut out: Vec<String> = Vec::new();
    let n = v.len();
    let mut i: usize = 0;
    while i < n
        invariant
            n == v@.len(),
            i <= n,
            strs_view(out@) == strs_view(v@.subrange(0, i as int)),
        decreases n - i,
    {
        out.push(v[i].clone());
        proof {
            assert(strs_view(v@.subrange(0, i as int + 1)) =~= strs_view(v@.subrange(0, i as int)).push(v@[i as int]@));
            assert(strs_view(out@) =~= strs_view(v@.subrange(0, i as int)).push(v@[i as int]@));
        }
        i = i + 1;
    }
    assert(v@.subrange(0, n as int) =~= v@);
    out
}

/// Whether `t` is one of the texts in `v`.
pub fn vec_contains_text(v: &Vec<String>, t: &str) -> (r: bool)
    ensures
        r == strs_view(v@).contains(t@),
{
    let n = v.len();
    let mut i: usize = 0;
    while i < n
        invariant
            n == v@.len(),
            i <= n,
            forall|k: int| 0 <= k < i ==> v@[k]@ != t@,
        decreases n - i,
    {
        if text_eq(v[i].as_str(), t) {
            assert(strs_view(v@)[i as int] == t@);
            return true;
        }
        i = i + 1;
    }
    assert forall|k: int| 0 <= k < strs_view(v@).len() implies strs_view(v@)[k] != t@ by {
        assert(strs_view(v@)[k] == v@[k]@);
    }
    false
}

impl EnrichedModel {
    /// The input modalities for a model: `["text"]`, followed by `"image"` when the model
    /// accepts images.
    pub fn build_input_modalities(supports_image: bool) -> (r: Vec<String>)
        ensures
            strs_view(r@) == input_modalities_for(supports_image),
    {
        let mut modalities: Vec<String> = Vec::new();
        modalities.push(String::from_str("text"));
        if supports_image {
            modalities.push(String::from_str("image"));
        }
        assert(strs_view(modalities@) =~= input_modalities_for(supports_image));
        modalities
    }

    /// A copy of this record.
    pub fn duplicate(&self) -> (r: EnrichedModel)
        ensures
            r@ == self@,
    {
        EnrichedModel {
            id: self.id.clone(),
            object: self.object.clone(),
            created: self.created,
            owned_by: self.owned_by.clone(),
            display_name: self.display_name.clone(),
            model_type: self.model_type.clone(),
            max_tokens: self.max_tokens,
            context_window: self.context_window,
            supports_image: self.supports_image,
            input_modalities: clone_strings(&self.input_modalities),
            pricing: self.pricing,
            available_accounts: clone_strings(&self.available_accounts),
        }
    }
}

} // verus!
