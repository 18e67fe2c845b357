use std::time::SystemTime;

use kiro_rs::metadata::{FetchedMetadata, MetadataMap};
use kiro_rs::model::{ModelInfo, ModelMetadata, PricingInfo, StaticMetadataCollection, TokenLimits};
use kiro_rs::model_service::{cache_is_fresh, CachedAccountList, ModelRefreshConfig, ModelService, TlsBackend};

fn test_config() -> ModelRefreshConfig {
    ModelRefreshConfig {
        enabled: false,
        interval_seconds: 3600,
        account_filter_cache_ttl_seconds: 300,
        tls_backend: TlsBackend::Rustls,
    }
}

fn empty_service() -> ModelService {
    ModelService::new(StaticMetadataCollection { models: Vec::new() }, test_config())
}

fn api_model(id: &str, types: &[&str], limits: Option<TokenLimits>) -> ModelInfo {
    ModelInfo {
        model_id: id.to_string(),
        model_name: format!("{} name", id),
        description: String::new(),
        input_types: types.iter().map(|s| s.to_string()).collect(),
        rate_multiplier_bits: 1.0f64.to_bits(),
        token_limits: limits,
    }
}

fn opus_metadata() -> ModelMetadata {
    ModelMetadata {
        model_id: "vendor-opus-4.8".to_string(),
        display_name: "Vendor Opus 4.8".to_string(),
        context_window: 200000,
        max_output_tokens: 16384,
        pricing: Some(PricingInfo {
            input_per_1m_bits: 15.0f64.to_bits(),
            output_per_1m_bits: 75.0f64.to_bits(),
            cache_write_per_1m_bits: Some(18.75f64.to_bits()),
            cache_read_per_1m_bits: Some(1.5f64.to_bits()),
        }),
        model_type: "chat".to_string(),
        created: 1779897600,
    }
}

fn sorted(mut v: Vec<String>) -> Vec<String> {
    v.sort();
    v
}

#[test]
fn test_cached_account_list() {
    let cached = CachedAccountList {
        account_ids: ["account1".to_string(), "account2".to_string()]
            .into_iter()
            .collect(),
        cached_at: SystemTime::now(),
    };

    assert_eq!(cached.account_ids.len(), 2);
}

#[test]
fn test_get_accounts_for_model_with_cache() {
    let cached = CachedAccountList {
        account_ids: ["1".to_string(), "2".to_string()].into_iter().collect(),
        cached_at: SystemTime::now(),
    };

    let elapsed = SystemTime::now()
        .duration_since(cached.cached_at)
        .unwrap();
    assert!(elapsed.as_secs() < 1);
}

#[test]
fn test_model_service_creation() {
    let service = empty_service();
    assert_eq!(service.config(), test_config());
}

#[test]
fn test_get_models_empty() {
    let service = empty_service();
    let models = service.get_models();
    assert_eq!(models.len(), 0);
}

#[test]
fn test_get_accounts_for_model_empty() {
    let mut service = empty_service();
    let accounts = service.get_accounts_for_model("vendor-sonnet-4");
    assert_eq!(accounts.len(), 0);
}

#[test]
fn test_get_accounts_for_model_cache() {
    let mut service = empty_service();

    let accounts1 = service.get_accounts_for_model("vendor-sonnet-4");
    assert_eq!(accounts1.len(), 0);

    let accounts2 = service.get_accounts_for_model("vendor-sonnet-4");
    assert_eq!(accounts2.len(), 0);
}

#[test]
fn test_clear_account_cache() {
    let mut service = empty_service();

    let _ = service.get_accounts_for_model("test-model");

    service.clear_account_cache();

    let accounts = service.get_accounts_for_model("test-model");
    assert_eq!(accounts.len(), 0);
}

#[test]
fn test_enrich_model() {
    let service = empty_service();

    let api_model = ModelInfo {
        model_id: "vendor-sonnet-4-20250514".to_string(),
        model_name: "Vendor Sonnet 4".to_string(),
        description: String::new(),
        input_types: Vec::new(),
        rate_multiplier_bits: 0,
        token_limits: None,
    };

    let enriched = service.enrich_model(&api_model, "1");

    assert_eq!(enriched.id, "vendor-sonnet-4-20250514");
    assert_eq!(enriched.available_accounts.len(), 1);
    assert_eq!(enriched.available_accounts[0], "1");
}

#[test]
fn enrich_model_without_metadata_uses_defaults() {
    let service = empty_service();
    let enriched = service.enrich_model(&api_model("x", &["TEXT"], None), "7");
    assert_eq!(enriched.object, "model");
    assert_eq!(enriched.owned_by, "anthropic");
    assert_eq!(enriched.display_name, "x name");
    assert_eq!(enriched.model_type, "chat");
    assert_eq!(enriched.created, 0);
    assert_eq!(enriched.max_tokens, 16384);
    assert_eq!(enriched.context_window, 200000);
    assert!(!enriched.supports_image);
    assert_eq!(enriched.input_modalities, vec!["text".to_string()]);
    assert_eq!(enriched.pricing, None);
}

#[test]
fn enrich_model_with_metadata() {
    let service = ModelService::new(StaticMetadataCollection { models: vec![opus_metadata()] }, test_config());
    let limits = TokenLimits { max_input_tokens: 1000, max_output_tokens: 999 };
    let enriched = service.enrich_model(&api_model("vendor-opus-4.8", &["text", "image"], Some(limits)), "3");
    assert_eq!(enriched.display_name, "Vendor Opus 4.8");
    assert_eq!(enriched.created, 1779897600);
    assert_eq!(enriched.max_tokens, 999);
    assert_eq!(enriched.context_window, 200000);
    assert!(enriched.supports_image);
    assert_eq!(enriched.input_modalities, vec!["text".to_string(), "image".to_string()]);
    assert_eq!(enriched.pricing.map(|p| f64::from_bits(p.input_per_1m_bits)), Some(15.0));

    let enriched = service.enrich_model(&api_model("vendor-opus-4.8", &[], None), "3");
    assert_eq!(enriched.max_tokens, 16384);
}

#[test]
fn later_metadata_entry_wins() {
    let mut second = opus_metadata();
    second.display_name = "Second".to_string();
    let service = ModelService::new(StaticMetadataCollection { models: vec![opus_metadata(), second] }, test_config());
    let enriched = service.enrich_model(&api_model("vendor-opus-4.8", &[], None), "3");
    assert_eq!(enriched.display_name, "Second");
}

#[test]
fn recording_models_merges_catalogue_and_accounts() {
    let mut service = empty_service();
    let n = service.record_account_models(1, &vec![api_model("a", &[], None), api_model("b", &[], None)]);
    assert_eq!(n, 2);
    service.record_account_models(22, &vec![api_model("b", &[], None), api_model("c", &[], None)]);

    let models = service.get_models();
    let ids: Vec<&str> = models.iter().map(|m| m.id.as_str()).collect();
    assert_eq!(ids, vec!["a", "b", "c"]);
    assert_eq!(models[1].available_accounts, vec!["1".to_string(), "22".to_string()]);

    assert_eq!(sorted(service.get_accounts_for_model("b")), vec!["1".to_string(), "22".to_string()]);
    assert_eq!(service.get_accounts_for_model("a"), vec!["1".to_string()]);
    assert_eq!(service.get_accounts_for_model("zzz"), Vec::<String>::new());
}

#[test]
fn recording_same_models_twice_changes_nothing() {
    let mut service = empty_service();
    let list = vec![api_model("a", &[], None), api_model("a", &[], None)];
    service.record_account_models(5, &list);
    let once: Vec<(String, Vec<String>)> = service.get_models().into_iter().map(|m| (m.id, m.available_accounts)).collect();
    service.record_account_models(5, &list);
    let twice: Vec<(String, Vec<String>)> = service.get_models().into_iter().map(|m| (m.id, m.available_accounts)).collect();
    assert_eq!(once, twice);
    assert_eq!(once, vec![("a".to_string(), vec!["5".to_string()])]);
}

#[test]
fn re_recording_an_account_replaces_its_models_for_filtering() {
    let mut service = empty_service();
    service.record_account_models(1, &vec![api_model("a", &[], None)]);
    assert_eq!(service.get_accounts_for_model("a"), vec!["1".to_string()]);
    service.record_account_models(1, &vec![api_model("b", &[], None)]);
    assert_eq!(service.get_accounts_for_model("a"), Vec::<String>::new());
    assert_eq!(service.get_accounts_for_model("b"), vec!["1".to_string()]);
}

#[test]
fn full_refresh_with_no_success_keeps_old_catalogue() {
    let mut service = empty_service();
    service.record_account_models(1, &vec![api_model("a", &[], None)]);
    let saved = service.begin_full_refresh();
    assert_eq!(service.get_models().len(), 0);
    assert_eq!(service.get_accounts_for_model("a"), vec!["1".to_string()]);
    service.finish_full_refresh(saved, 1, 0);
    let ids: Vec<String> = service.get_models().into_iter().map(|m| m.id).collect();
    assert_eq!(ids, vec!["a".to_string()]);
}

#[test]
fn full_refresh_with_a_success_keeps_rebuilt_catalogue() {
    let mut service = empty_service();
    service.record_account_models(1, &vec![api_model("a", &[], None)]);
    let saved = service.begin_full_refresh();
    service.record_account_models(2, &vec![api_model("b", &[], None)]);
    service.finish_full_refresh(saved, 2, 1);
    let ids: Vec<String> = service.get_models().into_iter().map(|m| m.id).collect();
    assert_eq!(ids, vec!["b".to_string()]);
}

#[test]
fn full_refresh_with_no_enabled_account_empties_catalogue() {
    let mut service = empty_service();
    service.record_account_models(1, &vec![api_model("a", &[], None)]);
    let saved = service.begin_full_refresh();
    service.finish_full_refresh(saved, 0, 0);
    assert_eq!(service.get_models().len(), 0);
}

#[test]
fn account_models_are_those_last_recorded() {
    let mut service = empty_service();
    assert!(service.get_account_models("1").is_empty());
    service.record_account_models(1, &vec![api_model("a", &["text"], None), api_model("b", &[], None)]);
    let ids: Vec<String> = service.get_account_models("1").into_iter().map(|m| m.model_id).collect();
    assert_eq!(ids, vec!["a".to_string(), "b".to_string()]);
    service.record_account_models(1, &vec![api_model("c", &[], None)]);
    let ids: Vec<String> = service.get_account_models("1").into_iter().map(|m| m.model_id).collect();
    assert_eq!(ids, vec!["c".to_string()]);
    assert!(service.get_account_models("2").is_empty());
}

#[test]
fn zero_ttl_always_recomputes() {
    let mut cfg = test_config();
    cfg.account_filter_cache_ttl_seconds = 0;
    let mut service = ModelService::new(StaticMetadataCollection { models: Vec::new() }, cfg);
    let now = SystemTime::now();
    service.record_account_models(1, &vec![api_model("a", &[], None)]);
    assert_eq!(service.get_accounts_for_model_at("a", now), vec!["1".to_string()]);
    assert_eq!(service.get_accounts_for_model_at("a", now), vec!["1".to_string()]);
}

#[test]
fn cache_freshness_by_age() {
    assert!(cache_is_fresh(299, 300));
    assert!(!cache_is_fresh(300, 300));
    assert!(!cache_is_fresh(0, 0));
}

#[test]
fn fetched_metadata_fills_missing_limits_once() {
    let mut service = empty_service();
    let zero = Some(TokenLimits { max_input_tokens: 0, max_output_tokens: 0 });
    service.record_account_models(1, &vec![api_model("a", &[], zero), api_model("b", &[], None)]);
    let mut map = MetadataMap::new();
    map.insert("a".to_string(), FetchedMetadata { context_window: Some(64000), max_output_tokens: Some(8000), supports_vision: true });
    let updated = service.apply_fetched_metadata(&map);
    assert_eq!(updated, 1);
    let models = service.get_models();
    assert_eq!(models[0].max_tokens, 8000);
    assert_eq!(models[0].context_window, 200000);
    assert!(models[0].supports_image);
    assert_eq!(models[0].input_modalities, vec!["text".to_string(), "image".to_string()]);
    assert_eq!(service.apply_fetched_metadata(&map), 0);
}

