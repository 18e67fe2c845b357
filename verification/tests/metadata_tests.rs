use kiro_rs::metadata::{
    fetched_from_litellm, metadata_from_litellm, FetchStep, FetchedMetadata, LiteLLMModelData,
    MetadataFetchError, MetadataMap, MetadataUpdater,
};

fn entry(max: Option<i32>, input: Option<i32>, output: Option<i32>, vision: Option<bool>) -> LiteLLMModelData {
    LiteLLMModelData {
        max_tokens: max,
        max_input_tokens: input,
        max_output_tokens: output,
        supports_vision: vision,
        supports_function_calling: None,
    }
}

#[test]
fn test_metadata_updater_creation() {
    let updater = MetadataUpdater::new();
    assert!(!updater.sources.is_empty());
    assert!(updater.sources[0].contains("litellm"));
}

#[test]
fn default_updater_has_both_sources() {
    let updater = MetadataUpdater::default();
    assert_eq!(updater.sources.len(), 2);
    assert!(updater.sources[1].contains("jsdelivr"));
}

#[test]
fn litellm_entry_prefers_specific_limits() {
    assert_eq!(
        fetched_from_litellm(entry(Some(100), Some(200), Some(50), Some(true))),
        Some(FetchedMetadata { context_window: Some(200), max_output_tokens: Some(50), supports_vision: true })
    );
    assert_eq!(
        fetched_from_litellm(entry(Some(100), None, None, None)),
        Some(FetchedMetadata { context_window: Some(100), max_output_tokens: Some(100), supports_vision: false })
    );
    assert_eq!(
        fetched_from_litellm(entry(None, None, Some(7), None)),
        Some(FetchedMetadata { context_window: None, max_output_tokens: Some(7), supports_vision: false })
    );
}

#[test]
fn litellm_entry_without_limits_is_dropped() {
    assert_eq!(fetched_from_litellm(entry(None, None, None, Some(true))), None);
}

#[test]
fn metadata_map_keeps_entries_with_limits() {
    let map = metadata_from_litellm(vec![
        ("a".to_string(), entry(Some(1), None, None, None)),
        ("b".to_string(), entry(None, None, None, None)),
    ]);
    assert_eq!(map.get("a").map(|m| m.context_window), Some(Some(1)));
    assert_eq!(map.get("b"), None);
    assert_eq!(map.get("c"), None);
}

#[test]
fn metadata_map_last_insert_wins() {
    let mut map = MetadataMap::new();
    let first = FetchedMetadata { context_window: Some(1), max_output_tokens: None, supports_vision: false };
    let second = FetchedMetadata { context_window: Some(2), max_output_tokens: None, supports_vision: true };
    map.insert("m".to_string(), first);
    map.insert("m".to_string(), second);
    assert_eq!(map.get("m"), Some(second));
}

#[test]
fn fetch_plan_tries_sources_in_order() {
    let updater = MetadataUpdater::new();
    assert_eq!(updater.first_fetch_step(), FetchStep::TrySource(0));
    assert_eq!(updater.next_fetch_step(0, false), FetchStep::TrySource(1));
    assert_eq!(updater.next_fetch_step(0, true), FetchStep::Finished);
    assert_eq!(updater.next_fetch_step(1, false), FetchStep::Failed(MetadataFetchError::AllSourcesFailed));
    let empty = MetadataUpdater { sources: Vec::new() };
    assert_eq!(empty.first_fetch_step(), FetchStep::Failed(MetadataFetchError::NoSourcesAvailable));
}
