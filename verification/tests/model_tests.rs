use kiro_rs::metadata::FetchedMetadata;
use kiro_rs::model::{EnrichedModel, ModelInfo, TokenLimits};

fn model_info_from_json(json: &str) -> ModelInfo {
    let v: serde_json::Value = serde_json::from_str(json).unwrap();
    ModelInfo {
        model_id: v["modelId"].as_str().unwrap().to_string(),
        model_name: v["modelName"].as_str().unwrap().to_string(),
        description: v["description"].as_str().unwrap_or("").to_string(),
        input_types: v["supportedInputTypes"]
            .as_array()
            .map(|a| a.iter().map(|t| t.as_str().unwrap().to_string()).collect())
            .unwrap_or_default(),
        rate_multiplier_bits: v["rateMultiplier"].as_f64().unwrap_or(0.0).to_bits(),
        token_limits: v["tokenLimits"].as_object().map(|t| TokenLimits {
            max_input_tokens: t["maxInputTokens"].as_i64().unwrap() as i32,
            max_output_tokens: t["maxOutputTokens"].as_i64().unwrap() as i32,
        }),
    }
}

#[test]
fn test_model_info_deserialization() {
    let json = r#"{
            "modelId": "vendor-opus-4.8",
            "modelName": "Vendor Opus 4.8",
            "description": "Most capable model",
            "supportedInputTypes": ["text", "image"],
            "rateMultiplier": 1.0,
            "tokenLimits": {
                "maxInputTokens": 200000,
                "maxOutputTokens": 16384
            }
        }"#;

    let model: ModelInfo = model_info_from_json(json);
    assert_eq!(model.model_id, "vendor-opus-4.8");
    assert!(model.supports_image());
}

#[test]
fn test_model_info_without_optional_fields() {
    let json = r#"{
            "modelId": "test-model",
            "modelName": "Test Model"
        }"#;

    let model: ModelInfo = model_info_from_json(json);
    assert_eq!(model.model_id, "test-model");
    assert_eq!(model.description, "");
    assert_eq!(model.input_types.len(), 0);
}

fn info(types: &[&str]) -> ModelInfo {
    ModelInfo {
        model_id: "m".to_string(),
        model_name: "M".to_string(),
        description: String::new(),
        input_types: types.iter().map(|s| s.to_string()).collect(),
        rate_multiplier_bits: 0,
        token_limits: None,
    }
}

#[test]
fn supports_image_is_case_insensitive_and_knows_vision() {
    assert!(info(&["TEXT", "IMAGE"]).supports_image());
    assert!(info(&["Vision_Input"]).supports_image());
    assert!(!info(&["text", "audio"]).supports_image());
    assert!(!info(&[]).supports_image());
}

#[test]
fn test_build_input_modalities() {
    let modalities = EnrichedModel::build_input_modalities(true);
    assert_eq!(modalities.len(), 2);
    assert_eq!(modalities[0], "text");
    assert_eq!(modalities[1], "image");

    let modalities = EnrichedModel::build_input_modalities(false);
    assert_eq!(modalities.len(), 1);
    assert_eq!(modalities[0], "text");
}

#[test]
fn test_fetched_metadata_creation() {
    let metadata = FetchedMetadata {
        context_window: Some(8192),
        max_output_tokens: Some(4096),
        supports_vision: false,
    };

    assert_eq!(metadata.context_window, Some(8192));
    assert_eq!(metadata.max_output_tokens, Some(4096));
    assert!(!metadata.supports_vision);
}
