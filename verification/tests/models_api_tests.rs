use kiro_rs::models_api::{
    api_base, build_list_models_request, check_list_models_status, list_models_url,
    profile_arn_param, region_for_listing, ListModelsRequest, ModelsApiConfig, ModelsApiCredential,
    ModelsApiError, KIRO_API_BASE,
};

fn header<'a>(req: &'a ListModelsRequest, name: &str) -> Option<&'a str> {
    req.headers.iter().find(|(n, _)| n == name).map(|(_, v)| v.as_str())
}

fn oauth_credential(profile_arn: Option<&str>, region: Option<&str>) -> ModelsApiCredential {
    ModelsApiCredential {
        is_api_key: false,
        kiro_api_key: None,
        access_token: Some("test-token".to_string()),
        profile_arn: profile_arn.map(|s| s.to_string()),
        region: region.map(|s| s.to_string()),
        api_region: None,
        machine_id: None,
    }
}

fn config() -> ModelsApiConfig {
    ModelsApiConfig {
        region: "us-east-1".to_string(),
        api_region: None,
        machine_id: Some("machine".to_string()),
        system_version: "linux".to_string(),
        node_version: "22.0.0".to_string(),
        kiro_version: "0.9.2".to_string(),
    }
}

#[test]
fn test_url_construction() {
    let url = format!(
        "{}/ListAvailableModels?origin=AI_EDITOR&maxResults=50",
        KIRO_API_BASE
    );
    assert!(url.contains("ListAvailableModels"));
    assert!(url.contains("maxResults=50"));
}

#[test]
fn test_profile_arn_encoding() {
    let profile_arn = "arn:aws:iam::123456789012:user/test";
    let encoded = profile_arn_param(&oauth_credential(Some(profile_arn), None));
    assert!(encoded.contains("%3A"));
    assert!(encoded.contains("%2F"));
}

#[test]
fn profile_arn_param_is_exact_percent_encoding() {
    let encoded = profile_arn_param(&oauth_credential(Some("arn:aws:x/y-z_1.2~3"), None));
    assert_eq!(encoded, "&profileArn=arn%3Aaws%3Ax%2Fy-z_1.2~3");
}

#[test]
fn profile_arn_param_empty_without_arn_or_for_api_keys() {
    assert_eq!(profile_arn_param(&oauth_credential(None, None)), "");
    let mut cred = oauth_credential(Some("arn:aws:codewhisperer:eu-west-1:1:profile/x"), None);
    cred.is_api_key = true;
    assert_eq!(profile_arn_param(&cred), "");
}

#[test]
fn api_base_by_region() {
    assert_eq!(api_base("us-east-1"), KIRO_API_BASE);
    assert_eq!(api_base("eu-central-1"), "https://q.eu-central-1.amazonaws.com");
}

#[test]
fn listing_url_appends_profile_part() {
    assert_eq!(
        list_models_url("https://h", "&profileArn=a"),
        "https://h/ListAvailableModels?origin=AI_EDITOR&maxResults=50&profileArn=a"
    );
}

#[test]
fn oauth_region_comes_from_profile_arn() {
    let cred = oauth_credential(Some("arn:aws:codewhisperer:eu-central-1:123:profile/abc"), Some("ap-south-1"));
    assert_eq!(region_for_listing(&cred, &config()), "eu-central-1");
}

#[test]
fn oauth_region_falls_back_to_credential_then_config() {
    let cred = oauth_credential(Some("arn:aws:codewhisperer::123:profile/abc"), Some("ap-south-1"));
    assert_eq!(region_for_listing(&cred, &config()), "ap-south-1");
    let cred = oauth_credential(Some("arn:aws"), None);
    assert_eq!(region_for_listing(&cred, &config()), "us-east-1");
    let mut cfg = config();
    cfg.api_region = Some("eu-west-3".to_string());
    assert_eq!(region_for_listing(&oauth_credential(None, None), &cfg), "eu-west-3");
}

#[test]
fn api_key_region_prefers_api_region() {
    let mut cred = oauth_credential(Some("arn:aws:codewhisperer:eu-central-1:1:p"), Some("ap-south-1"));
    cred.is_api_key = true;
    cred.kiro_api_key = Some("key".to_string());
    assert_eq!(region_for_listing(&cred, &config()), "ap-south-1");
    cred.api_region = Some("us-west-2".to_string());
    assert_eq!(region_for_listing(&cred, &config()), "us-west-2");
}

#[test]
fn request_for_oauth_credential() {
    let cred = oauth_credential(Some("arn:aws:codewhisperer:us-east-1:1:profile/p"), None);
    let req = build_list_models_request(&cred, &config()).unwrap();
    assert_eq!(
        req.url,
        "https://codewhisperer.us-east-1.amazonaws.com/ListAvailableModels?origin=AI_EDITOR&maxResults=50&profileArn=arn%3Aaws%3Acodewhisperer%3Aus-east-1%3A1%3Aprofile%2Fp"
    );
    assert_eq!(header(&req, "Authorization"), Some("Bearer test-token"));
    assert_eq!(req.region, "us-east-1");
    assert_eq!(
        header(&req, "User-Agent"),
        Some("aws-sdk-js/1.0.0 ua/2.1 os/linux lang/js md/nodejs#22.0.0 api/codewhispererruntime#1.0.0 m/N,E KiroIDE-0.9.2-machine")
    );
    assert_eq!(header(&req, "x-amz-user-agent"), Some("aws-sdk-js/1.0.0 KiroIDE-0.9.2-machine"));
    assert_eq!(header(&req, "Accept"), Some("application/json"));
    assert_eq!(header(&req, "x-amzn-codewhisperer-optout"), Some("true"));
    assert_eq!(header(&req, "tokentype"), None);
    assert_eq!(req.headers.len(), 5);
}

#[test]
fn request_for_api_key_credential() {
    let mut cred = oauth_credential(None, Some("eu-west-1"));
    cred.is_api_key = true;
    cred.kiro_api_key = Some("ksk_123".to_string());
    cred.machine_id = Some("m1".to_string());
    let req = build_list_models_request(&cred, &config()).unwrap();
    assert_eq!(req.url, "https://q.eu-west-1.amazonaws.com/ListAvailableModels?origin=AI_EDITOR&maxResults=50");
    assert_eq!(header(&req, "Authorization"), Some("Bearer ksk_123"));
    assert_eq!(header(&req, "tokentype"), Some("API_KEY"));
    assert_eq!(header(&req, "x-amz-user-agent"), Some("aws-sdk-js/1.0.0 KiroIDE-0.9.2-m1"));
    assert_eq!(req.headers.len(), 6);
}

#[test]
fn request_without_token_fails() {
    let mut cred = oauth_credential(None, None);
    cred.access_token = None;
    assert!(matches!(build_list_models_request(&cred, &config()), Err(ModelsApiError::MissingAccessToken)));
    cred.is_api_key = true;
    assert!(matches!(build_list_models_request(&cred, &config()), Err(ModelsApiError::MissingApiKey)));
}

#[test]
fn status_check() {
    assert!(check_list_models_status(200, String::new()).is_ok());
    assert!(check_list_models_status(299, String::new()).is_ok());
    match check_list_models_status(403, "denied".to_string()) {
        Err(ModelsApiError::RequestFailed { status, body }) => {
            assert_eq!(status, 403);
            assert_eq!(body, "denied");
        }
        _ => panic!("expected a failure"),
    }
    assert!(check_list_models_status(199, String::new()).is_err());
}
