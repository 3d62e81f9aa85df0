use blaze_api::{ApiRequest, ErrorResponse};

#[test]
fn test_simple_request() {
    let req = ApiRequest::simple("Hello, world!");
    assert_eq!(req.input, Some("Hello, world!".to_string()));
    assert!(req.body.is_none());
}

#[test]
fn test_build_llm_body() {
    let req = ApiRequest::simple("Test input");
    let body_text = req.build_llm_body(Some("gpt-4"));
    let body: serde_json::Value = serde_json::from_str(&body_text).unwrap();

    assert_eq!(body["model"], "gpt-4");
    assert_eq!(body["messages"][0]["content"], "Test input");
}

#[test]
fn test_custom_body() {
    let custom = "{\"custom\":\"data\"}".to_string();
    let req = ApiRequest::with_body(custom.clone());
    let body_text = req.build_llm_body(Some("gpt-4"));

    assert_eq!(body_text, custom);
}

#[test]
fn test_error_response() {
    let req = ApiRequest::simple("Test");
    let err = ErrorResponse::new(&req, "Connection refused".to_string(), 3);

    assert_eq!(err.error, "Connection refused");
    assert_eq!(err.attempts, 3);
}

#[test]
fn build_llm_body_escapes_input() {
    let req = ApiRequest::simple("he said \"hi\"\nthen left\\");
    let body_text = req.build_llm_body(None);
    let body: serde_json::Value = serde_json::from_str(&body_text).unwrap();
    assert_eq!(body["messages"][0]["role"], "user");
    assert_eq!(body["messages"][0]["content"], "he said \"hi\"\nthen left\\");
    assert!(body.get("model").is_none());
}

#[test]
fn build_llm_body_without_input_sends_empty_content() {
    let req = ApiRequest {
        input: None,
        body: None,
        headers: None,
        metadata: Vec::new(),
        line_number: 7,
    };
    let body_text = req.build_llm_body(None);
    let body: serde_json::Value = serde_json::from_str(&body_text).unwrap();
    assert_eq!(body["messages"][0]["content"], "");
}

#[test]
fn display_input_truncates_long_text() {
    let long = "x".repeat(60);
    let req = ApiRequest::simple(&long);
    let shown = req.display_input();
    assert_eq!(shown, format!("{}...", "x".repeat(50)));

    let short = ApiRequest::simple("short");
    assert_eq!(short.display_input(), "short");

    let custom = ApiRequest::with_body("{}".to_string());
    assert_eq!(custom.display_input(), "[custom body]");
}
