use talkkeeper_audio::external_stt::{
    check_length, connection_tested, describe_request_error, encode_wav_pcm16, extract_text,
    get_current_model, is_retryable, read_answer, read_response, request_parts, sent_language,
    snippet, value_at_path, ExternalSttConfig, ExternalSttMode, RequestFailure, RetryState,
};
use talkkeeper_audio::json::{parse_json, Json};

/// Samples at full scale, as they are converted before they are encoded.
fn pcm(samples: &[f32]) -> Vec<i16> {
    samples.iter().map(|s| (s.clamp(-1.0, 1.0) * i16::MAX as f32).round() as i16).collect()
}

#[test]
fn wav_header_describes_the_samples() {
    let wav = encode_wav_pcm16(&pcm(&[0.0, 1.0, -1.0]), 16_000);
    assert_eq!(&wav[0..4], b"RIFF");
    assert_eq!(&wav[8..12], b"WAVE");
    assert_eq!(wav.len(), 44 + 6);
    assert_eq!(i16::from_le_bytes([wav[48], wav[49]]), -i16::MAX);
    assert_eq!(u32::from_le_bytes([wav[4], wav[5], wav[6], wav[7]]), 42);
    assert_eq!(&wav[12..16], b"fmt ");
    assert_eq!(u32::from_le_bytes([wav[24], wav[25], wav[26], wav[27]]), 16_000);
    assert_eq!(u32::from_le_bytes([wav[28], wav[29], wav[30], wav[31]]), 32_000);
    assert_eq!(&wav[36..40], b"data");
    assert_eq!(u32::from_le_bytes([wav[40], wav[41], wav[42], wav[43]]), 6);
}

#[test]
fn text_is_read_from_the_configured_path() {
    assert_eq!(extract_text(r#"{"text":"привет"}"#, "text").unwrap(), "привет");
    assert_eq!(
        extract_text(r#"{"result":[{"text":"привет"}]}"#, "result.0.text").unwrap(),
        "привет"
    );
    assert_eq!(extract_text("plain answer", "text").unwrap(), "plain answer");
    assert!(extract_text(r#"{"other":1}"#, "text").is_err());
}

#[test]
fn segment_arrays_are_joined() {
    assert_eq!(extract_text(r#"{"segments":["раз","два"]}"#, "segments").unwrap(), "раз два");
    assert_eq!(extract_text(r#"{"s":["", 5, "два"]}"#, "s").unwrap(), " два");
}

#[test]
fn whatever_stands_at_the_path_is_read() {
    assert_eq!(extract_text("  \n ", "text").unwrap(), "");
    assert_eq!(extract_text(r#"{"text":null}"#, "text").unwrap(), "");
    assert_eq!(extract_text(r#"{"text": 12.50}"#, "text").unwrap(), "12.5");
    assert_eq!(extract_text(r#"{"text":true}"#, "text").unwrap(), "true");
    assert_eq!(extract_text(r#"{"text":{"b": 1, "a":[2]}}"#, " text ").unwrap(), r#"{"a":[2],"b":1}"#);
    assert_eq!(extract_text(r#""said""#, "").unwrap(), "said");
    assert_eq!(
        extract_text("{\"other\":\n1}", "text").unwrap_err(),
        "Response has no field 'text' (got: {\"other\": 1})"
    );
    assert!(extract_text(r#"{"r":[1]}"#, "r.1").is_err());
    assert!(extract_text(r#"{"r":[1]}"#, "r.x").is_err());
    assert_eq!(extract_text(r#"{"r":[1]}"#, "r.+0").unwrap(), "1");
}

#[test]
fn an_answer_that_was_parsed_is_read_the_same_way() {
    let parsed = Some(Json::Object(
        vec![("text".to_string(), Json::Text("words".to_string()))],
        String::new(),
    ));
    assert_eq!(read_answer("body", &parsed, "text").unwrap(), "words");
    assert_eq!(read_answer("body", &None, "text").unwrap(), "body");
    let tree = parse_json(r#"[null, 3]"#).unwrap();
    assert!(matches!(value_at_path(&tree, "1"), Some(Json::Number(written)) if written == "3"));
    assert!(value_at_path(&tree, "0.x").is_none());
    assert!(parse_json("not json").is_none());
}

#[test]
fn a_long_body_is_shortened() {
    assert_eq!(snippet("a\r\nb"), "a  b");
    let long = "я".repeat(201);
    assert_eq!(snippet(&long), format!("{}...", "я".repeat(200)));
    assert_eq!(snippet(&"я".repeat(200)), "я".repeat(200));
}

#[test]
fn empty_and_non_http_urls_are_rejected() {
    let mut config = ExternalSttConfig::default();
    assert!(config.validate().is_err());
    config.url = "127.0.0.1:8080".to_string();
    assert!(config.validate().is_err());
    config.url = "http://127.0.0.1:8080/asr".to_string();
    assert!(config.validate().is_ok());
    assert_eq!(config.display_name(), "127.0.0.1:8080");
    config.timeout_ms = 999;
    assert_eq!(config.validate().unwrap_err(), "Timeout must be at least 1000 ms");
    config.url = "  ".to_string();
    assert_eq!(config.validate().unwrap_err(), "Endpoint URL is not set");
    config.url = "ftp://x".to_string();
    assert_eq!(config.validate().unwrap_err(), "Endpoint URL must start with http:// or https://");
    config.url = " https://https://host:1/a/b ".to_string();
    assert_eq!(config.display_name(), "host:1");
    assert_eq!(get_current_model(&config), "host:1");
    config.model = Some("large".to_string());
    assert_eq!(get_current_model(&config), "large");
}

#[test]
fn a_request_holds_what_the_service_expects() {
    let mut config = ExternalSttConfig::default();
    config.url = " http://host/asr ".to_string();
    config.auth_token = Some("  token ".to_string());
    config.model = Some("   ".to_string());
    let parts = request_parts(&config, Some("ru".to_string()));
    assert_eq!(parts.url, "http://host/asr");
    assert_eq!(parts.bearer.as_deref(), Some("token"));
    let form = parts.form.unwrap();
    assert_eq!(form.file_field, "file");
    assert_eq!(form.model, None);
    assert_eq!(form.language, Some(("language".to_string(), "ru".to_string())));
    config.send_language = false;
    assert_eq!(request_parts(&config, Some("ru".to_string())).form.unwrap().language, None);
    config.mode = ExternalSttMode::Raw;
    assert!(request_parts(&config, None).form.is_none());
    assert_eq!(ExternalSttMode::default(), ExternalSttMode::Multipart);

    let some = |text: &str| Some(text.to_string());
    assert_eq!(sent_language(&some(" ru ")).as_deref(), Some("ru"));
    assert_eq!(sent_language(&some("auto")), None);
    assert_eq!(sent_language(&some("auto-translate")), None);
    assert_eq!(sent_language(&some(" ")), None);
    assert_eq!(sent_language(&None), None);
}

#[test]
fn a_failing_service_is_asked_again_and_a_bad_request_is_not() {
    assert_eq!(read_response(200, r#"{"text":"после сбоя"}"#, "text").unwrap(), "после сбоя");
    let (message, retry) = read_response(503, "busy", "text").unwrap_err();
    assert_eq!((message.as_str(), retry), ("Service answered 503: busy", true));
    let (message, retry) = read_response(400, "bad request", "text").unwrap_err();
    assert!(message.contains("400"));
    assert!(!retry);
    assert!(!read_response(200, "{}", "text").unwrap_err().1);

    let mut state = RetryState::new();
    assert_eq!(state.failed(true, 2), Some(400));
    assert_eq!(state.failed(true, 2), Some(1_200));
    assert_eq!(state.failed(true, 2), None);
    assert_eq!(RetryState::new().failed(false, 2), None);

    let failure = |timeout, connect, request| RequestFailure { timeout, connect, request };
    assert!(is_retryable(&failure(false, false, true)));
    assert!(!is_retryable(&failure(false, false, false)));
    assert_eq!(
        describe_request_error(&failure(true, true, false), "x"),
        "The speech service did not answer in time"
    );
    assert_eq!(
        describe_request_error(&failure(false, true, false), "x"),
        "Cannot reach the speech service - is it running?"
    );
    assert_eq!(
        describe_request_error(&failure(false, false, false), "x"),
        "Request to the speech service failed: x"
    );
    assert_eq!(check_length(3_199), Err((3_199, 3_200)));
    assert_eq!(check_length(3_200), Ok(()));
    let tested = connection_tested(" ok ", 12);
    assert!(tested.ok && tested.text == "ok" && tested.latency_ms == 12);
}
