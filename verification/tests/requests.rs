use modkist::modio_api::{request_params, sends_form_content_type, RequestPacer, MIN_REQUEST_INTERVAL_MS};

#[test]
fn api_key_only_without_token() {
    let query = vec![("_limit".to_string(), "10".to_string())];
    assert_eq!(request_params(&query, true, "k"), query);
    assert_eq!(
        request_params(&query, false, "k"),
        vec![("_limit".to_string(), "10".to_string()), ("api_key".to_string(), "k".to_string())]
    );
}

#[test]
fn writes_carry_form_content_type() {
    assert!(sends_form_content_type("POST", false));
    assert!(sends_form_content_type("DELETE", false));
    assert!(sends_form_content_type("GET", true));
    assert!(!sends_form_content_type("GET", false));
}

#[test]
fn requests_are_spaced_and_held_off() {
    let mut pacer = RequestPacer::new(1_000);
    assert_eq!(pacer.reserve(1_000), 0);
    assert_eq!(pacer.reserve(1_000), MIN_REQUEST_INTERVAL_MS);
    assert_eq!(pacer.reserve(5_000), 0);
    assert_eq!(pacer.next_request_at_ms, 5_000 + MIN_REQUEST_INTERVAL_MS);
    pacer.hold_off(5_000, 60);
    assert_eq!(pacer.next_request_at_ms, 65_000);
    pacer.hold_off(5_000, 1);
    assert_eq!(pacer.next_request_at_ms, 65_000);
    assert_eq!(pacer.reserve(6_000), 59_000);
}

#[test]
fn replies_are_success_for_2xx_and_rate_limits_hold_off() {
    use_reply();
}

fn use_reply() {
    let mut pacer = modkist::modio_api::RequestPacer::new(1_000);
    let ok = modkist::modio_api::after_response(&mut pacer, 1_000, 204, b"{}".to_vec(), None, None);
    assert_eq!(ok.ok(), Some(b"{}".to_vec()));
    assert_eq!(pacer.next_request_at_ms, 1_000);

    let err = modkist::modio_api::after_response(&mut pacer, 2_000, 404, vec![], None, None).unwrap_err();
    assert_eq!(err.status, Some(404));
    assert_eq!(err.message, "mod.io returned HTTP 404");
    assert_eq!(pacer.next_request_at_ms, 1_000);

    let limited = modkist::modio_api::after_response(&mut pacer, 2_000, 429, vec![], None, None).unwrap_err();
    assert_eq!(limited.status, Some(429));
    assert_eq!(pacer.next_request_at_ms, 62_000);

    let by_ref = modkist::modio_api::after_response(
        &mut pacer,
        3_000,
        400,
        vec![],
        Some((Some(11008), "Too many".to_string())),
        Some(120),
    )
    .unwrap_err();
    assert_eq!(by_ref.message, "Too many");
    assert_eq!(pacer.next_request_at_ms, 123_000);
}

#[test]
fn request_log_line_hides_secrets() {
    let params = vec![
        ("api_key".to_string(), "SECRET-REDACTED".to_string()),
        ("_limit".to_string(), "100".to_string()),
    ];
    let line = modkist::modio_api::request_log_line("GET", "https://g-1.modapi.io/v1/games/1/mods", &params, false, &None, "Modkist/1.0");
    assert_eq!(
        line,
        "mod.io -> GET https://g-1.modapi.io/v1/games/1/mods?api_key=***&_limit=100 (auth=api_key) headers=[Accept: application/json, X-Modio-Platform: windows, User-Agent: Modkist/1.0]"
    );
    let form = Some(vec![("rating".to_string(), "1".to_string())]);
    let line = modkist::modio_api::request_log_line("POST", "https://x/ratings", &Vec::new(), true, &form, "Modkist/1.0");
    assert_eq!(
        line,
        "mod.io -> POST https://x/ratings (auth=bearer) headers=[Accept: application/json, X-Modio-Platform: windows, User-Agent: Modkist/1.0, Authorization: Bearer ***, Content-Type: application/x-www-form-urlencoded] body=[rating=1]"
    );
}
