use modkist::modio_api::{parse_retry_after_secs, ApiError, ModQuery};

#[test]
fn mod_query_serializes_all_params() {
    let query = ModQuery {
        search: Some("rogue".to_string()),
        tags: vec!["Plugin".to_string()],
        tags_in: vec!["A".to_string(), "B".to_string()],
        sort_field: Some("downloads_total"),
        sort_desc: true,
        limit: 20,
        offset: 40,
    };
    assert_eq!(
        query.to_params(),
        vec![
            ("_q".to_string(), "rogue".to_string()),
            ("tags".to_string(), "Plugin".to_string()),
            ("tags-in".to_string(), "A,B".to_string()),
            ("_sort".to_string(), "-downloads_total".to_string()),
            ("_limit".to_string(), "20".to_string()),
            ("_offset".to_string(), "40".to_string()),
        ]
    );
}

#[test]
fn mod_query_ascending_sort_has_no_prefix() {
    let query = ModQuery {
        sort_field: Some("name"),
        sort_desc: false,
        limit: 10,
        offset: 0,
        ..Default::default()
    };
    let params = query.to_params();
    assert!(params.contains(&("_sort".to_string(), "name".to_string())));
}

#[test]
fn parses_retry_after_seconds() {
    assert_eq!(parse_retry_after_secs("60"), Some(60));
    assert_eq!(parse_retry_after_secs(" 52 "), Some(52));
    assert_eq!(parse_retry_after_secs("soon"), None);
}

#[test]
fn rate_limit_classification() {
    let err = ApiError {
        status: Some(429),
        error_ref: Some(11009),
        message: "slow down".to_string(),
        retry_after_secs: Some(60),
    };
    assert!(err.is_rate_limited());
    assert!(!err.is_auth());
}

#[test]
fn not_subscribed_classification() {
    let err = ApiError {
        status: Some(400),
        error_ref: Some(15005),
        message: "not subscribed".to_string(),
        retry_after_secs: None,
    };
    assert!(err.is_not_subscribed());
    assert!(!err.is_not_found());
    assert!(!err.is_rate_limited());
}
