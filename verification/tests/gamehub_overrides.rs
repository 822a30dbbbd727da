use modkist::gamehub::ensure_winhttp_overrides;

#[test]
fn winhttp_overrides_are_added_once() {
    let mut entries: Vec<(String, Option<String>)> =
        vec![("mscoree".to_string(), Some("native".to_string()))];
    assert!(ensure_winhttp_overrides(&mut entries));
    assert_eq!(entries.len(), 3);
    assert!(entries.contains(&("winhttp".to_string(), Some("native,builtin".to_string()))));
    assert!(entries.contains(&("*winhttp".to_string(), Some("native,builtin".to_string()))));
    assert!(entries.contains(&("mscoree".to_string(), Some("native".to_string()))));
    assert!(!ensure_winhttp_overrides(&mut entries));
}

#[test]
fn builtin_only_override_is_replaced() {
    let mut entries: Vec<(String, Option<String>)> = vec![
        ("winhttp".to_string(), Some("builtin".to_string())),
        ("*winhttp".to_string(), Some(" Native , builtin".to_string())),
    ];
    assert!(ensure_winhttp_overrides(&mut entries));
    assert_eq!(entries[0], ("winhttp".to_string(), Some("native,builtin".to_string())));
    assert_eq!(entries[1], ("*winhttp".to_string(), Some(" Native , builtin".to_string())));
}

#[test]
fn non_text_override_is_replaced() {
    let mut entries: Vec<(String, Option<String>)> = vec![("winhttp".to_string(), None)];
    assert!(ensure_winhttp_overrides(&mut entries));
    assert_eq!(entries[0], ("winhttp".to_string(), Some("native,builtin".to_string())));
}

#[test]
fn merge_orders_existing_entries_by_name_and_keeps_them() {
    let content = "[Software\\\\Wine\\\\DllOverrides]\n\"zlib\"=\"native\"\n\"Ab\"=\"builtin\"\n";
    let merged = modkist::wine_prefix::merge_winhttp_overrides(content);
    assert_eq!(
        merged,
        "[Software\\\\Wine\\\\DllOverrides]\n\"Ab\"=\"builtin\"\n\"winhttp\"=\"native,builtin\"\n\"zlib\"=\"native\"\n"
    );
}

#[test]
fn gamehub_config_gets_both_winhttp_overrides_once() {
    let config = r#"{"virtual_containers":{"1":{"name":"Zeepkist","dll_overrides":{"mscoree":"native,builtin"}}}}"#;
    let updated = modkist::gamehub::gamehub_override_update("cfg.json", config, "1").unwrap().unwrap();
    let v: serde_json::Value = serde_json::from_str(&updated).unwrap();
    let o = &v["virtual_containers"]["1"]["dll_overrides"];
    assert_eq!(o["mscoree"], "native,builtin");
    assert_eq!(o["winhttp"], "native,builtin");
    assert_eq!(o["*winhttp"], "native,builtin");
    assert_eq!(modkist::gamehub::gamehub_override_update("cfg.json", &updated, "1"), Ok(None));
}

#[test]
fn gamehub_config_errors_are_named() {
    let update = |c: &str, id: &str| modkist::gamehub::gamehub_override_update("cfg.json", c, id);
    assert_eq!(
        update(r#"{"virtual_containers":{}}"#, "7"),
        Err("Virtual container 7 not found in GameHub config".to_string())
    );
    assert_eq!(update(r#"{"virtual_containers":{"7":3}}"#, "7"), Err("Invalid virtual container object".to_string()));
    assert_eq!(
        update(r#"{"virtual_containers":{"7":{"dll_overrides":[]}}}"#, "7"),
        Err("Invalid dll_overrides object".to_string())
    );
    assert!(update("not json", "7").unwrap_err().starts_with("Could not parse cfg.json: "));
    let created = update(r#"{"virtual_containers":{"7":{}}}"#, "7").unwrap().unwrap();
    assert!(created.contains("\"*winhttp\": \"native,builtin\""));
}
