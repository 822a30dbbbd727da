use modkist::wine_prefix::{
    is_winhttp_configured, manifest_matches_installdir, merge_winhttp_overrides,
    USER_REG_DLL_OVERRIDES_SECTION,
};

#[test]
fn detects_existing_winhttp_override() {
    let content = r#"REGEDIT4

[Software\\Wine\\DllOverrides]
"winhttp"="native,builtin"
"#;
    assert!(is_winhttp_configured(content));
}

#[test]
fn detects_existing_winhttp_override_with_single_backslashes() {
    let content = r#"REGEDIT4

[Software\Wine\DllOverrides]
"winhttp"="native, builtin"
"#;
    assert!(is_winhttp_configured(content));
}

#[test]
fn merges_missing_winhttp_override_section() {
    let content = "REGEDIT4\n";
    let merged = merge_winhttp_overrides(content);
    assert!(merged.contains(USER_REG_DLL_OVERRIDES_SECTION));
    assert!(merged.contains("\"winhttp\"=\"native,builtin\""));
    assert!(is_winhttp_configured(&merged));
}

#[test]
fn ignores_winhttp_in_duplicate_plain_section_when_timestamped_section_exists() {
    let content = r#"REGEDIT4

[Software\\Wine\\DllOverrides] 1608830137
#time=1d6da1865a6084e
"d3d11"="builtin"

[Software\\Wine\\DllOverrides]
"winhttp"="native,builtin"
"#;
    assert!(!is_winhttp_configured(content));

    let merged = merge_winhttp_overrides(content);
    assert!(merged.contains(
        "[Software\\\\Wine\\\\DllOverrides] 1608830137\n#time=1d6da1865a6084e\n\"d3d11\"=\"builtin\"\n\"winhttp\"=\"native,builtin\"\n",
    ));
    assert!(!merged.contains("[Software\\\\Wine\\\\DllOverrides]\n\"winhttp\""));
    assert_eq!(merged.matches("[Software\\\\Wine\\\\DllOverrides]").count(), 1);
}

#[test]
fn inserts_winhttp_in_alphabetical_order_among_existing_overrides() {
    let content = "[Software\\\\Wine\\\\DllOverrides] 1608830137\n#time=1d6da1865a6084e\n\"atlthunk\"=\"builtin\"\n\"winmm\"=\"builtin\"\n";
    let merged = merge_winhttp_overrides(content);
    assert!(merged.contains(
        "#time=1d6da1865a6084e\n\"atlthunk\"=\"builtin\"\n\"winhttp\"=\"native,builtin\"\n\"winmm\"=\"builtin\"\n",
    ));
}

#[test]
fn preserves_trailing_blank_line_before_next_section() {
    let content = "[Software\\\\Wine\\\\DllOverrides] 1608830137\n#time=1d6da1865a6084e\n\"d3d11\"=\"builtin\"\n\n[Software\\\\Wine\\\\AppDefaults]\n";
    let merged = merge_winhttp_overrides(content);
    assert!(merged.contains(
        "\"d3d11\"=\"builtin\"\n\"winhttp\"=\"native,builtin\"\n\n[Software\\\\Wine\\\\AppDefaults]",
    ));
}

#[test]
fn appends_winhttp_directly_after_last_entry_without_blank_line() {
    let content = "[Software\\\\Wine\\\\DllOverrides] 1608830137\n#time=1d6da1865a6084e\n\"d3d11\"=\"builtin\"\n";
    let merged = merge_winhttp_overrides(content);
    assert!(merged.contains(
        "#time=1d6da1865a6084e\n\"d3d11\"=\"builtin\"\n\"winhttp\"=\"native,builtin\"\n",
    ));
    assert!(!merged.contains("\"d3d11\"=\"builtin\"\n\n\"winhttp\""));
}

#[test]
fn merges_into_existing_dll_overrides_section_with_timestamp() {
    let content = r#"REGEDIT4

[Software\\Wine\\DllOverrides] 1608830137
#time=1d6da1865a6084e
"d3d11"="builtin"
"#;
    let merged = merge_winhttp_overrides(content);
    assert!(merged.contains("\"d3d11\"=\"builtin\""));
    assert!(merged.contains("\"winhttp\"=\"native,builtin\""));
    assert!(is_winhttp_configured(&merged));
    assert_eq!(merged.matches("[Software\\\\Wine\\\\DllOverrides]").count(), 1);
}

#[test]
fn merges_into_existing_dll_overrides_section() {
    let content = r#"REGEDIT4

[Software\\Wine\\DllOverrides]
"d3d11"="builtin"
"#;
    let merged = merge_winhttp_overrides(content);
    assert!(merged.contains("\"d3d11\"=\"builtin\""));
    assert!(is_winhttp_configured(&merged));
    assert!(!merged.contains("[Software\\Wine\\DllOverrides]\n[Software"));
}

#[test]
fn manifest_matches_installdir_case_insensitive() {
    let content = "\"installdir\"\t\t\"zeepkist\"\n";
    assert!(manifest_matches_installdir(content, "Zeepkist"));
}

#[test]
fn merging_twice_changes_nothing_more() {
    let inputs = [
        "REGEDIT4\n",
        "",
        "[Software\\\\Wine\\\\DllOverrides] 1608830137\n#time=1d6da1865a6084e\n\"d3d11\"=\"builtin\"\n",
        "[Software\\\\Wine\\\\DllOverrides]\n\"winhttp\"=\"builtin\"\n\n[Software\\\\Wine\\\\Fonts]\n",
        "REGEDIT4\n\n[Software\\\\Wine\\\\DllOverrides] 1608830137\n\"d3d11\"=\"builtin\"\n\n[Software\\\\Wine\\\\DllOverrides]\n\"winhttp\"=\"native,builtin\"\n",
    ];
    for content in inputs {
        let once = merge_winhttp_overrides(content);
        assert_eq!(merge_winhttp_overrides(&once), once);
    }
}

#[test]
fn merge_appends_the_section_to_a_bare_file() {
    let merged = merge_winhttp_overrides("REGEDIT4\n");
    assert_eq!(
        merged,
        format!("REGEDIT4\n\n{USER_REG_DLL_OVERRIDES_SECTION}\n\"winhttp\"=\"native,builtin\"\n")
    );
    let configured = "[Software\\\\Wine\\\\DllOverrides] 1608830137\n\"winhttp\"=\"native,builtin\"\n";
    assert_eq!(merge_winhttp_overrides(configured), configured);
}
