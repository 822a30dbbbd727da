use modkist::sideload::is_safe_entry_id;

#[test]
fn rejects_unsafe_entry_ids() {
    assert!(!is_safe_entry_id(""));
    assert!(!is_safe_entry_id(".."));
    assert!(!is_safe_entry_id("../escape"));
    assert!(!is_safe_entry_id(r"foo\bar"));
    assert!(!is_safe_entry_id("Plugins"));
    assert!(!is_safe_entry_id("Plugins/foo/extra"));
    assert!(is_safe_entry_id("MyMod"));
    assert!(is_safe_entry_id("MyMod.dll"));
    assert!(is_safe_entry_id("Plugins/MyMod"));
    assert!(is_safe_entry_id("Plugins/MyMod.dll"));
    assert!(is_safe_entry_id("Blueprints/MyLevel"));
    assert!(is_safe_entry_id("Blueprints/MyLevel.zeeplevel"));
}
