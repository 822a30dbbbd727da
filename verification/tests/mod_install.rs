use std::collections::HashMap;

use modkist::mod_folder::parse_install_folder_name;
use modkist::mod_install::{installed_dependents, mod_kind_from_tags, InstalledModKind};

#[test]
fn parses_folder_name() {
    assert_eq!(parse_install_folder_name("12345_67890"), Some((12345, 67890)));
    assert_eq!(parse_install_folder_name("12345_67890_Cool Mod"), Some((12345, 67890)));
    assert_eq!(parse_install_folder_name("invalid"), None);
}

#[test]
fn finds_installed_dependents() {
    let mut dependency_map = HashMap::new();
    dependency_map.insert(10, vec![1, 2]);
    dependency_map.insert(20, vec![3]);
    dependency_map.insert(30, vec![1]);

    let installed_ids: Vec<u64> = vec![10, 20, 30];
    let mut dependents = installed_dependents(1, &dependency_map, &installed_ids);
    dependents.sort_unstable();

    assert_eq!(dependents, vec![10, 30]);
}

#[test]
fn prefers_plugin_when_both_tags_present() {
    let tags = vec!["Plugin".to_string(), "Blueprint".to_string()];
    assert_eq!(mod_kind_from_tags(&tags).unwrap(), InstalledModKind::Plugin);
}

#[test]
fn rejects_malformed_folder_names() {
    assert_eq!(parse_install_folder_name("invalid"), None);
    assert_eq!(parse_install_folder_name("12345"), None);
    assert_eq!(parse_install_folder_name("12345_"), None);
    assert_eq!(parse_install_folder_name("_67890"), None);
    assert_eq!(parse_install_folder_name("12345_abc"), None);
    assert_eq!(parse_install_folder_name("12345_67890"), Some((12345, 67890)));
}
