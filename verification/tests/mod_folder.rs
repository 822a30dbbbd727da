use modkist::mod_folder::{install_folder_name, is_legacy_install_folder_name, parse_install_folder_name};

#[test]
fn parses_legacy_and_named_folder_names() {
    assert_eq!(parse_install_folder_name("12345_67890"), Some((12345, 67890)));
    assert_eq!(parse_install_folder_name("12345_67890_Cool Mod"), Some((12345, 67890)));
    assert_eq!(parse_install_folder_name("12345_67890_Cool_Mod_Name"), Some((12345, 67890)));
    assert_eq!(parse_install_folder_name("invalid"), None);
}

#[test]
fn builds_named_install_folder() {
    assert_eq!(install_folder_name(1, 2, "Cool Mod"), "1_2_Cool Mod");
    assert_eq!(install_folder_name(1, 2, "  "), "1_2");
    assert_eq!(install_folder_name(1, 2, "Bad/Name:Here"), "1_2_Bad_Name_Here");
}

#[test]
fn detects_legacy_folder_names() {
    assert!(is_legacy_install_folder_name("12345_67890"));
    assert!(!is_legacy_install_folder_name("12345_67890_My Mod"));
}
