use modkist::game_detect::{installdir_from_manifest, paths_from_libraryfolders_vdf};

#[test]
fn parses_installdir_from_manifest() {
    let content = "\"AppState\"\n{\n\t\"installdir\"\t\t\"Zeepkist\"\n}\n";
    assert_eq!(installdir_from_manifest(content).as_deref(), Some("Zeepkist"));
}

#[test]
fn parses_libraryfolders_paths() {
    let content = r#"
"libraryfolders"
{
	"1"
	{
		"path"		"D:\\SteamLibrary"
	}
}
"#;
    assert_eq!(paths_from_libraryfolders_vdf(content), vec!["D:\\SteamLibrary".to_string()]);
}
