use modkist::mod_install::{install_plan, InstalledModKind};
use modkist::modio_api::{
    Download, Logo, Media, ModObject, ModStats, Modfile, TagObject, UserObject,
};

fn file(id: u64, name: &str) -> Modfile {
    Modfile {
        id,
        filename: name.to_string(),
        filesize: 1234,
        date_added: 0,
        version: String::new(),
        changelog: String::new(),
        download: Download { binary_url: format!("https://example.test/{id}") },
    }
}

fn mod_object(tags: &[&str], modfile: Option<Modfile>) -> ModObject {
    ModObject {
        id: 42,
        game_id: 1,
        visible: 1,
        name: "Cool Mod".to_string(),
        summary: String::new(),
        description: None,
        profile_url: String::new(),
        homepage_url: None,
        dependencies: false,
        date_added: 0,
        date_updated: 0,
        date_live: 0,
        logo: Logo { original: String::new(), thumb_320x180: String::new() },
        submitted_by: UserObject { username: String::new(), profile_url: String::new(), avatar: None },
        media: Media { images: vec![] },
        tags: tags.iter().map(|t| TagObject { name: t.to_string() }).collect(),
        stats: ModStats {
            downloads_today: 0,
            downloads_total: 0,
            subscribers_total: 0,
            popularity_rank_position: 0,
            ratings_positive: 0,
            ratings_negative: 0,
            ratings_percentage_positive: 0,
            ratings_display_text: String::new(),
        },
        modfile,
    }
}

#[test]
fn plans_the_current_file_into_the_plugin_folder() {
    let m = mod_object(&["Plugin"], Some(file(7, "dir/My Mod.zip")));
    let plan = install_plan("/games/Zeepkist", 42, &m, None).unwrap();
    assert_eq!(plan.file_id, 7);
    assert_eq!(plan.kind, InstalledModKind::Plugin);
    assert_eq!(plan.expected_size, 1234);
    assert_eq!(plan.download_url, "https://example.test/7");
    assert_eq!(plan.target_dir, "/games/Zeepkist/BepInEx/plugins/Mods/42_7_Cool Mod");
    assert_eq!(plan.download_name, "42_7_My Mod.zip");
}

#[test]
fn a_requested_file_wins_and_a_missing_file_is_an_error() {
    let m = mod_object(&["Blueprint"], Some(file(7, "a.zip")));
    let plan = install_plan("/g", 42, &m, Some(file(9, "b.zip"))).unwrap();
    assert_eq!(plan.file_id, 9);
    assert_eq!(plan.kind, InstalledModKind::Blueprint);
    let none = mod_object(&["Plugin"], None);
    assert_eq!(install_plan("/g", 42, &none, None).err(), Some("Mod 42 has no downloadable file.".to_string()));
    let untagged = mod_object(&[], Some(file(7, "a.zip")));
    assert_eq!(
        install_plan("/g", 42, &untagged, None).err(),
        Some("Mod is not tagged Plugin or Blueprint.".to_string())
    );
}
