use modkist::prefix_search::{
    drive_c_prefix_candidates, exe_prefix_candidates, labeled_prefix, prefix_scan_roots,
    proton_search, ListedEntry, EntryKind, ExeSearch, GameDirWalk, Platform,
};

fn entry(path: &str, kind: EntryKind) -> ListedEntry {
    let name = path.rsplit('/').next().unwrap().to_string();
    ListedEntry { path: path.to_string(), name, kind }
}

fn listing(dir: &str) -> Vec<ListedEntry> {
    match dir {
        "/r" => vec![
            entry("/r/a", EntryKind::Dir),
            entry("/r/zeepkist.exe", EntryKind::File),
            entry("/r/b", EntryKind::Dir),
            entry("/r/notes.txt", EntryKind::File),
        ],
        "/r/a" => vec![entry("/r/a/zeepkist.exe", EntryKind::File)],
        "/r/b" => vec![entry("/r/b/c", EntryKind::Dir), entry("/r/b/zeepkist.exe", EntryKind::Other)],
        "/r/b/c" => vec![entry("/r/b/c/zeepkist.exe", EntryKind::File)],
        _ => Vec::new(),
    }
}

#[test]
fn drive_c_candidates_from_a_game_inside_a_prefix() {
    assert_eq!(
        drive_c_prefix_candidates("/home/u/.wine/drive_c/Games/Zeepkist"),
        vec!["/home/u/.wine".to_string()]
    );
}

#[test]
fn drive_c_candidates_nearest_first() {
    assert_eq!(
        drive_c_prefix_candidates("/a/drive_c/b/drive_c/c"),
        vec!["/a/drive_c/b".to_string(), "/a".to_string()]
    );
    assert_eq!(drive_c_prefix_candidates("/drive_c/x"), vec!["/".to_string()]);
    assert!(drive_c_prefix_candidates("/opt/games/Zeepkist").is_empty());
    assert!(drive_c_prefix_candidates("/").is_empty());
}

#[test]
fn proton_search_finds_steamapps_above_common() {
    let search = proton_search("/lib/steamapps/common/Zeepkist").unwrap();
    assert_eq!(search.steamapps, "/lib/steamapps");
    assert_eq!(search.installdir, "Zeepkist");

    let itself = proton_search("/x/steamapps/common").unwrap();
    assert_eq!(itself.steamapps, "/x/steamapps");
    assert_eq!(itself.installdir, "common");

    assert!(proton_search("/a/common/Zeepkist").is_none());
    assert!(proton_search("/steamapps/Zeepkist").is_none());
}

#[test]
fn exe_candidates_walk_up_from_the_executable() {
    assert_eq!(
        exe_prefix_candidates("/p/drive_c/Games/Z/zeepkist.exe"),
        vec![
            "/p/drive_c/Games/Z".to_string(),
            "/p/drive_c/Games".to_string(),
            "/p".to_string(),
            "/p/drive_c".to_string(),
            "/p".to_string(),
        ]
    );
    assert!(exe_prefix_candidates("zeepkist.exe").is_empty());
}

#[test]
fn prefix_roots_per_platform() {
    assert_eq!(
        prefix_scan_roots(Platform::Linux, "/home/u", None),
        vec![
            "/home/u/.local/share/Steam/steamapps/compatdata".to_string(),
            "/home/u/.steam/debian-installation/steamapps/compatdata".to_string(),
            "/home/u/.steam/steam/steamapps/compatdata".to_string(),
            "/home/u/Games/Heroic/Prefixes".to_string(),
            "/home/u/.wine".to_string(),
            "/home/u/.cxoffice".to_string(),
        ]
    );
    assert_eq!(
        prefix_scan_roots(Platform::MacOs, "/Users/u", Some("  /Volumes/Bottles\n".to_string())),
        vec![
            "/Volumes/Bottles".to_string(),
            "/Users/u/Library/Application Support/CrossOver/Bottles".to_string(),
            "/Users/u/Library/Application Support/CrossOver Games/Bottles".to_string(),
        ]
    );
    assert_eq!(prefix_scan_roots(Platform::MacOs, "/Users/u", Some(" \n".to_string())).len(), 2);
    assert!(prefix_scan_roots(Platform::Windows, "C:/Users/u", None).is_empty());
}

#[test]
fn labeled_prefix_uses_the_directory_name() {
    let p = labeled_prefix("/x/bottle/pfx".to_string(), "/x/bottle");
    assert_eq!(p.path, "/x/bottle/pfx");
    assert_eq!(p.label.as_deref(), Some("bottle"));
    assert_eq!(labeled_prefix("/".to_string(), "/").label, None);
}

#[test]
fn game_dir_walk_is_depth_first_in_listing_order() {
    let mut walk = GameDirWalk::new("/r".to_string(), 2);
    let mut listed = Vec::new();
    while let Some(dir) = walk.next_dir() {
        listed.push(dir.clone());
        walk.visit(listing(&dir));
    }
    assert_eq!(listed, vec!["/r".to_string(), "/r/a".to_string(), "/r/b".to_string()]);
    assert_eq!(walk.found(), vec!["/r/a".to_string(), "/r".to_string()]);
}

#[test]
fn game_dir_walk_with_no_depth_lists_nothing() {
    let mut walk = GameDirWalk::new("/r".to_string(), 0);
    assert_eq!(walk.next_dir(), None);
    assert!(walk.found().is_empty());
}

#[test]
fn exe_search_takes_the_last_pushed_directory_first() {
    let mut search = ExeSearch::new("/r".to_string(), 1);
    assert_eq!(search.next_dir().as_deref(), Some("/r"));
    assert_eq!(search.visit(listing("/r")), vec!["/r/zeepkist.exe".to_string()]);
    assert_eq!(search.next_dir().as_deref(), Some("/r/b"));
    assert_eq!(search.visit(listing("/r/b")), vec!["/r/b/zeepkist.exe".to_string()]);
    assert_eq!(search.next_dir().as_deref(), Some("/r/a"));
    assert_eq!(search.visit(listing("/r/a")), vec!["/r/a/zeepkist.exe".to_string()]);
    assert_eq!(search.next_dir(), None);
    assert!(search.visit(listing("/r")).is_empty());
}
