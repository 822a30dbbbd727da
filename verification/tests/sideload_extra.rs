use modkist::sideload::{classify_root_entry, RootEntry, SideloadTargetKind};
use modkist::sideload::{archive_kind_of_files, source_type_of_files, ArchiveContentKind, SideloadSourceType};

fn paths(v: &[&str]) -> Vec<String> {
    v.iter().map(|s| s.to_string()).collect()
}

#[test]
fn entry_source_type_follows_file_counts() {
    assert_eq!(source_type_of_files(&paths(&["a/Mod.DLL"])), SideloadSourceType::Dll);
    assert_eq!(source_type_of_files(&paths(&["a/level.zeeplevel"])), SideloadSourceType::Zeeplevel);
    assert_eq!(source_type_of_files(&paths(&["a.dll", "b.dll"])), SideloadSourceType::Archive);
    assert_eq!(source_type_of_files(&paths(&["a.dll", "readme.txt"])), SideloadSourceType::Archive);
    assert_eq!(source_type_of_files(&paths(&[])), SideloadSourceType::Archive);
}

#[test]
fn archive_contents_are_classified() {
    assert_eq!(archive_kind_of_files(&paths(&["mod.dll"])), Ok(ArchiveContentKind::PluginsOnly));
    assert_eq!(archive_kind_of_files(&paths(&["x/level.zeeplevel"])), Ok(ArchiveContentKind::BlueprintsOnly));
    assert_eq!(
        archive_kind_of_files(&paths(&["mod.dll", "level.zeeplevel"])),
        Ok(ArchiveContentKind::Mixed)
    );
    assert_eq!(archive_kind_of_files(&paths(&[])), Err("Archive contains no files.".to_string()));
}

#[test]
fn root_entries_are_classified() {
    assert!(matches!(classify_root_entry("Plugins", true, false), RootEntry::KindFolder));
    assert!(matches!(classify_root_entry("OldMod", true, false), RootEntry::LegacyFolder));
    assert!(matches!(
        classify_root_entry("Mod.dll", false, true),
        RootEntry::LooseFile { target_kind: SideloadTargetKind::Plugins, source_type: SideloadSourceType::Dll }
    ));
    assert!(matches!(classify_root_entry("notes.txt", false, true), RootEntry::Other));
}

fn listed(name: &str) -> modkist::sideload::SideloadedEntry {
    modkist::sideload::SideloadedEntry {
        id: format!("Plugins/{name}"),
        name: name.to_string(),
        target_kind: modkist::sideload::SideloadTargetKind::Plugins,
        source_type: modkist::sideload::SideloadSourceType::Dll,
        linked: false,
        added_at: None,
    }
}

#[test]
fn entries_are_listed_by_name_ignoring_case_and_keep_ties_in_order() {
    let entries = vec![listed("beta"), listed("Alpha"), listed("alpha2"), listed("ALPHA")];
    let sorted = modkist::sideload::sort_entries_by_name(entries);
    let ids: Vec<String> = sorted.into_iter().map(|e| e.id).collect();
    assert_eq!(ids, vec!["Plugins/Alpha", "Plugins/ALPHA", "Plugins/alpha2", "Plugins/beta"]);
}

#[test]
fn legacy_folders_with_only_levels_are_blueprints() {
    use_kind(&["a/b.zeeplevel", "c.txt"], modkist::sideload::SideloadTargetKind::Blueprints);
    use_kind(&["a/b.zeeplevel", "x/Plugin.DLL"], modkist::sideload::SideloadTargetKind::Plugins);
    use_kind(&[], modkist::sideload::SideloadTargetKind::Plugins);
}

fn use_kind(files: &[&str], expected: modkist::sideload::SideloadTargetKind) {
    let files: Vec<String> = files.iter().map(|f| f.to_string()).collect();
    assert_eq!(modkist::sideload::legacy_target_kind_of_files(&files), expected);
}
