use modkist::profiles::archive_profile_ids;
use modkist::mod_install::DirEntryInfo;
use modkist::profiles::{
    activate_profile, create_profile, default_builtin_profiles, delete_profile, ensure_builtin_profiles,
    finish_migration, has_profile_folders, migration_step, profile_folders, switch_check,
    MigrationStep, ProfileKind, ProfileStoreData, IMPORTED_PROFILE_NAME, VANILLA_PROFILE_ID,
};

fn empty_store() -> ProfileStoreData {
    ProfileStoreData {
        profiles: vec![],
        active_profile_id: VANILLA_PROFILE_ID.to_string(),
        migrated: false,
        archives_migrated: false,
    }
}

fn entry(name: &str, is_dir: bool) -> DirEntryInfo {
    DirEntryInfo { name: name.to_string(), is_dir }
}

#[test]
fn builtin_profiles_always_exist() {
    let mut data = empty_store();
    ensure_builtin_profiles(&mut data, Some("alice"));
    assert_eq!(data.profiles.len(), 2);
    assert!(data.profiles.iter().any(|p| p.id == "vanilla" && p.kind == ProfileKind::Vanilla));
    assert!(data.profiles.iter().any(|p| p.kind == ProfileKind::User));
    ensure_builtin_profiles(&mut data, Some("alice"));
    assert_eq!(data.profiles.len(), 2);
    assert_eq!(default_builtin_profiles(None).len(), 2);
}

#[test]
fn custom_profiles_can_be_created_and_deleted() {
    let mut data = empty_store();
    ensure_builtin_profiles(&mut data, None);
    assert_eq!(create_profile(&mut data, "custom-1".to_string(), "  Pack  "), Ok(2));
    assert_eq!(data.profiles[2].name, "Pack");
    assert_eq!(
        create_profile(&mut data, "custom-2".to_string(), "Pack"),
        Err("A profile with this name already exists.".to_string())
    );
    assert_eq!(create_profile(&mut data, "custom-3".to_string(), "   "), Err("Enter a profile name.".to_string()));
    assert_eq!(delete_profile(&mut data, "vanilla"), Err("Built-in profiles cannot be deleted.".to_string()));
    assert_eq!(delete_profile(&mut data, "nope"), Err("Profile nope does not exist.".to_string()));
    assert_eq!(delete_profile(&mut data, "custom-1"), Ok("Pack".to_string()));
    assert_eq!(data.profiles.len(), 2);
}

#[test]
fn switching_needs_a_known_profile_and_a_login_for_the_account() {
    let mut data = empty_store();
    ensure_builtin_profiles(&mut data, None);
    assert_eq!(switch_check(&data, "vanilla", false), Ok(None));
    assert_eq!(switch_check(&data, "ghost", true), Err("Profile ghost does not exist.".to_string()));
    assert_eq!(switch_check(&data, "user", false), Err("Sign in to use your account profile.".to_string()));
    let i = switch_check(&data, "user", true).unwrap().unwrap();
    let info = activate_profile(&mut data, i);
    assert_eq!(info.id, "user");
    assert!(!info.install_blocked);
    assert_eq!(data.active_profile_id, "user");
}

#[test]
fn only_install_folders_move_with_profiles() {
    let entries = vec![
        entry("10_20", true),
        entry("MyManualMod", true),
        entry("30_40_Cool", true),
        entry("50_60", false),
    ];
    assert_eq!(profile_folders(&entries), vec!["10_20".to_string(), "30_40_Cool".to_string()]);
    assert!(has_profile_folders(&entries));
    assert!(!has_profile_folders(&vec![entry("MyManualMod", true), entry("1_2", false)]));
}

#[test]
fn migration_imports_live_mods_or_starts_vanilla() {
    assert_eq!(migration_step(true, true, true), MigrationStep::Nothing);
    assert_eq!(migration_step(false, false, true), MigrationStep::Nothing);
    assert_eq!(migration_step(false, true, true), MigrationStep::ImportLiveMods);
    assert_eq!(migration_step(false, true, false), MigrationStep::StartVanilla);

    let mut data = empty_store();
    finish_migration(&mut data, Some("custom-9".to_string()));
    assert!(data.migrated);
    assert_eq!(data.active_profile_id, "custom-9");
    assert_eq!(data.profiles[0].name, IMPORTED_PROFILE_NAME);
    assert_eq!(data.profiles[0].kind, ProfileKind::Custom);

    let mut data = empty_store();
    data.active_profile_id = "x".to_string();
    finish_migration(&mut data, None);
    assert_eq!(data.active_profile_id, VANILLA_PROFILE_ID);
    assert!(data.profiles.is_empty());
}

#[test]
fn archive_ids_cover_profiles_and_old_folders_once() {
    let mut data = empty_store();
    ensure_builtin_profiles(&mut data, None);
    let ids = archive_profile_ids(&data.profiles, &vec!["custom-1".to_string(), "vanilla".to_string()]);
    assert_eq!(ids, vec!["vanilla".to_string(), "user".to_string(), "custom-1".to_string()]);
}

#[test]
fn creating_then_deleting_a_profile_restores_the_list() {
    let mut data = empty_store();
    ensure_builtin_profiles(&mut data, Some("alice"));
    create_profile(&mut data, "custom-7".to_string(), "Speedrun").unwrap();
    let before: Vec<(String, String)> = data.profiles.iter().map(|p| (p.id.clone(), p.name.clone())).collect();
    create_profile(&mut data, "custom-8".to_string(), "Casual").unwrap();
    assert_eq!(delete_profile(&mut data, "custom-8"), Ok("Casual".to_string()));
    let after: Vec<(String, String)> = data.profiles.iter().map(|p| (p.id.clone(), p.name.clone())).collect();
    assert_eq!(after, before);
}
