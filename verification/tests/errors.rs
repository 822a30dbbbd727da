use modkist::bepinex::{
    install_decision, verify_after_install, BepInExState, BepInExStatus, VERIFY_AFTER_INSTALL_ERROR,
    WRONG_VERSION_INSTALL_ERROR,
};
use modkist::game_path::{entered_game_path, validate_directory};
use modkist::mod_install::{
    ensure_install_prerequisites, sync_may_continue, sync_precheck, uninstall_check, UninstallBlocker,
    SUBSCRIPTION_SYNC_CANCELLED, VANILLA_INSTALL_BLOCKED,
};
use modkist::modio_client::{require_api_key, require_game_id, require_token, ModioConfig};
use modkist::sideload::folder_name_from_source;
use modkist::subscription_sync_settings::ignored_after;

#[test]
fn install_needs_bepinex_and_an_open_sync() {
    assert_eq!(
        ensure_install_prerequisites(false),
        Err("BepInEx is not installed in your game directory.".to_string())
    );
    assert_eq!(ensure_install_prerequisites(true), Ok(()));
    assert_eq!(sync_precheck(false, true, false), Ok(false));
    assert_eq!(sync_precheck(true, false, false), Ok(false));
    assert_eq!(sync_precheck(true, true, true), Err(VANILLA_INSTALL_BLOCKED.to_string()));
    assert_eq!(sync_precheck(true, true, false), Ok(true));
    assert_eq!(sync_may_continue(true, true), Err(SUBSCRIPTION_SYNC_CANCELLED.to_string()));
    assert_eq!(sync_may_continue(false, false), Err(SUBSCRIPTION_SYNC_CANCELLED.to_string()));
    assert_eq!(sync_may_continue(false, true), Ok(()));
}

#[test]
fn uninstall_is_refused_while_required() {
    let blockers = vec![
        UninstallBlocker { mod_id: 2, name: "Alpha".to_string() },
        UninstallBlocker { mod_id: 3, name: "Beta".to_string() },
    ];
    assert_eq!(uninstall_check(&vec![1], 9, &vec![]), Err("Mod is not installed.".to_string()));
    assert_eq!(
        uninstall_check(&vec![1], 1, &blockers),
        Err("Cannot uninstall: required by Alpha, Beta.".to_string())
    );
    assert_eq!(
        uninstall_check(&vec![1], 1, &vec![UninstallBlocker { mod_id: 2, name: "Alpha".to_string() }]),
        Err("Cannot uninstall: required by Alpha.".to_string())
    );
    assert_eq!(uninstall_check(&vec![1], 1, &vec![]), Ok(()));
}

#[test]
fn game_directory_checks() {
    assert_eq!(validate_directory(false, false, false), Err("This directory does not exist.".to_string()));
    assert_eq!(validate_directory(true, false, false), Err("The path must be a directory.".to_string()));
    assert_eq!(
        validate_directory(true, true, false),
        Err("Could not find zeepkist.exe in this directory.".to_string())
    );
    assert_eq!(validate_directory(true, true, true), Ok(()));
    assert_eq!(entered_game_path("   "), Err("Enter your Zeepkist game directory.".to_string()));
    assert_eq!(entered_game_path(" /games/Zeepkist "), Ok("/games/Zeepkist".to_string()));
}

#[test]
fn bepinex_install_decisions() {
    assert_eq!(install_decision(BepInExState::Missing), Ok(true));
    assert_eq!(install_decision(BepInExState::Installed), Ok(false));
    assert_eq!(install_decision(BepInExState::WrongVersion), Err(WRONG_VERSION_INSTALL_ERROR.to_string()));
    let broken = BepInExStatus {
        state: "missing".to_string(),
        found_version: None,
        message: None,
        can_continue: false,
    };
    assert_eq!(verify_after_install(broken).err(), Some(VERIFY_AFTER_INSTALL_ERROR.to_string()));
}

#[test]
fn modio_requirements() {
    let config = ModioConfig { game_id: None, api_host: None, use_test_env: false };
    assert_eq!(require_game_id(&config), Err("MODIO_GAME_ID is not set in .env".to_string()));
    assert_eq!(require_api_key(&None), Err("MODIO_API_KEY is not set in .env".to_string()));
    assert_eq!(require_token(None), Err("Not logged in".to_string()));
    assert_eq!(require_token(Some("t".to_string())), Ok("t".to_string()));
}

#[test]
fn ignoring_needs_a_recorded_failure() {
    assert_eq!(
        ignored_after(&vec![], &vec![5], 7, true),
        Err("Mod 7 is not in the sync failures list.".to_string())
    );
    assert_eq!(ignored_after(&vec![3], &vec![5], 5, true), Ok(Some(vec![3, 5])));
    assert_eq!(ignored_after(&vec![3, 5], &vec![5], 5, true), Ok(None));
    assert_eq!(ignored_after(&vec![3, 5], &vec![5], 5, false), Ok(Some(vec![3])));
    assert_eq!(ignored_after(&vec![3], &vec![5], 5, false), Ok(None));
}

#[test]
fn folder_names_need_a_file_name() {
    assert_eq!(folder_name_from_source("/mods/CoolMod.dll"), Ok("CoolMod".to_string()));
    assert!(folder_name_from_source("").is_err());
}
