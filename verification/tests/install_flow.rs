use modkist::mod_install::subscribe_needed;
use modkist::mod_install::{
    append_install_targets, install_order, legacy_folder_rename, sort_blockers, target_action,
    DependencyGraph, InstallPass, ModInstallState, PassStep, TargetAction, UninstallBlocker,
};

fn state(status: &str, installed: Option<u64>) -> ModInstallState {
    ModInstallState {
        status: status.to_string(),
        installed_file_id: installed,
        latest_file_id: installed,
        kind: None,
        can_uninstall: false,
        uninstall_blocked_by: vec![],
    }
}

#[test]
fn dependencies_come_first_in_install_order() {
    let g = DependencyGraph { nodes: vec![1, 2, 3], deps: vec![vec![2], vec![3], vec![]] };
    assert_eq!(install_order(&g), Ok(vec![3, 2, 1]));
}

#[test]
fn circular_dependencies_are_refused() {
    let g = DependencyGraph { nodes: vec![1, 2], deps: vec![vec![2], vec![1]] };
    assert_eq!(install_order(&g), Err("Circular dependency detected.".to_string()));
}

#[test]
fn install_targets_skip_ignored_and_repeated_mods() {
    let mut targets = vec![5];
    append_install_targets(&mut targets, &vec![3, 5, 7, 3], &vec![7]);
    assert_eq!(targets, vec![5, 3]);
}

#[test]
fn up_to_date_mods_are_skipped_unless_another_file_is_asked() {
    assert!(matches!(target_action(1, &state("upToDate", Some(10)), true, None), TargetAction::Skip));
    assert!(matches!(
        target_action(1, &state("upToDate", Some(10)), true, Some((1, 9))),
        TargetAction::Install { file_id: Some(9) }
    ));
    assert!(matches!(
        target_action(1, &state("updateAvailable", Some(10)), false, None),
        TargetAction::Skip
    ));
    assert!(matches!(
        target_action(1, &state("notInstalled", None), false, Some((2, 9))),
        TargetAction::Install { file_id: None }
    ));
}

#[test]
fn install_pass_records_sync_failures_of_roots_only() {
    let mut pass = InstallPass::new(true, true, None, vec![1]);
    assert!(matches!(pass.after_install_state(1, Err("boom".to_string())), Ok(PassStep::RecordFailure)));
    assert!(matches!(pass.after_install_state(2, Err("boom".to_string())), Ok(PassStep::Done)));
    assert!(matches!(pass.after_install_state(3, Ok(state("upToDate", Some(4)))), Ok(PassStep::ClearFailure)));
    assert!(matches!(
        pass.after_install_state(4, Ok(state("notInstalled", None))),
        Ok(PassStep::Install { file_id: None })
    ));
    assert!(matches!(pass.after_install(4, Ok(())), Ok(PassStep::ClearFailure)));
    let result = pass.finish();
    assert_eq!(result.installed, vec![4]);
    assert_eq!(result.skipped, vec![3]);
}

#[test]
fn install_pass_outside_sync_stops_on_failure() {
    let mut pass = InstallPass::new(false, true, None, vec![]);
    assert!(matches!(pass.after_install(4, Err("disk full".to_string())), Err(m) if m == "disk full"));
}

#[test]
fn legacy_folders_get_named_unless_outdated() {
    assert_eq!(legacy_folder_rename("12_34", "Cool Mod", Some(34)), Some("12_34_Cool Mod".to_string()));
    assert_eq!(legacy_folder_rename("12_34", "Cool Mod", None), Some("12_34_Cool Mod".to_string()));
    assert_eq!(legacy_folder_rename("12_34", "Cool Mod", Some(35)), None);
    assert_eq!(legacy_folder_rename("12_34_Named", "Cool Mod", Some(34)), None);
}

#[test]
fn blockers_sort_by_lower_case_name() {
    let blockers = vec![
        UninstallBlocker { mod_id: 1, name: "b".to_string() },
        UninstallBlocker { mod_id: 2, name: "a".to_string() },
        UninstallBlocker { mod_id: 3, name: "B".to_string() },
    ];
    let sorted = sort_blockers(blockers);
    let ids: Vec<u64> = sorted.iter().map(|b| b.mod_id).collect();
    assert_eq!(ids, vec![2, 1, 3]);
}

#[test]
fn subscribing_only_when_missing_on_the_account_profile() {
    let subs = vec![3, 7, 9];
    assert!(subscribe_needed(true, true, &subs, 5));
    assert!(!subscribe_needed(true, true, &subs, 7));
    assert!(!subscribe_needed(false, true, &subs, 5));
    assert!(!subscribe_needed(true, false, &subs, 5));
}
